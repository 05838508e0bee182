//! The command line: targets, presets, modules, output modes, and the rule
//! that exactly one target is given.
use vstd::prelude::*;
use crate::text::{opt_view, clone_opt};

verus! {

/// A preset configuration of anti-analysis rules.
#[derive(Clone, Copy, Debug, PartialEq, Eq, Structural)]
pub enum Preset {
    Vmware,
}

/// An optional behaviour module.
#[derive(Clone, Copy, Debug, PartialEq, Eq, Structural)]
pub enum Module {
    Behavior,
}

/// How events are rendered.
#[derive(Clone, Copy, Debug, PartialEq, Eq, Structural)]
pub enum Output {
    Console,
    Jsonl,
}

impl Preset {
    /// The directory that holds this preset's rule scripts.
    pub open spec fn dir_view(self) -> Seq<char> {
        match self {
            Preset::Vmware => "vmware"@,
        }
    }

    pub fn dir_name(&self) -> (name: &'static str)
        ensures
            name@ == self.dir_view(),
    {
        match self {
            Preset::Vmware => "vmware",
        }
    }
}

impl Module {
    /// The directory that holds this module's scripts.
    pub open spec fn dir_view(self) -> Seq<char> {
        match self {
            Module::Behavior => "behavior"@,
        }
    }

    pub fn dir_name(&self) -> (name: &'static str)
        ensures
            name@ == self.dir_view(),
    {
        match self {
            Module::Behavior => "behavior",
        }
    }
}

/// The process to observe: a command line to spawn, or a running process.
#[derive(Debug)]
pub enum Target {
    Exec(String),
    Pid(u32),
}

pub enum TargetView {
    Exec(Seq<char>),
    Pid(u32),
}

impl View for Target {
    type V = TargetView;

    open spec fn view(&self) -> TargetView {
        match self {
            Target::Exec(s) => TargetView::Exec(s@),
            Target::Pid(p) => TargetView::Pid(*p),
        }
    }
}

/// Why a set of command-line values is refused.
#[derive(Clone, Copy, Debug, PartialEq, Eq, Structural)]
pub enum ArgsError {
    /// Neither `--exec` nor `--pid` was given.
    MissingTarget,
    /// Both `--exec` and `--pid` were given.
    ConflictingTargets,
}

/// The abstract content of [`Args`].
pub struct ArgsView {
    pub command: Option<Seq<char>>,
    pub pid: Option<u32>,
    pub presets: Option<Preset>,
    pub module: Option<Module>,
    pub output: Output,
    pub save: Option<Seq<char>>,
    pub quiet: bool,
    pub scripts_dir: Option<Seq<char>>,
    pub follow_children: bool,
}

impl ArgsView {
    /// The target these arguments designate.
    pub open spec fn target(self) -> TargetView {
        match self.command {
            Some(e) => TargetView::Exec(e),
            None => TargetView::Pid(self.pid.unwrap()),
        }
    }
}

/// Parsed command-line arguments; exactly one of the command (`--exec`) and the pid (`--pid`) is present.
pub struct Args {
    command: Option<String>,
    pid: Option<u32>,
    presets: Option<Preset>,
    module: Option<Module>,
    output: Output,
    save: Option<String>,
    quiet: bool,
    scripts_dir: Option<String>,
    follow_children: bool,
}

impl View for Args {
    type V = ArgsView;

    closed spec fn view(&self) -> ArgsView {
        ArgsView {
            command: opt_view(self.command),
            pid: self.pid,
            presets: self.presets,
            module: self.module,
            output: self.output,
            save: opt_view(self.save),
            quiet: self.quiet,
            scripts_dir: opt_view(self.scripts_dir),
            follow_children: self.follow_children,
        }
    }
}

impl Args {
    #[verifier::type_invariant]
    spec fn one_target(self) -> bool {
        self.command.is_some() != self.pid.is_some()
    }

    /// Builds the arguments, refusing them unless exactly one of `command`
    /// (`--exec`) and `pid` (`--pid`) is given.
    pub fn new(
        command: Option<String>,
        pid: Option<u32>,
        presets: Option<Preset>,
        module: Option<Module>,
        output: Output,
        save: Option<String>,
        quiet: bool,
        scripts_dir: Option<String>,
        follow_children: bool,
    ) -> (r: Result<Args, ArgsError>)
        ensures
            command is None && pid is None ==> r == Err::<Args, ArgsError>(ArgsError::MissingTarget),
            command is Some && pid is Some ==> r == Err::<Args, ArgsError>(
                ArgsError::ConflictingTargets,
            ),
            r is Ok <==> (command is Some) != (pid is Some),
            r matches Ok(a) ==> a@ == (ArgsView {
                command: opt_view(command),
                pid,
                presets,
                module,
                output,
                save: opt_view(save),
                quiet,
                scripts_dir: opt_view(scripts_dir),
                follow_children,
            }),
    {
        if command.is_none() && pid.is_none() {
            return Err(ArgsError::MissingTarget);
        }
        if command.is_some() && pid.is_some() {
            return Err(ArgsError::ConflictingTargets);
        }
        Ok(Args { command, pid, presets, module, output, save, quiet, scripts_dir, follow_children })
    }

    pub fn scripts_dir(&self) -> (r: Option<String>)
        ensures
            opt_view(r) == self@.scripts_dir,
    {
        clone_opt(&self.scripts_dir)
    }

    pub fn presets(&self) -> (r: Option<Preset>)
        ensures
            r == self@.presets,
    {
        self.presets
    }

    pub fn module(&self) -> (r: Option<Module>)
        ensures
            r == self@.module,
    {
        self.module
    }

    pub fn output(&self) -> (r: Output)
        ensures
            r == self@.output,
    {
        self.output
    }

    pub fn save(&self) -> (r: Option<String>)
        ensures
            opt_view(r) == self@.save,
    {
        clone_opt(&self.save)
    }

    pub fn quiet(&self) -> (r: bool)
        ensures
            r == self@.quiet,
    {
        self.quiet
    }

    pub fn follow_children(&self) -> (r: bool)
        ensures
            r == self@.follow_children,
    {
        self.follow_children
    }

    /// The target to observe: the command line when one was given, else the pid.
    pub fn target(self) -> (t: Target)
        ensures
            t@ == self@.target(),
            self@.command is Some || self@.pid is Some,
    {
        proof {
            use_type_invariant(&self);
        }
        match self.command {
            Some(command) => Target::Exec(command),
            None => Target::Pid(self.pid.unwrap()),
        }
    }
}

/// Law: the target that the arguments were built with is the target they
/// give back: the command line when one was given, else the pid.
pub proof fn lemma_target_given_back(command: Option<String>, pid: Option<u32>, args: ArgsView)
    requires
        command is Some != pid is Some,
        args.command == opt_view(command),
        args.pid == pid,
    ensures
        args.target() == match command {
            Some(c) => TargetView::Exec(c@),
            None => TargetView::Pid(pid.unwrap()),
        },
{
}

} // verus!
