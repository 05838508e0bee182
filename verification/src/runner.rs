//! Launching the target: splitting the command line, the arguments of the
//! child-following helper, and the choice of a Python interpreter.
use vstd::prelude::*;
use crate::cli::{Target, TargetView};
use crate::text::{
    decimal, is_white_space, is_white_space_char, char_vec, push_decimal, split_whitespace,
    string_views, words, clone_strings,
};

verus! {

/// Why a target cannot be launched.
#[derive(Clone, Copy, Debug, PartialEq, Eq, Structural)]
pub enum RunnerError {
    /// The command given to `--exec` holds no program path.
    EmptyExecCommand,
}

/// Splits a command line at white space into the program and its arguments.
pub fn split_exec_command(command: &str) -> (r: Result<(String, Vec<String>), RunnerError>)
    ensures
        r is Err <==> words(command@).len() == 0,
        r matches Err(e) ==> e == RunnerError::EmptyExecCommand,
        r matches Ok((program, args)) ==> program@ == words(command@)[0] && string_views(args@)
            == words(command@).drop_first(),
{
    let mut parts = split_whitespace(command);
    if parts.len() == 0 {
        return Err(RunnerError::EmptyExecCommand);
    }
    let ghost all = string_views(parts@);
    let program = parts.remove(0);
    assert(string_views(parts@) =~= all.drop_first());
    Ok((program, parts))
}

/// The program to spawn and its full argument vector, the program first.
pub fn exec_argv(command: &str) -> (r: Result<(String, Vec<String>), RunnerError>)
    ensures
        r is Err <==> words(command@).len() == 0,
        r matches Ok((program, argv)) ==> program@ == words(command@)[0] && string_views(argv@)
            == words(command@),
{
    let (program, args) = split_exec_command(command)?;
    let mut argv: Vec<String> = Vec::new();
    argv.push(program.clone());
    let mut rest = args;
    let ghost tail = string_views(rest@);
    argv.append(&mut rest);
    assert(string_views(argv@) =~= seq![program@] + tail);
    assert(words(command@) =~= seq![words(command@)[0]] + words(command@).drop_first());
    Ok((program, argv))
}

/// A way to start a Python interpreter: the program and the arguments that
/// come before the script.
#[derive(Debug)]
pub struct PythonCandidate {
    pub program: String,
    pub prefix_args: Vec<String>,
}

impl PythonCandidate {
    pub fn new(program: String, prefix_args: Vec<String>) -> (r: Self)
        ensures
            r.program == program,
            r.prefix_args == prefix_args,
    {
        Self { program, prefix_args }
    }
}

/// Text made only of white space (what trimming leaves empty).
pub open spec fn blank(s: Seq<char>) -> bool {
    forall|i: int| 0 <= i < s.len() ==> is_white_space(#[trigger] s[i])
}

/// Whether a string is blank (`s.trim().is_empty()`).
pub fn is_blank(s: &str) -> (r: bool)
    ensures
        r == blank(s@),
{
    let cs = char_vec(s);
    let n = cs.len();
    let mut i: usize = 0;
    while i < n
        invariant
            cs@ == s@,
            n == cs.len(),
            i <= n,
            forall|k: int| 0 <= k < i ==> is_white_space(#[trigger] s@[k]),
        decreases n - i,
    {
        if !is_white_space_char(cs[i]) {
            return false;
        }
        i = i + 1;
    }
    true
}

/// The interpreters to try, in order: the configured one (`ARGUS_PYTHON`)
/// alone when it is set and not blank, else `python`, `python3`, `py -3`.
pub open spec fn candidates_view(configured: Option<Seq<char>>) -> Seq<(Seq<char>, Seq<Seq<char>>)> {
    match configured {
        Some(p) if !blank(p) => seq![(p, Seq::empty())],
        _ => seq![
            ("python"@, Seq::empty()),
            ("python3"@, Seq::empty()),
            ("py"@, seq!["-3"@]),
        ],
    }
}

pub open spec fn candidate_view(c: PythonCandidate) -> (Seq<char>, Seq<Seq<char>>) {
    (c.program@, string_views(c.prefix_args@))
}

/// The Python interpreters to try, given the configured one, if any.
pub fn python_candidates(configured: Option<String>) -> (r: Vec<PythonCandidate>)
    ensures
        r@.map_values(|c: PythonCandidate| candidate_view(c)) == candidates_view(
            crate::text::opt_view(configured),
        ),
{
    if let Some(program) = configured {
        if !is_blank(program.as_str()) {
            let ghost p = program@;
            let mut r: Vec<PythonCandidate> = Vec::new();
            let c = PythonCandidate::new(program, Vec::new());
            assert(string_views(c.prefix_args@) =~= Seq::<Seq<char>>::empty());
            r.push(c);
            assert(r@.map_values(|c: PythonCandidate| candidate_view(c)) =~= seq![
                (p, Seq::<Seq<char>>::empty()),
            ]);
            return r;
        }
    }
    let mut r: Vec<PythonCandidate> = Vec::new();
    let a = PythonCandidate::new("python".to_string(), Vec::new());
    let b = PythonCandidate::new("python3".to_string(), Vec::new());
    let mut py_args: Vec<String> = Vec::new();
    py_args.push("-3".to_string());
    let c = PythonCandidate::new("py".to_string(), py_args);
    assert(string_views(a.prefix_args@) =~= Seq::<Seq<char>>::empty());
    assert(string_views(b.prefix_args@) =~= Seq::<Seq<char>>::empty());
    assert(string_views(c.prefix_args@) =~= seq!["-3"@]);
    r.push(a);
    r.push(b);
    r.push(c);
    assert(r@.map_values(|c: PythonCandidate| candidate_view(c)) =~= seq![
        ("python"@, Seq::<Seq<char>>::empty()),
        ("python3"@, Seq::<Seq<char>>::empty()),
        ("py"@, seq!["-3"@]),
    ]);
    r
}

/// `--arg <a>` for each argument, in order.
pub open spec fn arg_flags(args: Seq<Seq<char>>) -> Seq<Seq<char>>
    decreases args.len(),
{
    if args.len() == 0 {
        Seq::empty()
    } else {
        arg_flags(args.drop_last()) + seq!["--arg"@, args.last()]
    }
}

/// The helper's arguments that name the target.
pub open spec fn target_flags(target: TargetView) -> Option<Seq<Seq<char>>> {
    match target {
        TargetView::Pid(pid) => Some(seq!["--pid"@, decimal(pid as nat)]),
        TargetView::Exec(command) => if words(command).len() == 0 {
            None
        } else {
            Some(seq!["--program"@, words(command)[0]] + arg_flags(words(command).drop_first()))
        },
    }
}

/// The helper's full argument list: the interpreter's own arguments, the
/// helper script, the script source file, then the target.
pub open spec fn helper_arguments_view(
    prefix_args: Seq<Seq<char>>,
    helper: Seq<char>,
    source: Seq<char>,
    target: TargetView,
) -> Option<Seq<Seq<char>>> {
    match target_flags(target) {
        Some(flags) => Some(prefix_args + seq![helper, "--script-source-file"@, source] + flags),
        None => None,
    }
}

/// Law: whatever the target, the helper's arguments start with the
/// interpreter's own arguments, then the helper script, the
/// `--script-source-file` flag and the source file.
pub proof fn lemma_helper_arguments_start(
    prefix_args: Seq<Seq<char>>,
    helper: Seq<char>,
    source: Seq<char>,
    target: TargetView,
)
    requires
        helper_arguments_view(prefix_args, helper, source, target) is Some,
    ensures
        helper_arguments_view(prefix_args, helper, source, target).unwrap().take(
            (prefix_args.len() + 3) as int,
        ) == prefix_args + seq![helper, "--script-source-file"@, source],
{
    let args = helper_arguments_view(prefix_args, helper, source, target).unwrap();
    assert(args.take((prefix_args.len() + 3) as int) =~= prefix_args + seq![
        helper,
        "--script-source-file"@,
        source,
    ]);
}

fn push_str(v: &mut Vec<String>, s: &str)
    ensures
        string_views(final(v)@) == string_views(old(v)@).push(s@),
{
    let ghost before = v@;
    v.push(s.to_string());
    assert(string_views(v@) =~= string_views(before).push(s@));
}

/// The arguments that start the child-following helper under `candidate`.
pub fn helper_arguments(
    candidate: &PythonCandidate,
    helper_path: &str,
    source_path: &str,
    target: &Target,
) -> (r: Result<Vec<String>, RunnerError>)
    ensures
        r is Err <==> helper_arguments_view(
            string_views(candidate.prefix_args@),
            helper_path@,
            source_path@,
            target@,
        ) is None,
        r matches Ok(args) ==> Some(string_views(args@)) == helper_arguments_view(
            string_views(candidate.prefix_args@),
            helper_path@,
            source_path@,
            target@,
        ),
{
    let mut args = clone_strings(&candidate.prefix_args);
    push_str(&mut args, helper_path);
    push_str(&mut args, "--script-source-file");
    push_str(&mut args, source_path);
    let ghost base = string_views(args@);
    assert(base =~= string_views(candidate.prefix_args@) + seq![
        helper_path@,
        "--script-source-file"@,
        source_path@,
    ]);
    match target {
        Target::Pid(pid) => {
            push_str(&mut args, "--pid");
            let mut digits = String::new();
            push_decimal(&mut digits, *pid as u128);
            assert(digits@ =~= decimal(*pid as nat));
            let ghost before = args@;
            args.push(digits);
            assert(string_views(args@) =~= string_views(before).push(decimal(*pid as nat)));
            assert(string_views(args@) =~= base + seq!["--pid"@, decimal(*pid as nat)]);
            Ok(args)
        },
        Target::Exec(command) => {
            let (program, rest) = split_exec_command(command.as_str())?;
            push_str(&mut args, "--program");
            push_str(&mut args, program.as_str());
            let ghost with_program = string_views(args@);
            let ghost ws = words(command@).drop_first();
            let n = rest.len();
            let mut i: usize = 0;
            while i < n
                invariant
                    n == rest.len(),
                    i <= n,
                    string_views(rest@) == ws,
                    string_views(args@) == with_program + arg_flags(ws.take(i as int)),
                decreases n - i,
            {
                push_str(&mut args, "--arg");
                push_str(&mut args, rest[i].as_str());
                assert(ws.take(i + 1).drop_last() =~= ws.take(i as int));
                assert(ws.take(i + 1).last() == rest@[i as int]@);
                assert(string_views(args@) =~= with_program + arg_flags(ws.take(i + 1)));
                i = i + 1;
            }
            assert(ws.take(n as int) =~= ws);
            assert(string_views(args@) =~= base + (seq!["--program"@, words(command@)[0]]
                + arg_flags(ws)));
            Ok(args)
        },
    }
}

/// How an attempt to start an interpreter went.
#[derive(Clone, Copy, Debug, PartialEq, Eq, Structural)]
pub enum SpawnOutcome {
    Started,
    NotFound,
    Failed,
}

/// Why no helper could be started.
#[derive(Debug)]
pub enum HelperLaunchError {
    /// Every interpreter tried was missing; the last one tried.
    InterpreterNotFound(String),
    /// There was no interpreter to try.
    NoInterpreter,
    /// An interpreter was found but could not be started.
    SpawnFailed(String),
}

/// What to do after an attempt to start an interpreter.
#[derive(Debug)]
pub enum SpawnDecision {
    /// Use the started helper.
    UseChild,
    /// Try the next interpreter.
    TryNext,
    /// Give up with this error.
    GiveUp(HelperLaunchError),
}

/// The search for an interpreter that starts: the last one found missing.
#[derive(Debug)]
pub struct CandidateSearch {
    pub last_not_found: Option<String>,
}

impl CandidateSearch {
    pub fn new() -> (r: Self)
        ensures
            r.last_not_found is None,
    {
        CandidateSearch { last_not_found: None }
    }

    /// Records how starting `program` went and says what to do next: use a
    /// started helper, go on past a missing interpreter, give up on any
    /// other failure.
    pub fn step(&mut self, program: &str, outcome: SpawnOutcome) -> (d: SpawnDecision)
        ensures
            outcome == SpawnOutcome::Started ==> d is UseChild && crate::text::opt_view(
                final(self).last_not_found,
            ) == crate::text::opt_view(old(self).last_not_found),
            outcome == SpawnOutcome::NotFound ==> d is TryNext && crate::text::opt_view(
                final(self).last_not_found,
            ) == Some(program@),
            outcome == SpawnOutcome::Failed ==> (d matches SpawnDecision::GiveUp(
                HelperLaunchError::SpawnFailed(p),
            ) && p@ == program@) && crate::text::opt_view(final(self).last_not_found)
                == crate::text::opt_view(old(self).last_not_found),
    {
        match outcome {
            SpawnOutcome::Started => SpawnDecision::UseChild,
            SpawnOutcome::NotFound => {
                self.last_not_found = Some(program.to_string());
                SpawnDecision::TryNext
            },
            SpawnOutcome::Failed => SpawnDecision::GiveUp(
                HelperLaunchError::SpawnFailed(program.to_string()),
            ),
        }
    }

    /// The error once every interpreter has been tried: the last missing
    /// one, or that there was none to try.
    pub fn exhausted(self) -> (e: HelperLaunchError)
        ensures
            match self.last_not_found {
                Some(p) => e matches HelperLaunchError::InterpreterNotFound(q) && q@ == p@,
                None => e is NoInterpreter,
            },
    {
        match self.last_not_found {
            Some(p) => HelperLaunchError::InterpreterNotFound(p),
            None => HelperLaunchError::NoInterpreter,
        }
    }
}

/// The name of a temporary file: `<prefix>-<unique>.<extension>`.
pub fn temp_file_name(prefix: &str, unique: u128, extension: &str) -> (r: String)
    ensures
        r@ == prefix@ + "-"@ + decimal(unique as nat) + "."@ + extension@,
{
    let mut r = String::new();
    r.append(prefix);
    r.append("-");
    push_decimal(&mut r, unique);
    r.append(".");
    r.append(extension);
    r
}

/// Whether the process `pid` is among the listed processes; the target is
/// waited on while it is.
pub fn process_listed(pids: &Vec<u32>, pid: u32) -> (r: bool)
    ensures
        r == pids@.contains(pid),
{
    let n = pids.len();
    let mut i: usize = 0;
    while i < n
        invariant
            n == pids.len(),
            i <= n,
            forall|k: int| 0 <= k < i ==> pids@[k] != pid,
        decreases n - i,
    {
        if pids[i] == pid {
            assert(pids@[i as int] == pid);
            return true;
        }
        i = i + 1;
    }
    false
}

} // verus!
