use argus::cli::{Args, ArgsError, Module, Output, Preset, Target};

fn build(command: Option<&str>, pid: Option<u32>) -> Result<Args, ArgsError> {
    Args::new(
        command.map(|c| c.to_string()),
        pid,
        Some(Preset::Vmware),
        Some(Module::Behavior),
        Output::Jsonl,
        Some("out.jsonl".to_string()),
        true,
        Some("./scripts".to_string()),
        false,
    )
}

#[test]
fn dir_names() {
    assert_eq!(Preset::Vmware.dir_name(), "vmware");
    assert_eq!(Module::Behavior.dir_name(), "behavior");
}

#[test]
fn exec_target_is_given_back() {
    let args = build(Some(".\\target.exe --flag value"), None).unwrap();
    match args.target() {
        Target::Exec(c) => assert_eq!(c, ".\\target.exe --flag value"),
        Target::Pid(_) => panic!("expected an exec target"),
    }
}

#[test]
fn pid_target_is_given_back() {
    let args = build(None, Some(1234)).unwrap();
    match args.target() {
        Target::Pid(p) => assert_eq!(p, 1234),
        Target::Exec(_) => panic!("expected a pid target"),
    }
}

#[test]
fn missing_target_is_refused() {
    assert!(matches!(build(None, None), Err(ArgsError::MissingTarget)));
}

#[test]
fn both_targets_are_refused() {
    assert!(matches!(build(Some("a.exe"), Some(1)), Err(ArgsError::ConflictingTargets)));
}

#[test]
fn getters_return_what_was_given() {
    let args = build(None, Some(7)).unwrap();
    assert_eq!(args.presets(), Some(Preset::Vmware));
    assert_eq!(args.module(), Some(Module::Behavior));
    assert_eq!(args.output(), Output::Jsonl);
    assert_eq!(args.save(), Some("out.jsonl".to_string()));
    assert!(args.quiet());
    assert_eq!(args.scripts_dir(), Some("./scripts".to_string()));
    assert!(!args.follow_children());
}
