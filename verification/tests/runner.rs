use argus::cli::Target;
use argus::runner::{
    exec_argv, helper_arguments, is_blank, process_listed, python_candidates, split_exec_command,
    temp_file_name, CandidateSearch, HelperLaunchError, PythonCandidate, RunnerError, SpawnDecision,
    SpawnOutcome,
};
use argus::text::{join, push_decimal, split_whitespace, trim};

fn strings(v: &[&str]) -> Vec<String> {
    v.iter().map(|s| s.to_string()).collect()
}

#[test]
fn exec_command_is_split_at_white_space() {
    let (program, args) = split_exec_command(".\\target.exe --flag value").unwrap();
    assert_eq!(program, ".\\target.exe");
    assert_eq!(args, strings(&["--flag", "value"]));
}

#[test]
fn empty_exec_command_is_refused() {
    assert_eq!(split_exec_command("  \t\n").unwrap_err(), RunnerError::EmptyExecCommand);
    assert_eq!(exec_argv("").unwrap_err(), RunnerError::EmptyExecCommand);
}

#[test]
fn split_matches_std() {
    for s in ["  a  b\tc\n", "x", "", " \u{3000}y\u{85}z ", "a\u{a0}b"] {
        let ours = split_whitespace(s);
        let std: Vec<String> = s.split_whitespace().map(str::to_string).collect();
        assert_eq!(ours, std);
    }
}

#[test]
fn split_then_join_round_trips() {
    let words = split_whitespace("one  two\tthree");
    let joined = join(&words, " ");
    assert_eq!(joined, "one two three");
    assert_eq!(split_whitespace(&joined), words);
}

#[test]
fn argv_starts_with_program() {
    let (program, argv) = exec_argv("prog a b").unwrap();
    assert_eq!(program, "prog");
    assert_eq!(argv, strings(&["prog", "a", "b"]));
}

#[test]
fn configured_python_wins_unless_blank() {
    let c = python_candidates(Some("C:\\py\\python.exe".to_string()));
    assert_eq!(c.len(), 1);
    assert_eq!(c[0].program, "C:\\py\\python.exe");
    assert!(c[0].prefix_args.is_empty());
    for configured in [None, Some("   ".to_string())] {
        let c = python_candidates(configured);
        let programs: Vec<&str> = c.iter().map(|c| c.program.as_str()).collect();
        assert_eq!(programs, vec!["python", "python3", "py"]);
        assert_eq!(c[2].prefix_args, strings(&["-3"]));
    }
    assert!(is_blank(" \t"));
    assert!(!is_blank(" x "));
}

#[test]
fn helper_arguments_for_pid() {
    let c = PythonCandidate::new("py".to_string(), strings(&["-3"]));
    let args = helper_arguments(&c, "/tmp/h.py", "/tmp/s.js", &Target::Pid(4321)).unwrap();
    assert_eq!(args, strings(&["-3", "/tmp/h.py", "--script-source-file", "/tmp/s.js", "--pid", "4321"]));
}

#[test]
fn helper_arguments_for_exec() {
    let c = PythonCandidate::new("python".to_string(), vec![]);
    let t = Target::Exec("app.exe -x  y".to_string());
    let args = helper_arguments(&c, "h.py", "s.js", &t).unwrap();
    assert_eq!(
        args,
        strings(&["h.py", "--script-source-file", "s.js", "--program", "app.exe", "--arg", "-x", "--arg", "y"])
    );
    let empty = Target::Exec(" ".to_string());
    assert_eq!(helper_arguments(&c, "h.py", "s.js", &empty).unwrap_err(), RunnerError::EmptyExecCommand);
}

#[test]
fn search_goes_past_missing_interpreters() {
    let mut s = CandidateSearch::new();
    assert!(matches!(s.step("python", SpawnOutcome::NotFound), SpawnDecision::TryNext));
    assert!(matches!(s.step("python3", SpawnOutcome::NotFound), SpawnDecision::TryNext));
    assert!(matches!(s.exhausted(), HelperLaunchError::InterpreterNotFound(p) if p == "python3"));
    let mut s = CandidateSearch::new();
    assert!(matches!(s.step("py", SpawnOutcome::Started), SpawnDecision::UseChild));
    assert!(matches!(
        s.step("py", SpawnOutcome::Failed),
        SpawnDecision::GiveUp(HelperLaunchError::SpawnFailed(p)) if p == "py"
    ));
    assert!(matches!(CandidateSearch::new().exhausted(), HelperLaunchError::NoInterpreter));
}

#[test]
fn temp_names_and_decimals() {
    assert_eq!(temp_file_name("argus-follow-children", 1700000000123456789, "py"), "argus-follow-children-1700000000123456789.py");
    let mut s = String::new();
    push_decimal(&mut s, 0);
    assert_eq!(s, "0");
    let mut s = String::new();
    push_decimal(&mut s, u128::MAX);
    assert_eq!(s, u128::MAX.to_string());
}

#[test]
fn waiting_follows_process_list() {
    assert!(process_listed(&vec![4, 1234, 9], 1234));
    assert!(!process_listed(&vec![4, 9], 1234));
    assert!(!process_listed(&vec![], 1));
}

#[test]
fn trim_matches_std() {
    for s in ["  a b \t", "x", "", " \u{3000} ", "\u{85}z\u{a0}", "\n\nline\r"] {
        assert_eq!(trim(s), s.trim());
    }
}
