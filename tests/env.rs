use py_env::{install_requests, run_outcome, Error, ErrorKind, PyEnv, RunReport};

fn quiet(path: &str) -> PyEnv<fn(&str), fn(&str)> {
    fn sink(_: &str) {}
    PyEnv::new(path.to_string(), sink as fn(&str), sink as fn(&str))
}

fn strings(v: &[&str]) -> Vec<String> {
    v.iter().map(|s| s.to_string()).collect()
}

#[test]
fn test_install() {
    let env = quiet("./py_test/install");
    let inv = env.install_invocation("faker");
    assert_eq!(inv.program, "python");
    assert_eq!(
        inv.args,
        strings(&["-m", "pip", "install", "faker", "--target", "./py_test/install/site-packages"])
    );
    assert!(inv.env.is_empty());
}

#[test]
fn test_run() {
    let env = quiet("./py_test/run");
    let inv = env.execute_invocation("print('hello world')");
    assert_eq!(inv.program, "python");
    assert_eq!(inv.args, strings(&["-c", "print('hello world')"]));
    assert_eq!(
        inv.env,
        vec![("PYTHONPATH".to_string(), "./py_test/run/site-packages".to_string())]
    );
}

#[test]
fn test_install_run() {
    let env = quiet("./py_test/install_run");
    let install = env.install_invocation("faker");
    let run = env.execute_invocation("import faker; print(faker.Faker().name())");
    assert_eq!(install.args[5], run.env[0].1);
    assert_eq!(run.args[1], "import faker; print(faker.Faker().name())");
}

#[test]
fn test_impersistence() {
    let mut env = quiet("./py_test/impersistence");
    assert!(env.is_persistent());
    assert_eq!(env.dispose_target(), None);
    assert!(!env.persistent(false).is_persistent());
    assert_eq!(env.dispose_target(), Some("./py_test/impersistence".to_string()));
    env.persistent(true);
    assert_eq!(env.dispose_target(), None);
}

#[test]
fn test_unwrapped_funcs() {
    let env = quiet("./py_test/unwrapped_funcs");
    let install = env.install_invocation("faker");
    assert_eq!(install.args[3], "faker");
    let run = env.execute_invocation("import faker; print(faker.Faker().name())");
    assert_eq!(run.env[0].1, "./py_test/unwrapped_funcs/site-packages");
}

#[test]
fn test_fail_unwrapped_funcs() {
    let env = quiet("./py_test/unwrapped_funcs");
    let install = env.install_invocation(". .'] / .");
    assert_eq!(install.args[3], ". .'] / .");
    let run = env.execute_invocation("qb  fesaf af vv");
    assert_eq!(run.args[1], "qb  fesaf af vv");
    // A tool that ran and failed is a result, not an error.
    assert!(matches!(run_outcome(RunReport::Exited(Some(1))), Ok(false)));
}

#[test]
fn site_packages_joins_with_one_separator() {
    assert_eq!(quiet("root").site_packages(), "root/site-packages");
    assert_eq!(quiet("root/").site_packages(), "root/site-packages");
    assert_eq!(quiet("").site_packages(), "site-packages");
}

#[test]
fn new_keeps_path_and_sinks() {
    fn out(_: &str) {}
    fn err(_: &str) {}
    let env = PyEnv::new("dir".to_string(), out as fn(&str), err as fn(&str));
    assert_eq!(env.path(), "dir");
    assert!(*env.std_out() == out as fn(&str));
    assert!(*env.std_err() == err as fn(&str));
}

#[test]
fn outcomes_of_a_run() {
    assert!(matches!(run_outcome(RunReport::Exited(Some(0))), Ok(true)));
    assert!(matches!(run_outcome(RunReport::Exited(Some(2))), Ok(false)));
    assert!(matches!(run_outcome(RunReport::Exited(None)), Ok(false)));
    match run_outcome(RunReport::SpawnFailed("no python".to_string())) {
        Err(Error { kind: ErrorKind::Spawn, message }) => assert_eq!(message, "no python"),
        _ => panic!("expected a spawn error"),
    }
    match run_outcome(RunReport::WaitFailed("lost".to_string())) {
        Err(e) => {
            assert_eq!(e.kind, ErrorKind::Wait);
            assert_eq!(e.to_string(), "lost");
        }
        _ => panic!("expected a wait error"),
    }
}

#[test]
fn error_new_keeps_kind_and_message() {
    let e = Error::new(ErrorKind::Path, "Invalid path".to_string());
    assert_eq!(e.kind, ErrorKind::Path);
    assert_eq!(e.to_string(), "Invalid path");
}

#[test]
fn reply_to_prompt_lists_packages() {
    assert_eq!(install_requests("faker numpy\n"), strings(&["faker", "numpy"]));
    assert!(install_requests("  \n").is_empty());
}
