use mrow_build::error::{BuildError, ErrorKind, Stage, Stream};
use mrow_build::process::{check_build, copy_outcome, finish_run, spawn_failed, ExitStatus, RunReport};

#[test]
fn sink_failure_and_exit_status_are_both_reported() {
    let stdin = copy_outcome(Stream::Stdin, Ok(0), Ok(()));
    let stdout = copy_outcome(Stream::Stdout, Err("sink full after 50 bytes".to_string()), Ok(()));
    let stderr = copy_outcome(Stream::Stderr, Ok(0), Ok(()));
    let report = finish_run(stdin, stdout, stderr, Ok(ExitStatus { code: Some(1) }));
    assert_eq!(report.status, Some(ExitStatus { code: Some(1) }));
    assert_eq!(report.errors.len(), 1);
    assert_eq!(
        report.errors[0].kind,
        ErrorKind::StreamIoFailed {
            stream: Stream::Stdout,
            message: "sink full after 50 bytes".to_string()
        }
    );
}

#[test]
fn copy_and_flush_errors_are_both_kept() {
    let r = copy_outcome(Stream::Stderr, Err("a".to_string()), Err("b".to_string()));
    let e = r.unwrap_err();
    assert_eq!(e.len(), 2);
    assert_eq!(e[0].context, vec!["copying bytes".to_string()]);
    assert_eq!(e[1].context, vec!["flushing the writer".to_string()]);
    assert_eq!(copy_outcome(Stream::Stdout, Ok(100), Ok(())), Ok(100));
}

#[test]
fn errors_of_all_streams_are_joined_in_order() {
    let report = finish_run(
        Err(vec![BuildError::new(ErrorKind::EmptyStage2)]),
        Ok(3),
        Err(vec![BuildError::new(ErrorKind::LayoutOverflow)]),
        Err("wait".to_string()),
    );
    assert_eq!(report.status, None);
    let kinds: Vec<ErrorKind> = report.errors.into_iter().map(|e| e.kind).collect();
    assert_eq!(
        kinds,
        vec![
            ErrorKind::EmptyStage2,
            ErrorKind::LayoutOverflow,
            ErrorKind::ProcessWaitFailed { message: "wait".to_string() }
        ]
    );
}

#[test]
fn spawn_failure_is_a_single_error() {
    let r = spawn_failed("no such file".to_string());
    assert_eq!(r.status, None);
    assert_eq!(r.errors.len(), 1);
}

#[test]
fn failed_compiler_is_a_build_failure() {
    let report = RunReport { status: Some(ExitStatus { code: Some(101) }), errors: vec![] };
    let e = check_build(Stage::Two, report).unwrap_err();
    assert_eq!(e.len(), 1);
    assert_eq!(e[0].kind, ErrorKind::ToolchainBuildFailed { stage: Stage::Two, code: Some(101) });
    let ok = RunReport { status: Some(ExitStatus { code: Some(0) }), errors: vec![] };
    assert_eq!(check_build(Stage::One, ok), Ok(()));
    assert!(!ExitStatus { code: None }.success());
}

#[test]
fn run_without_exit_status_is_a_failed_build() {
    let report = RunReport { status: None, errors: vec![] };
    let e = check_build(Stage::One, report).unwrap_err();
    assert_eq!(e.len(), 1);
    assert_eq!(e[0].kind, ErrorKind::ToolchainBuildFailed { stage: Stage::One, code: None });
}
