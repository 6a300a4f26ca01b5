//! What a run of a child process reports: its exit status together with every
//! error of every stream, none of them dropped for another.
use vstd::prelude::*;
use crate::error::{BuildError, ErrorKind, ErrorView, Stage, Stream, errors_view};

verus! {

/// How a process exited: its exit code, where it had one.
#[derive(Clone, Copy, Debug, PartialEq, Eq, Hash)]
pub struct ExitStatus {
    pub code: Option<i32>,
}

impl ExitStatus {
    /// Whether the process exited with code zero.
    pub fn success(&self) -> (r: bool)
        ensures
            r == (self.code == Some(0i32)),
    {
        match self.code {
            Some(c) => c == 0,
            None => false,
        }
    }
}

/// The result of running a process: its exit status, where it was waited for,
/// and the errors of its streams, of spawning it and of waiting for it.
#[derive(Debug, PartialEq, Eq, Hash)]
pub struct RunReport {
    pub status: Option<ExitStatus>,
    pub errors: Vec<BuildError>,
}

/// The error views of what copying one stream reported.
pub open spec fn copy_errors(
    stream: Stream,
    copied: Result<u64, String>,
    flushed: Result<(), String>,
) -> Seq<ErrorView> {
    let c = match copied {
        Ok(_) => Seq::<ErrorView>::empty(),
        Err(m) => seq![
            ErrorView {
                kind: ErrorKind::StreamIoFailed { stream, message: m },
                context: seq!["copying bytes"@],
            },
        ],
    };
    let f = match flushed {
        Ok(_) => Seq::<ErrorView>::empty(),
        Err(m) => seq![
            ErrorView {
                kind: ErrorKind::StreamIoFailed { stream, message: m },
                context: seq!["flushing the writer"@],
            },
        ],
    };
    c + f
}

fn stream_error(stream: Stream, message: String, ctx: &str) -> (r: BuildError)
    ensures
        r@ == (ErrorView {
            kind: ErrorKind::StreamIoFailed { stream, message },
            context: seq![ctx@],
        }),
{
    let r = BuildError::new(ErrorKind::StreamIoFailed { stream, message }).context(ctx);
    assert(r@.context =~= seq![ctx@]);
    r
}

/// What copying one stream reports, given what the copy and the flush that
/// always follows it returned: the number of bytes copied when both
/// succeeded, otherwise the error of each that failed.
pub fn copy_outcome(stream: Stream, copied: Result<u64, String>, flushed: Result<(), String>) -> (r:
    Result<u64, Vec<BuildError>>)
    ensures
        r is Ok <==> copied is Ok && flushed is Ok,
        r matches Ok(n) ==> copied == Ok::<u64, String>(n),
        r matches Err(e) ==> errors_view(e@) == copy_errors(stream, copied, flushed),
{
    let ghost c0 = copied;
    let ghost f0 = flushed;
    let mut errors: Vec<BuildError> = Vec::new();
    let amount: u64 = match copied {
        Ok(n) => n,
        Err(m) => {
            errors.push(stream_error(stream, m, "copying bytes"));
            0
        },
    };
    match flushed {
        Ok(()) => {},
        Err(m) => {
            errors.push(stream_error(stream, m, "flushing the writer"));
        },
    }
    if errors.len() == 0 {
        Ok(amount)
    } else {
        assert(errors_view(errors@) =~= copy_errors(stream, c0, f0));
        Err(errors)
    }
}

/// The error views of one stream's outcome.
pub open spec fn outcome_errors(r: Result<u64, Vec<BuildError>>) -> Seq<ErrorView> {
    match r {
        Ok(_) => Seq::<ErrorView>::empty(),
        Err(e) => errors_view(e@),
    }
}

/// The report of a process that could not be started.
pub fn spawn_failed(message: String) -> (r: RunReport)
    ensures
        r.status is None,
        errors_view(r.errors@) == seq![
            ErrorView {
                kind: ErrorKind::ProcessSpawnFailed { message },
                context: Seq::<Seq<char>>::empty(),
            },
        ],
{
    let mut errors: Vec<BuildError> = Vec::new();
    errors.push(BuildError::new(ErrorKind::ProcessSpawnFailed { message }));
    assert(errors_view(errors@) =~= seq![
        ErrorView {
            kind: ErrorKind::ProcessSpawnFailed { message },
            context: Seq::<Seq<char>>::empty(),
        },
    ]);
    RunReport { status: None, errors }
}

/// The errors of a run: every error of the three streams, in the order stdin,
/// stdout, stderr, followed by the error of waiting, if any.
pub open spec fn run_errors(
    stdin: Result<u64, Vec<BuildError>>,
    stdout: Result<u64, Vec<BuildError>>,
    stderr: Result<u64, Vec<BuildError>>,
    waited: Result<ExitStatus, String>,
) -> Seq<ErrorView> {
    outcome_errors(stdin) + outcome_errors(stdout) + outcome_errors(stderr) + match waited {
        Ok(_) => Seq::<ErrorView>::empty(),
        Err(m) => seq![
            ErrorView {
                kind: ErrorKind::ProcessWaitFailed { message: m },
                context: Seq::<Seq<char>>::empty(),
            },
        ],
    }
}

/// A failed copy into the standard-output sink is reported whatever the
/// other streams did, and the exit status of the process is reported beside
/// it rather than dropped.
pub proof fn lemma_sink_failure_reported(
    stdin: Result<u64, Vec<BuildError>>,
    stdout: Result<u64, Vec<BuildError>>,
    stderr: Result<u64, Vec<BuildError>>,
    status: ExitStatus,
    message: String,
    flushed: Result<(), String>,
)
    requires
        stdout matches Err(e) && errors_view(e@) == copy_errors(
            Stream::Stdout,
            Err::<u64, String>(message),
            flushed,
        ),
    ensures
        run_errors(stdin, stdout, stderr, Ok::<ExitStatus, String>(status)).contains(
            ErrorView {
                kind: ErrorKind::StreamIoFailed { stream: Stream::Stdout, message },
                context: seq!["copying bytes"@],
            },
        ),
{
    let x = ErrorView {
        kind: ErrorKind::StreamIoFailed { stream: Stream::Stdout, message },
        context: seq!["copying bytes"@],
    };
    let all = run_errors(stdin, stdout, stderr, Ok::<ExitStatus, String>(status));
    let k = outcome_errors(stdin).len();
    assert(outcome_errors(stdout)[0] == x);
    assert(all[k as int] == x);
}

/// The report of a process that was started, once its three streams were
/// copied and it was waited for: the exit status, where waiting succeeded,
/// and every error of the three streams, in the order stdin, stdout, stderr,
/// followed by the error of waiting, if any.
pub fn finish_run(
    stdin: Result<u64, Vec<BuildError>>,
    stdout: Result<u64, Vec<BuildError>>,
    stderr: Result<u64, Vec<BuildError>>,
    waited: Result<ExitStatus, String>,
) -> (r: RunReport)
    ensures
        r.status == match waited {
            Ok(s) => Some(s),
            Err(_) => None::<ExitStatus>,
        },
        errors_view(r.errors@) == run_errors(stdin, stdout, stderr, waited),
{
    let ghost w0 = waited;
    let mut errors: Vec<BuildError> = Vec::new();
    let ghost e0 = outcome_errors(stdin);
    let ghost e1 = outcome_errors(stdout);
    let ghost e2 = outcome_errors(stderr);
    match stdin {
        Ok(_) => {},
        Err(mut e) => errors.append(&mut e),
    }
    assert(errors_view(errors@) =~= e0);
    match stdout {
        Ok(_) => {},
        Err(mut e) => errors.append(&mut e),
    }
    assert(errors_view(errors@) =~= e0 + e1);
    match stderr {
        Ok(_) => {},
        Err(mut e) => errors.append(&mut e),
    }
    assert(errors_view(errors@) =~= e0 + e1 + e2);
    let status = match waited {
        Ok(s) => Some(s),
        Err(m) => {
            errors.push(BuildError::new(ErrorKind::ProcessWaitFailed { message: m }));
            None
        },
    };
    assert(errors_view(errors@) =~= run_errors(stdin, stdout, stderr, w0));
    RunReport { status, errors }
}

/// The errors of a compiler run for `stage`: those of the run itself,
/// followed by a build failure where the compiler exited unsuccessfully or its
/// exit was never seen.
pub open spec fn build_errors(stage: Stage, report: RunReport) -> Seq<ErrorView> {
    errors_view(report.errors@) + match report.status {
        Some(s) => if s.code == Some(0i32) {
            Seq::<ErrorView>::empty()
        } else {
            seq![
                ErrorView {
                    kind: ErrorKind::ToolchainBuildFailed { stage, code: s.code },
                    context: Seq::<Seq<char>>::empty(),
                },
            ]
        },
        None => seq![
            ErrorView {
                kind: ErrorKind::ToolchainBuildFailed { stage, code: None },
                context: Seq::<Seq<char>>::empty(),
            },
        ],
    }
}

/// Decides whether a compiler run for `stage` built it: it did exactly when
/// the run reported no error and the compiler was seen to exit with code zero.
/// A run whose exit was never seen counts as a failed build.
pub fn check_build(stage: Stage, report: RunReport) -> (r: Result<(), Vec<BuildError>>)
    ensures
        r is Ok <==> build_errors(stage, report).len() == 0,
        r matches Err(e) ==> errors_view(e@) == build_errors(stage, report),
{
    let ghost rep = report;
    let mut errors = report.errors;
    match report.status {
        Some(s) => {
            if !s.success() {
                errors.push(BuildError::new(ErrorKind::ToolchainBuildFailed { stage, code: s.code }));
            }
        },
        None => {
            errors.push(BuildError::new(ErrorKind::ToolchainBuildFailed { stage, code: None }));
        },
    }
    assert(errors_view(errors@) =~= build_errors(stage, rep));
    if errors.len() == 0 {
        Ok(())
    } else {
        Err(errors)
    }
}

} // verus!
