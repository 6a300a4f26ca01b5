//! Errors of a build, each with the chain of contexts it passed through.
use vstd::prelude::*;
use vstd::string::*;

verus! {

/// One of the two boot stages.
#[derive(Clone, Copy, Debug, PartialEq, Eq, Hash)]
pub enum Stage {
    One,
    Two,
}

/// One of the three streams of a child process.
#[derive(Clone, Copy, Debug, PartialEq, Eq, Hash)]
pub enum Stream {
    Stdin,
    Stdout,
    Stderr,
}

/// What went wrong.
#[derive(Debug, PartialEq, Eq, Hash)]
pub enum ErrorKind {
    /// The process could not be started.
    ProcessSpawnFailed { message: String },
    /// Copying or flushing one of the process's streams failed.
    StreamIoFailed { stream: Stream, message: String },
    /// Waiting for the process to exit failed.
    ProcessWaitFailed { message: String },
    /// The compiler ran and exited unsuccessfully; `code` is its exit code, if
    /// it had one.
    ToolchainBuildFailed { stage: Stage, code: Option<i32> },
    /// Reading or writing a file failed.
    FileIoFailed { message: String },
    /// The workspace has no package of this name.
    MissingPackage { name: String },
    /// The object file is malformed.
    CorruptObjectFile,
    /// A section is compressed with a codec this builder does not know.
    UnsupportedCompression { format: u32, section_name: String },
    /// A compressed section did not decompress to its declared size.
    DecompressionFailed { section_name: String },
    /// A loadable section ends past the start of the next one.
    OverlappingSections,
    /// A section's end address does not fit in 64 bits.
    LayoutOverflow,
    /// The first stage is not exactly one 512-byte sector.
    InvalidMasterBootRecord,
    /// The second stage is empty.
    EmptyStage2,
    /// The second stage is not a whole number of sectors.
    UnalignedStage2Size,
    /// The second stage has more sectors than a partition entry can count.
    Stage2TooLarge,
}

/// An error, with the contexts it was reported through, innermost first.
#[derive(Debug, PartialEq, Eq, Hash)]
pub struct BuildError {
    pub kind: ErrorKind,
    pub context: Vec<String>,
}

/// What an error says: its kind and its contexts, innermost first.
pub ghost struct ErrorView {
    pub kind: ErrorKind,
    pub context: Seq<Seq<char>>,
}

impl View for BuildError {
    type V = ErrorView;

    open spec fn view(&self) -> ErrorView {
        ErrorView { kind: self.kind, context: self.context@.map_values(|s: String| s@) }
    }
}

/// The views of a list of errors.
pub open spec fn errors_view(errors: Seq<BuildError>) -> Seq<ErrorView> {
    errors.map_values(|e: BuildError| e@)
}

/// `errors`, each with `ctx` added as its outermost context.
pub open spec fn with_context(errors: Seq<ErrorView>, ctx: Seq<char>) -> Seq<ErrorView> {
    errors.map_values(|e: ErrorView| ErrorView { kind: e.kind, context: e.context.push(ctx) })
}

impl BuildError {
    /// An error of the given kind, with no context yet.
    pub fn new(kind: ErrorKind) -> (r: BuildError)
        ensures
            r@.kind == kind,
            r@.context == Seq::<Seq<char>>::empty(),
    {
        let r = BuildError { kind, context: Vec::new() };
        assert(r@.context =~= Seq::<Seq<char>>::empty());
        r
    }

    /// The same error, with `ctx` added as its outermost context.
    pub fn context(self, ctx: &str) -> (r: BuildError)
        ensures
            r@ == (ErrorView { kind: self@.kind, context: self@.context.push(ctx@) }),
    {
        let mut context = self.context;
        context.push(String::from_str(ctx));
        let r = BuildError { kind: self.kind, context };
        assert(r@.context =~= self@.context.push(ctx@));
        r
    }
}

/// Adds `ctx` as the outermost context of every error in `errors`.
pub fn add_context(errors: &mut Vec<BuildError>, ctx: &str)
    ensures
        errors_view(final(errors)@) == with_context(errors_view(old(errors)@), ctx@),
{
    let mut done: Vec<BuildError> = Vec::new();
    let ghost all = old(errors)@;
    while errors.len() > 0
        invariant
            done@.len() + errors@.len() == all.len(),
            errors@ == all.subrange(done@.len() as int, all.len() as int),
            errors_view(done@) == with_context(errors_view(all.subrange(0, done@.len() as int)), ctx@),
        decreases errors@.len(),
    {
        let ghost k = done@.len() as int;
        let ghost prev = done@;
        assert(errors@[0] == all[k]);
        let e = errors.remove(0);
        done.push(e.context(ctx));
        proof {
            let lhs = errors_view(done@);
            let rhs = with_context(errors_view(all.subrange(0, done@.len() as int)), ctx@);
            assert(lhs.len() == rhs.len());
            assert forall|j: int| 0 <= j < lhs.len() implies lhs[j] == rhs[j] by {
                if j < k {
                    assert(done@[j] == prev[j]);
                    assert(errors_view(prev)[j] == with_context(
                        errors_view(all.subrange(0, k)),
                        ctx@,
                    )[j]);
                }
            }
            assert(errors_view(done@) =~= with_context(
                errors_view(all.subrange(0, done@.len() as int)),
                ctx@,
            ));
            assert(errors@ =~= all.subrange(done@.len() as int, all.len() as int));
        }
    }
    assert(all.subrange(0, all.len() as int) =~= all);
    *errors = done;
}

/// `errors`, each with `ctx` added as its outermost context.
pub fn apply_context(errors: Vec<BuildError>, ctx: &str) -> (r: Vec<BuildError>)
    ensures
        errors_view(r@) == with_context(errors_view(errors@), ctx@),
{
    let mut errors = errors;
    add_context(&mut errors, ctx);
    errors
}

} // verus!
