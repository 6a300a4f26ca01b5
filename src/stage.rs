//! From a stage's object file to the bytes of the stage.
use vstd::prelude::*;
use crate::elf::{name_matches, parse_sections, section_matches, sh_num_of, table_ok};
use crate::error::{BuildError, ErrorKind, ErrorView, errors_view};
use crate::extract::{
    ExtractError, Section, extract, extract_error, extract_succeeds, extracted,
};

verus! {

/// The pad byte between the sections of a stage.
pub const PAD_BYTE: u8 = 0;

/// The error kind an extraction error is reported as.
pub open spec fn extract_error_kind(e: ExtractError) -> ErrorKind {
    match e {
        ExtractError::CorruptObjectFile => ErrorKind::CorruptObjectFile,
        ExtractError::UnsupportedCompression { format, section_name } => ErrorKind::UnsupportedCompression {
            format,
            section_name,
        },
        ExtractError::DecompressionFailed { section_name } => ErrorKind::DecompressionFailed {
            section_name,
        },
        ExtractError::OverlappingSections => ErrorKind::OverlappingSections,
        ExtractError::LayoutOverflow => ErrorKind::LayoutOverflow,
    }
}

impl ExtractError {
    /// This error as a build error.
    pub fn kind(self) -> (r: ErrorKind)
        ensures
            r == extract_error_kind(self),
    {
        match self {
            ExtractError::CorruptObjectFile => ErrorKind::CorruptObjectFile,
            ExtractError::UnsupportedCompression { format, section_name } => ErrorKind::UnsupportedCompression {
                format,
                section_name,
            },
            ExtractError::DecompressionFailed { section_name } => ErrorKind::DecompressionFailed {
                section_name,
            },
            ExtractError::OverlappingSections => ErrorKind::OverlappingSections,
            ExtractError::LayoutOverflow => ErrorKind::LayoutOverflow,
        }
    }
}

/// Whether `sections` are what the section table of `f` describes.
pub open spec fn parsed_from(f: Seq<u8>, sections: Seq<Section>) -> bool {
    &&& sections.len() == sh_num_of(f)
    &&& forall|j: int|
        0 <= j < sections.len() ==> section_matches(f, j, #[trigger] sections[j]) && name_matches(
            f,
            j,
            sections[j].name,
        )
}

fn single_error(kind: ErrorKind) -> (r: Vec<BuildError>)
    ensures
        r@.len() == 1,
        errors_view(r@) == seq![ErrorView { kind, context: Seq::<Seq<char>>::empty() }],
{
    let mut errors: Vec<BuildError> = Vec::new();
    errors.push(BuildError::new(kind));
    assert(errors_view(errors@) =~= seq![ErrorView { kind, context: Seq::<Seq<char>>::empty() }]);
    errors
}

/// The bytes of a stage whose object file is `object`: its loadable sections,
/// flattened with zero padding. Fails with the one error that stopped it.
pub fn stage_bytes(object: &[u8]) -> (r: Result<Vec<u8>, Vec<BuildError>>)
    ensures
        !table_ok(object@) ==> (r matches Err(e) && errors_view(e@) == seq![
            ErrorView { kind: ErrorKind::CorruptObjectFile, context: Seq::<Seq<char>>::empty() },
        ]),
        r matches Ok(v) ==> table_ok(object@) && exists|sections: Seq<Section>|
            parsed_from(object@, sections) && extracted(sections, 0, v@),
        r matches Err(e) ==> (table_ok(object@) ==> e@.len() == 1 && exists|
            sections: Seq<Section>,
            x: ExtractError,
        |
            parsed_from(object@, sections) && extract_error(sections, x) && #[trigger] e@[0]@
                == (ErrorView { kind: extract_error_kind(x), context: Seq::<Seq<char>>::empty() })),
        (table_ok(object@) && forall|sections: Seq<Section>|
            #[trigger] parsed_from(object@, sections) ==> extract_succeeds(sections)) ==> r is Ok,
{
    let sections = match parse_sections(object) {
        Ok(s) => s,
        Err(e) => return Err(single_error(e.kind())),
    };
    assert(parsed_from(object@, sections@));
    let mut out: Vec<u8> = Vec::new();
    match extract(&sections, PAD_BYTE, &mut out) {
        Ok(_) => {
            assert(parsed_from(object@, sections@));
            assert(out@.subrange(0, out@.len() as int) =~= out@);
            Ok(out)
        },
        Err(e) => {
            let ghost x = e;
            let errors = single_error(e.kind());
            assert(errors@[0]@ == errors_view(errors@)[0]);
            Err(errors)
        },
    }
}

} // verus!
