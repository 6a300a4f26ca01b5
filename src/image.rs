//! Assembling the boot image: the first stage's Master Boot Record, patched to
//! describe where the second stage lies, followed by the second stage.
use vstd::prelude::*;
use crate::error::{BuildError, ErrorKind, ErrorView, Stage, apply_context, errors_view, with_context};
use crate::process::{RunReport, build_errors};
use crate::layout::{le32, le32_bytes, splice};
use crate::mbr::{MasterBootRecord, MbrError, TableEntry, flag_bootable, BOOTABLE_FLAG};

verus! {

/// Size of a disk sector, in bytes.
pub const SECTOR_SIZE: usize = 512;
/// The block the second stage starts at: right after the Master Boot Record.
pub const STAGE_2_LBA: u32 = 1;
/// The largest sector count a partition entry can hold.
pub const MAX_SECTORS: usize = 0xFFFF_FFFF;

/// Why two stages could not be assembled into an image.
#[derive(Clone, Copy, Debug, PartialEq, Eq, Hash)]
pub enum ImageError {
    /// The first stage is not exactly one 512-byte sector.
    InvalidMasterBootRecord,
    /// The second stage is empty.
    EmptyStage2,
    /// The second stage is not a whole number of sectors.
    UnalignedStage2Size,
    /// The second stage has more sectors than fit in 32 bits.
    Stage2TooLarge,
}

/// The error, if any, for a first stage of `len_1` bytes and a second stage of
/// `len_2` bytes; the checks are made in this order.
pub open spec fn image_error(len_1: nat, len_2: nat) -> Option<ImageError> {
    if len_1 != 512 {
        Some(ImageError::InvalidMasterBootRecord)
    } else if len_2 == 0 {
        Some(ImageError::EmptyStage2)
    } else if len_2 % 512 != 0 {
        Some(ImageError::UnalignedStage2Size)
    } else if len_2 / 512 > 0xFFFF_FFFF {
        Some(ImageError::Stage2TooLarge)
    } else {
        None
    }
}

/// The record `mbr` with its first partition entry marked bootable, starting at
/// block 1 and `sectors` sectors long; every other byte is kept.
pub open spec fn patched(mbr: Seq<u8>, sectors: u32) -> Seq<u8> {
    let flagged = mbr.update(446, mbr[446] | 0x80);
    splice(splice(flagged, 454, le32_bytes(1)), 458, le32_bytes(sectors))
}

/// The whole image for two stages that pass the checks.
pub open spec fn image(stage_1: Seq<u8>, stage_2: Seq<u8>) -> Seq<u8> {
    patched(stage_1, (stage_2.len() / 512) as u32) + stage_2
}

/// Marks the first partition entry of `mbr` bootable and points it at the
/// `sectors` sectors that follow the record.
pub fn patch_mbr(mbr: &mut MasterBootRecord, sectors: u32)
    requires
        old(mbr).wf(),
    ensures
        final(mbr).wf(),
        final(mbr)@ == patched(old(mbr)@, sectors),
{
    let mut entry: TableEntry = mbr.entry(0);
    let flags = entry.flags();
    entry.set_flags(flags | BOOTABLE_FLAG);
    entry.set_start_lba(STAGE_2_LBA);
    entry.set_sector_len(sectors);
    let ghost before = old(mbr)@;
    mbr.set_entry(0, &entry);
    assert(mbr@ =~= patched(before, sectors));
}

/// Facts about a patched record that readers of its first entry rely on.
pub proof fn lemma_patched_entry(mbr: Seq<u8>, sectors: u32)
    requires
        mbr.len() == 512,
    ensures
        patched(mbr, sectors).len() == 512,
        flag_bootable(patched(mbr, sectors)[446]),
        le32(patched(mbr, sectors), 454) == 1,
        le32(patched(mbr, sectors), 458) == sectors,
{
    let p = patched(mbr, sectors);
    let f = mbr[446];
    assert(p[446] == f | 0x80);
    assert((f | 0x80u8) & 0x80u8 != 0) by (bit_vector);
    crate::layout::lemma_le32_bytes(1);
    crate::layout::lemma_le32_bytes(sectors);
    assert(p.subrange(454, 458) =~= le32_bytes(1));
    assert(p.subrange(458, 462) =~= le32_bytes(sectors));
    assert(le32(p, 454) == le32(p.subrange(454, 458), 0));
    assert(le32(p, 458) == le32(p.subrange(458, 462), 0));
}

/// Patching overwrites: patching twice leaves the record as the second patch
/// alone would, and patches for different sector counts record different
/// counts.
pub proof fn lemma_patch_overwrites(mbr: Seq<u8>, first: u32, second: u32)
    requires
        mbr.len() == 512,
    ensures
        patched(patched(mbr, first), second) == patched(mbr, second),
        first != second ==> le32(patched(mbr, first), 458) != le32(patched(mbr, second), 458),
{
    let f = mbr[446];
    assert((f | 0x80u8) | 0x80u8 == f | 0x80u8) by (bit_vector);
    assert(patched(patched(mbr, first), second) =~= patched(mbr, second));
    lemma_patched_entry(mbr, first);
    lemma_patched_entry(mbr, second);
}

/// Checks the two stages and turns `stage_1` into the boot image: its Master
/// Boot Record patched for the second stage, followed by the second stage.
/// On failure `stage_1` is left as it was.
pub fn assemble_image(stage_1: &mut Vec<u8>, stage_2: &[u8]) -> (r: Result<(), ImageError>)
    ensures
        r is Err <==> image_error(old(stage_1)@.len(), stage_2@.len()) is Some,
        r matches Err(e) ==> Some(e) == image_error(old(stage_1)@.len(), stage_2@.len())
            && final(stage_1)@ == old(stage_1)@,
        r is Ok ==> final(stage_1)@ == image(old(stage_1)@, stage_2@),
        r is Ok ==> flag_bootable(final(stage_1)@[446]) && le32(final(stage_1)@, 454) == 1
            && le32(final(stage_1)@, 458) == stage_2@.len() / 512,
{
    let mut mbr = match MasterBootRecord::from_bytes(stage_1.as_slice()) {
        Ok(mbr) => mbr,
        Err(MbrError::SizeMismatch) => return Err(ImageError::InvalidMasterBootRecord),
    };
    let len: usize = stage_2.len();
    if len == 0 {
        return Err(ImageError::EmptyStage2);
    }
    if len % SECTOR_SIZE != 0 {
        return Err(ImageError::UnalignedStage2Size);
    }
    let sectors: usize = len / SECTOR_SIZE;
    if sectors > MAX_SECTORS {
        return Err(ImageError::Stage2TooLarge);
    }
    let ghost before = mbr@;
    patch_mbr(&mut mbr, sectors as u32);
    proof {
        lemma_patched_entry(before, sectors as u32);
    }
    let mut bytes = mbr.into_bytes();
    bytes.extend_from_slice(stage_2);
    *stage_1 = bytes;
    proof {
        assert(stage_1@.subrange(0, 512) =~= patched(before, sectors as u32));
        assert(le32(stage_1@, 454) == le32(patched(before, sectors as u32), 454));
        assert(le32(stage_1@, 458) == le32(patched(before, sectors as u32), 458));
    }
    Ok(())
}

/// The error kind that an image error is reported as.
pub open spec fn image_error_kind(e: ImageError) -> ErrorKind {
    match e {
        ImageError::InvalidMasterBootRecord => ErrorKind::InvalidMasterBootRecord,
        ImageError::EmptyStage2 => ErrorKind::EmptyStage2,
        ImageError::UnalignedStage2Size => ErrorKind::UnalignedStage2Size,
        ImageError::Stage2TooLarge => ErrorKind::Stage2TooLarge,
    }
}

impl ImageError {
    /// This error as a build error.
    pub fn kind(self) -> (r: ErrorKind)
        ensures
            r == image_error_kind(self),
    {
        match self {
            ImageError::InvalidMasterBootRecord => ErrorKind::InvalidMasterBootRecord,
            ImageError::EmptyStage2 => ErrorKind::EmptyStage2,
            ImageError::UnalignedStage2Size => ErrorKind::UnalignedStage2Size,
            ImageError::Stage2TooLarge => ErrorKind::Stage2TooLarge,
        }
    }
}

/// What building both stages reports: both stages' bytes when both were built,
/// otherwise the errors of every stage that failed, each tagged with its stage.
pub open spec fn joined_errors(
    stage_1: Result<Vec<u8>, Vec<BuildError>>,
    stage_2: Result<Vec<u8>, Vec<BuildError>>,
) -> Seq<ErrorView> {
    let one = match stage_1 {
        Ok(_) => Seq::<ErrorView>::empty(),
        Err(e) => with_context(errors_view(e@), "building stage 1"@),
    };
    let two = match stage_2 {
        Ok(_) => Seq::<ErrorView>::empty(),
        Err(e) => with_context(errors_view(e@), "building stage 2"@),
    };
    one + two
}

/// Joins the results of the two stage builds. When either failed, every error
/// of every failed stage is reported, tagged with its stage, and no bytes are.
pub fn join_stages(
    stage_1: Result<Vec<u8>, Vec<BuildError>>,
    stage_2: Result<Vec<u8>, Vec<BuildError>>,
) -> (r: Result<(Vec<u8>, Vec<u8>), Vec<BuildError>>)
    ensures
        r is Ok <==> stage_1 is Ok && stage_2 is Ok,
        r matches Ok((a, b)) ==> stage_1 == Ok::<Vec<u8>, Vec<BuildError>>(a) && stage_2 == Ok::<
            Vec<u8>,
            Vec<BuildError>,
        >(b),
        r matches Err(e) ==> errors_view(e@) == joined_errors(stage_1, stage_2),
{
    let ghost s1 = stage_1;
    let ghost s2 = stage_2;
    match (stage_1, stage_2) {
        (Ok(a), Ok(b)) => Ok((a, b)),
        (Ok(_), Err(e2)) => {
            let r = apply_context(e2, "building stage 2");
            assert(joined_errors(s1, s2) =~= Seq::<ErrorView>::empty() + errors_view(r@));
            Err(r)
        },
        (Err(e1), Ok(_)) => {
            let r = apply_context(e1, "building stage 1");
            assert(joined_errors(s1, s2) =~= errors_view(r@) + Seq::<ErrorView>::empty());
            Err(r)
        },
        (Err(e1), Err(e2)) => {
            let mut r1 = apply_context(e1, "building stage 1");
            let mut r2 = apply_context(e2, "building stage 2");
            let ghost v1 = r1@;
            let ghost v2 = r2@;
            r1.append(&mut r2);
            assert(errors_view(r1@) =~= errors_view(v1) + errors_view(v2));
            Err(r1)
        },
    }
}

/// Builds the boot image from the results of the two stage builds: the
/// stages' errors when either failed, otherwise the assembled image or the one
/// error that stopped its assembly.
pub fn build_image(
    stage_1: Result<Vec<u8>, Vec<BuildError>>,
    stage_2: Result<Vec<u8>, Vec<BuildError>>,
) -> (r: Result<Vec<u8>, Vec<BuildError>>)
    ensures
        (stage_1 is Err || stage_2 is Err) ==> (r matches Err(e) && errors_view(e@)
            == joined_errors(stage_1, stage_2)),
        stage_1 matches Ok(a) ==> (stage_2 matches Ok(b) ==> match image_error(
            a@.len(),
            b@.len(),
        ) {
            Some(ie) => (r matches Err(e) && e@.len() == 1 && e@[0]@ == (ErrorView {
                kind: image_error_kind(ie),
                context: Seq::<Seq<char>>::empty(),
            })),
            None => (r matches Ok(img) && img@ == image(a@, b@)),
        }),
{
    let (mut a, b) = match join_stages(stage_1, stage_2) {
        Ok(pair) => pair,
        Err(e) => return Err(e),
    };
    match assemble_image(&mut a, b.as_slice()) {
        Ok(()) => Ok(a),
        Err(ie) => {
            let mut errors: Vec<BuildError> = Vec::new();
            errors.push(BuildError::new(ie.kind()));
            Err(errors)
        },
    }
}

/// When the first stage's compiler ran without stream errors but exited
/// unsuccessfully, and the second stage was built, building the image reports
/// exactly one error: the first stage's build failure with its exit code,
/// tagged with the first stage. No image comes with it.
pub proof fn lemma_stage_1_failure_alone(
    report: RunReport,
    stage_1: Result<Vec<u8>, Vec<BuildError>>,
    stage_2: Result<Vec<u8>, Vec<BuildError>>,
)
    requires
        report.errors@.len() == 0,
        report.status matches Some(s) && s.code != Some(0i32),
        stage_1 matches Err(e) && errors_view(e@) == build_errors(Stage::One, report),
        stage_2 is Ok,
    ensures
        joined_errors(stage_1, stage_2) == seq![
            ErrorView {
                kind: ErrorKind::ToolchainBuildFailed {
                    stage: Stage::One,
                    code: report.status->Some_0.code,
                },
                context: seq!["building stage 1"@],
            },
        ],
{
    let e = stage_1->Err_0;
    assert(errors_view(report.errors@) =~= Seq::<ErrorView>::empty());
    let one = with_context(errors_view(e@), "building stage 1"@);
    assert(one.len() == 1);
    assert(one[0].context =~= seq!["building stage 1"@]);
    assert(joined_errors(stage_1, stage_2) =~= seq![
        ErrorView {
            kind: ErrorKind::ToolchainBuildFailed { stage: Stage::One, code: report.status->Some_0.code },
            context: seq!["building stage 1"@],
        },
    ]);
}

} // verus!
