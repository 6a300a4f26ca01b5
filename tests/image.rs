use mrow_build::error::{BuildError, ErrorKind};
use mrow_build::image::{assemble_image, build_image, join_stages, patch_mbr, ImageError};
use mrow_build::mbr::MasterBootRecord;

fn stage_1() -> Vec<u8> {
    let mut v: Vec<u8> = (0..512u32).map(|i| (i % 251) as u8).collect();
    v[446] = 0x01;
    v
}

fn read_u32(b: &[u8], off: usize) -> u32 {
    u32::from_le_bytes([b[off], b[off + 1], b[off + 2], b[off + 3]])
}

#[test]
fn stage_2_of_two_sectors_is_patched_in() {
    let mut s1 = stage_1();
    let s2 = vec![0xabu8; 1024];
    assert_eq!(assemble_image(&mut s1, &s2), Ok(()));
    assert_eq!(s1.len(), 512 + 1024);
    assert_eq!(s1[446], 0x81);
    assert_eq!(read_u32(&s1, 454), 1);
    assert_eq!(read_u32(&s1, 458), 2);
    assert_eq!(&s1[512..], &s2[..]);
    let orig = stage_1();
    for i in 0..512 {
        if i != 446 && !(454..462).contains(&i) {
            assert_eq!(s1[i], orig[i], "byte {i}");
        }
    }
    let mbr = MasterBootRecord::from_bytes(&s1[..512]).unwrap();
    let entry = mbr.entry(0);
    assert!(entry.is_bootable());
    assert_eq!(entry.start_lba(), 1);
    assert_eq!(entry.sector_len(), 2);
}

#[test]
fn unaligned_stage_2_is_refused() {
    let mut s1 = stage_1();
    let s2 = vec![0u8; 513];
    assert_eq!(assemble_image(&mut s1, &s2), Err(ImageError::UnalignedStage2Size));
    assert_eq!(s1, stage_1());
}

#[test]
fn empty_stage_2_leaves_stage_1_unpatched() {
    let mut s1 = stage_1();
    assert_eq!(assemble_image(&mut s1, &[]), Err(ImageError::EmptyStage2));
    assert_eq!(s1, stage_1());
}

#[test]
fn stage_1_must_be_one_sector() {
    let mut s1 = vec![0u8; 511];
    assert_eq!(
        assemble_image(&mut s1, &[0u8; 512]),
        Err(ImageError::InvalidMasterBootRecord)
    );
    let mut s1 = vec![0u8; 1024];
    assert_eq!(
        assemble_image(&mut s1, &[0u8; 512]),
        Err(ImageError::InvalidMasterBootRecord)
    );
    assert!(MasterBootRecord::from_bytes(&[0u8; 513]).is_err());
}

#[test]
fn patching_overwrites_the_sector_count() {
    let mut mbr = MasterBootRecord::from_bytes(&stage_1()).unwrap();
    patch_mbr(&mut mbr, 3);
    assert_eq!(mbr.entry(0).sector_len(), 3);
    patch_mbr(&mut mbr, 7);
    assert_eq!(mbr.entry(0).sector_len(), 7);
    assert_eq!(mbr.entry(0).start_lba(), 1);
    let mut once = MasterBootRecord::from_bytes(&stage_1()).unwrap();
    patch_mbr(&mut once, 7);
    assert_eq!(mbr, once);
}

fn err(kind: ErrorKind) -> Vec<BuildError> {
    vec![BuildError::new(kind)]
}

#[test]
fn failed_stage_1_alone_is_reported_once() {
    let r = build_image(
        Err(err(ErrorKind::ToolchainBuildFailed {
            stage: mrow_build::error::Stage::One,
            code: Some(1),
        })),
        Ok(vec![0u8; 512]),
    );
    let errors = r.unwrap_err();
    assert_eq!(errors.len(), 1);
    assert_eq!(errors[0].context, vec!["building stage 1".to_string()]);
}

#[test]
fn both_failed_stages_are_reported() {
    let r = join_stages(
        Err(err(ErrorKind::EmptyStage2)),
        Err(vec![
            BuildError::new(ErrorKind::LayoutOverflow),
            BuildError::new(ErrorKind::OverlappingSections),
        ]),
    );
    let errors = r.unwrap_err();
    assert_eq!(errors.len(), 3);
    assert_eq!(errors[0].kind, ErrorKind::EmptyStage2);
    assert_eq!(errors[0].context, vec!["building stage 1".to_string()]);
    assert_eq!(errors[1].kind, ErrorKind::LayoutOverflow);
    assert_eq!(errors[2].context, vec!["building stage 2".to_string()]);
}

#[test]
fn built_stages_make_an_image() {
    let r = build_image(Ok(stage_1()), Ok(vec![1u8; 512])).unwrap();
    assert_eq!(r.len(), 1024);
    assert_eq!(read_u32(&r, 458), 1);
    let r = build_image(Ok(stage_1()), Ok(vec![1u8; 100])).unwrap_err();
    assert_eq!(r.len(), 1);
    assert_eq!(r[0].kind, ErrorKind::UnalignedStage2Size);
}
