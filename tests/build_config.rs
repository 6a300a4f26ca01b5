use mrow_build::cargo::{target_path, CargoBuild, ObjCopy};
use mrow_build::error::{apply_context, BuildError, ErrorKind};
use mrow_build::loader::{has_stage_2, load_plan, DiskAddressPacket};
use mrow_build::mbr::{MasterBootRecord, TableEntry};
use mrow_build::toolchain::{host_target, trim};
use mrow_build::var::{parse_u16, stage_2_size_hint, VarError};

#[test]
fn cargo_arguments_with_build_std() {
    let mut c = CargoBuild::new("cargo");
    c.package = "mrow-bios-stage-2";
    c.target = "i386-code16.json";
    c.profile = "bios-release";
    let krates = ["core", "compiler_builtins"];
    let features = ["compiler-builtins-mem"];
    c.build_std = Some(&krates);
    c.build_std_features = &features;
    let extra = ["--quiet"];
    c.additional_args = &extra;
    assert_eq!(
        c.args(),
        vec![
            "-Zbuild-std=core,compiler_builtins",
            "-Zbuild-std-features=compiler-builtins-mem",
            "build",
            "--package",
            "mrow-bios-stage-2",
            "--target",
            "i386-code16.json",
            "--profile",
            "bios-release",
            "--quiet",
        ]
    );
}

#[test]
fn plain_cargo_arguments() {
    let mut c = CargoBuild::new("cargo");
    assert_eq!(c.command, "cargo");
    assert!(c.default_features);
    c.package = "p";
    assert_eq!(c.args(), vec!["build", "--package", "p"]);
    let none: [&str; 0] = [];
    c.build_std = Some(&none);
    assert_eq!(c.args(), vec!["-Zbuild-std", "build", "--package", "p"]);
}

#[test]
fn objcopy_arguments() {
    let mut o = ObjCopy::new("llvm-objcopy");
    o.input = "in.elf";
    o.output = "out.bin";
    o.output_format = Some("binary");
    assert_eq!(o.args(), vec!["-O", "binary", "in.elf", "out.bin"]);
}

#[test]
fn object_path_convention() {
    assert_eq!(
        target_path(Some("i386-code16"), Some("bios-release"), Some("stage")),
        vec!["i386-code16", "bios-release", "stage"]
    );
    assert_eq!(target_path(Some(""), None, Some("")), vec!["debug"]);
    assert_eq!(target_path(None, Some(""), Some("x")), vec!["debug", "x"]);
}

#[test]
fn context_is_added_to_every_error() {
    let errors = vec![
        BuildError::new(ErrorKind::EmptyStage2),
        BuildError::new(ErrorKind::CorruptObjectFile).context("inner"),
    ];
    let errors = apply_context(errors, "outer");
    assert_eq!(errors[0].context, vec!["outer".to_string()]);
    assert_eq!(errors[1].context, vec!["inner".to_string(), "outer".to_string()]);
}

#[test]
fn size_hint_parsing() {
    assert_eq!(stage_2_size_hint(None), Ok(0));
    assert_eq!(stage_2_size_hint(Some(b"17")), Ok(17));
    assert_eq!(parse_u16(b"+65535"), Ok(65535));
    assert_eq!(parse_u16(b""), Ok(0));
    assert_eq!(parse_u16(b"65536"), Err(VarError::Overflow));
    assert_eq!(parse_u16(b"12a"), Err(VarError::InvalidDigit));
    assert_eq!(parse_u16(b"999999a"), Err(VarError::Overflow));
    assert_eq!(parse_u16(b"-1"), Err(VarError::Negative));
    assert_eq!(parse_u16(b"+"), Err(VarError::InvalidDigit));
}

#[test]
fn partition_entry_fields() {
    let mut e = TableEntry::new();
    assert!(!e.is_bootable());
    e.set_flags(0x80);
    e.set_start_lba(0x01020304);
    e.set_sector_len(9);
    assert!(e.is_bootable());
    assert_eq!(e.start_lba(), 0x01020304);
    assert_eq!(&e.as_bytes()[8..12], &[4, 3, 2, 1]);
    assert!(has_stage_2(&e));
    let mut mbr = MasterBootRecord::new();
    mbr.set_signature(0xaa55);
    mbr.set_unique_id(7);
    mbr.set_reserved(3);
    mbr.set_entry(2, &e);
    assert_eq!(mbr.signature(), 0xaa55);
    assert_eq!(mbr.as_bytes()[510..], [0x55, 0xaa]);
    assert_eq!(mbr.unique_id(), 7);
    assert_eq!(mbr.reserved(), 3);
    assert_eq!(mbr.partition_table().entry(2), &e);
    assert_eq!(mbr.into_bytes()[446 + 32], 0x80);
}

#[test]
fn stage_1_load_plan() {
    let mut e = TableEntry::new();
    e.set_flags(0x80);
    assert!(!has_stage_2(&e));
    e.set_start_lba(1);
    e.set_sector_len(0x1_0002);
    let plan = load_plan(&e, 0x7e00);
    assert_eq!(plan.len(), 2);
    assert_eq!(plan[0], DiskAddressPacket::from_lba(1, 1, 0x7e00, 0));
    assert_eq!(plan[1], DiskAddressPacket::from_lba(2, 1, 0x8000, 0));
    let bytes = plan[1].to_bytes();
    assert_eq!(bytes, vec![0x10, 0, 1, 0, 0x00, 0x80, 0, 0, 2, 0, 0, 0, 0, 0, 0, 0]);
}

#[test]
fn host_target_from_rustc_output() {
    let out = b"rustc 1.80.0 (abc 2024-07-21)\nbinary: rustc\nhost:  x86_64-unknown-linux-gnu \r\nrelease: 1.80.0\n";
    assert_eq!(host_target(out), Some(b"x86_64-unknown-linux-gnu".to_vec()));
    assert_eq!(host_target(b"binary: rustc\nrelease: 1\n"), None);
    assert_eq!(host_target(b"xhost: a\nhost:b"), Some(b"b".to_vec()));
    assert_eq!(trim(b"  /usr/lib/rust\n"), b"/usr/lib/rust".to_vec());
    assert_eq!(trim(b" \t\n"), Vec::<u8>::new());
}

#[test]
fn records_default_to_zero() {
    let mbr = MasterBootRecord::default();
    assert_eq!(mbr.as_bytes(), &[0u8; 512][..]);
    assert_eq!(mbr.signature(), 0);
    let e = TableEntry::default();
    assert_eq!(e.as_bytes(), &[0u8; 16][..]);
    assert_eq!(e.partition_kind(), 0);
}

#[test]
fn unicode_whitespace_is_trimmed() {
    assert_eq!(trim("\u{3000} /opt/rust\u{a0}\u{2009}\n".as_bytes()), b"/opt/rust".to_vec());
    assert_eq!(trim("\u{85}x\u{1680}".as_bytes()), b"x".to_vec());
    assert_eq!(trim("\u{2000}\u{205f}\u{202f}".as_bytes()), Vec::<u8>::new());
    assert_eq!(trim("\u{e9} a \u{e9}".as_bytes()), "\u{e9} a \u{e9}".as_bytes().to_vec());
    let out = "binary: rustc\nhost:\u{3000}x86_64-unknown-linux-gnu\u{a0}\nrelease: 1\n";
    assert_eq!(host_target(out.as_bytes()), Some(b"x86_64-unknown-linux-gnu".to_vec()));
}
