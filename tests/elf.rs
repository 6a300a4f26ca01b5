use mrow_build::error::ErrorKind;
use mrow_build::elf::parse_sections;
use mrow_build::extract::{Compression, ExtractError};
use mrow_build::stage::stage_bytes;

struct Sec {
    name: &'static str,
    kind: u32,
    flags: u64,
    addr: u64,
    data: Vec<u8>,
    nobits_size: u64,
}

fn put(buf: &mut Vec<u8>, off: usize, bytes: &[u8]) {
    if buf.len() < off + bytes.len() {
        buf.resize(off + bytes.len(), 0);
    }
    buf[off..off + bytes.len()].copy_from_slice(bytes);
}

/// A little-endian ELF file of the given class with a null section, `secs`
/// and a section-name table last.
fn elf(wide: bool, secs: &[Sec]) -> Vec<u8> {
    let mut strtab = vec![0u8];
    let mut name_offs = Vec::new();
    for s in secs {
        name_offs.push(strtab.len() as u32);
        strtab.extend_from_slice(s.name.as_bytes());
        strtab.push(0);
    }
    let shstr_name = strtab.len() as u32;
    strtab.extend_from_slice(b".shstrtab\0");

    let mut buf = vec![0u8; 64];
    put(&mut buf, 0, &[0x7f, b'E', b'L', b'F', if wide { 2 } else { 1 }, 1, 1]);
    let mut offsets = Vec::new();
    for s in secs {
        offsets.push(buf.len() as u64);
        buf.extend_from_slice(&s.data);
    }
    let str_off = buf.len() as u64;
    buf.extend_from_slice(&strtab);
    while buf.len() % 8 != 0 {
        buf.push(0);
    }
    let shoff = buf.len();
    let entsize: usize = if wide { 64 } else { 40 };
    let num = secs.len() + 2;
    buf.resize(shoff + num * entsize, 0);
    let mut header = |j: usize, name: u32, kind: u32, flags: u64, addr: u64, off: u64, size: u64| {
        let h = shoff + j * entsize;
        put(&mut buf, h, &name.to_le_bytes());
        put(&mut buf, h + 4, &kind.to_le_bytes());
        if wide {
            put(&mut buf, h + 8, &flags.to_le_bytes());
            put(&mut buf, h + 16, &addr.to_le_bytes());
            put(&mut buf, h + 24, &off.to_le_bytes());
            put(&mut buf, h + 32, &size.to_le_bytes());
        } else {
            put(&mut buf, h + 8, &(flags as u32).to_le_bytes());
            put(&mut buf, h + 12, &(addr as u32).to_le_bytes());
            put(&mut buf, h + 16, &(off as u32).to_le_bytes());
            put(&mut buf, h + 20, &(size as u32).to_le_bytes());
        }
    };
    for (j, s) in secs.iter().enumerate() {
        let size = if s.kind == 8 { s.nobits_size } else { s.data.len() as u64 };
        header(j + 1, name_offs[j], s.kind, s.flags, s.addr, offsets[j], size);
    }
    header(num - 1, shstr_name, 3, 0, 0, str_off, strtab.len() as u64);
    if wide {
        put(&mut buf, 40, &(shoff as u64).to_le_bytes());
        put(&mut buf, 58, &(entsize as u16).to_le_bytes());
        put(&mut buf, 60, &(num as u16).to_le_bytes());
        put(&mut buf, 62, &((num - 1) as u16).to_le_bytes());
    } else {
        put(&mut buf, 32, &(shoff as u32).to_le_bytes());
        put(&mut buf, 46, &(entsize as u16).to_le_bytes());
        put(&mut buf, 48, &(num as u16).to_le_bytes());
        put(&mut buf, 50, &((num - 1) as u16).to_le_bytes());
    }
    buf
}

fn sec(name: &'static str, kind: u32, flags: u64, addr: u64, data: &[u8]) -> Sec {
    Sec { name, kind, flags, addr, data: data.to_vec(), nobits_size: 0 }
}

fn sample(wide: bool) -> Vec<u8> {
    elf(
        wide,
        &[
            sec(".data", 1, 3, 0x7c08, &[0xd0, 0xd1]),
            sec(".text", 1, 6, 0x7c00, &[0x10, 0x11, 0x12]),
            Sec { name: ".bss", kind: 8, flags: 3, addr: 0x7c10, data: vec![], nobits_size: 16 },
            sec(".comment", 1, 0, 0, b"hello"),
        ],
    )
}

#[test]
fn reads_a_32_bit_section_table() {
    let f = sample(false);
    let secs = parse_sections(&f).unwrap();
    assert_eq!(secs.len(), 6);
    assert_eq!(secs[1].name.as_deref(), Some(".data"));
    assert_eq!(secs[1].address, 0x7c08);
    assert!(secs[1].loadable);
    assert_eq!(secs[1].data, Some(vec![0xd0, 0xd1]));
    assert_eq!(secs[2].name.as_deref(), Some(".text"));
    assert!(!secs[3].loadable);
    assert_eq!(secs[3].data, None);
    assert!(!secs[4].loadable);
    assert_eq!(secs[5].name.as_deref(), Some(".shstrtab"));
}

#[test]
fn flattens_a_stage_from_its_object_file() {
    for wide in [false, true] {
        let bytes = stage_bytes(&sample(wide)).unwrap();
        assert_eq!(bytes, vec![0x10, 0x11, 0x12, 0, 0, 0, 0, 0, 0xd0, 0xd1]);
    }
}

#[test]
fn reads_a_compressed_section() {
    let payload: Vec<u8> = (0..200u32).map(|i| (i % 17) as u8).collect();
    let mut data = Vec::new();
    data.extend_from_slice(&1u32.to_le_bytes());
    data.extend_from_slice(&0u32.to_le_bytes());
    data.extend_from_slice(&(payload.len() as u64).to_le_bytes());
    data.extend_from_slice(&1u64.to_le_bytes());
    data.extend_from_slice(&miniz_oxide::deflate::compress_to_vec_zlib(&payload, 6));
    let f = elf(true, &[sec(".text", 1, 0x802, 0x1000, &data)]);
    let secs = parse_sections(&f).unwrap();
    assert_eq!(secs[1].compression, Compression::Zlib);
    assert_eq!(secs[1].size, payload.len() as u64);
    assert_eq!(stage_bytes(&f).unwrap(), payload);
}

#[test]
fn unknown_codec_in_object_is_unsupported() {
    let mut data = Vec::new();
    data.extend_from_slice(&7u32.to_le_bytes());
    data.extend_from_slice(&4u32.to_le_bytes());
    data.extend_from_slice(&1u32.to_le_bytes());
    data.extend_from_slice(&[1, 2, 3, 4]);
    let f = elf(false, &[sec(".text", 1, 0x802, 0, &data)]);
    let secs = parse_sections(&f).unwrap();
    assert_eq!(secs[1].compression, Compression::Unknown(7));
    let e = stage_bytes(&f).unwrap_err();
    assert_eq!(
        e[0].kind,
        ErrorKind::UnsupportedCompression { format: 7, section_name: ".text".to_string() }
    );
}

#[test]
fn not_an_object_file_is_corrupt() {
    assert_eq!(parse_sections(&[0u8; 100]).unwrap_err(), ExtractError::CorruptObjectFile);
    let mut f = sample(false);
    f.truncate(f.len() - 1);
    assert_eq!(parse_sections(&f).unwrap_err(), ExtractError::CorruptObjectFile);
    let e = stage_bytes(b"\x7fELF").unwrap_err();
    assert_eq!(e.len(), 1);
    assert_eq!(e[0].kind, ErrorKind::CorruptObjectFile);
}

#[test]
fn name_that_is_not_utf8_is_missing() {
    let f = elf(false, &[sec("\u{e9}", 1, 2, 0, &[1])]);
    let mut f = f;
    let pos = f.windows(3).position(|w| w == [0, 0xc3, 0xa9]).unwrap() + 1;
    f[pos] = 0xff;
    let secs = parse_sections(&f).unwrap();
    assert_eq!(secs[1].name, None);
    let e = stage_bytes(&f).unwrap_err();
    assert_eq!(e[0].kind, ErrorKind::CorruptObjectFile);
}
