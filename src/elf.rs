//! Reading the section table of an ELF object file, 32- or 64-bit, little-endian.
use vstd::prelude::*;
use crate::extract::{Compression, ExtractError, Section};
use crate::layout::{le16, le32, le64, read_u16_le, read_u32_le, read_u64_le};

verus! {

/// Section flag: the section occupies memory at run time.
pub const SHF_ALLOC: u64 = 0x2;
/// Section flag: the section's content is compressed.
pub const SHF_COMPRESSED: u64 = 0x800;
/// Section type: the section has no content in the file.
pub const SHT_NOBITS: u32 = 8;
/// Compression type of a zlib stream.
pub const ELFCOMPRESS_ZLIB: u32 = 1;
/// Compression type of a zstd stream.
pub const ELFCOMPRESS_ZSTD: u32 = 2;

/// Whether `f` starts with the identification of a little-endian ELF file of
/// either class.
pub open spec fn is_elf(f: Seq<u8>) -> bool {
    &&& f.len() >= 64
    &&& f[0] == 0x7f && f[1] == 0x45 && f[2] == 0x4c && f[3] == 0x46
    &&& f[4] == 1 || f[4] == 2
    &&& f[5] == 1
}

/// Whether the file is of the 64-bit class.
pub open spec fn is64(f: Seq<u8>) -> bool {
    f[4] == 2
}

/// A word of the file: at `off32` and 4 bytes long in a 32-bit file, at
/// `off64` and 8 bytes long in a 64-bit file.
pub open spec fn word(f: Seq<u8>, off32: int, off64: int) -> int {
    if is64(f) {
        le64(f, off64)
    } else {
        le32(f, off32)
    }
}

pub open spec fn sh_offset_of(f: Seq<u8>) -> int {
    word(f, 32, 40)
}

pub open spec fn sh_entsize_of(f: Seq<u8>) -> int {
    if is64(f) { le16(f, 58) } else { le16(f, 46) }
}

pub open spec fn sh_num_of(f: Seq<u8>) -> int {
    if is64(f) { le16(f, 60) } else { le16(f, 48) }
}

pub open spec fn sh_strndx_of(f: Seq<u8>) -> int {
    if is64(f) { le16(f, 62) } else { le16(f, 50) }
}

/// The size a section header must have at least.
pub open spec fn min_entsize(f: Seq<u8>) -> int {
    if is64(f) { 64 } else { 40 }
}

/// Whether the file's section table can be read: the file is ELF, its headers
/// are large enough, lie within the file, and the name table's index is one
/// of them.
pub open spec fn table_ok(f: Seq<u8>) -> bool {
    &&& is_elf(f)
    &&& sh_entsize_of(f) >= min_entsize(f)
    &&& sh_offset_of(f) + sh_num_of(f) * sh_entsize_of(f) <= f.len()
    &&& sh_strndx_of(f) < sh_num_of(f)
}

/// Where header `j` starts.
pub open spec fn header_at(f: Seq<u8>, j: int) -> int {
    sh_offset_of(f) + j * sh_entsize_of(f)
}

pub open spec fn sh_name(f: Seq<u8>, j: int) -> int {
    le32(f, header_at(f, j))
}

pub open spec fn sh_type(f: Seq<u8>, j: int) -> int {
    le32(f, header_at(f, j) + 4)
}

pub open spec fn sh_flags(f: Seq<u8>, j: int) -> int {
    word(f, header_at(f, j) + 8, header_at(f, j) + 8)
}

pub open spec fn sh_addr(f: Seq<u8>, j: int) -> int {
    word(f, header_at(f, j) + 12, header_at(f, j) + 16)
}

pub open spec fn sh_data_offset(f: Seq<u8>, j: int) -> int {
    word(f, header_at(f, j) + 16, header_at(f, j) + 24)
}

pub open spec fn sh_size(f: Seq<u8>, j: int) -> int {
    word(f, header_at(f, j) + 20, header_at(f, j) + 32)
}

/// Whether section `j` occupies memory at run time and has content in the file.
pub open spec fn is_loadable(f: Seq<u8>, j: int) -> bool {
    (sh_flags(f, j) as u64) & 0x2 != 0 && sh_type(f, j) != 8
}

/// Whether section `j` is compressed.
pub open spec fn is_compressed(f: Seq<u8>, j: int) -> bool {
    (sh_flags(f, j) as u64) & 0x800 != 0
}

/// The stored bytes of section `j`, where they lie within the file.
pub open spec fn raw_data(f: Seq<u8>, j: int) -> Option<Seq<u8>> {
    let o = sh_data_offset(f, j);
    let n = sh_size(f, j);
    if sh_type(f, j) != 8 && o + n <= f.len() {
        Some(f.subrange(o, o + n))
    } else {
        None
    }
}

/// Size of a compression header.
pub open spec fn chdr_size(f: Seq<u8>) -> int {
    if is64(f) { 24 } else { 12 }
}

/// The codec of a compression type.
pub open spec fn codec_of(ch_type: u32) -> Compression {
    if ch_type == 1 {
        Compression::Zlib
    } else if ch_type == 2 {
        Compression::Zstd
    } else {
        Compression::Unknown(ch_type)
    }
}

/// The section that header `j` describes, but for its name: where it is
/// compressed, its size and codec come from the compression header at the
/// start of its data, and its data is what follows that header.
pub open spec fn section_matches(f: Seq<u8>, j: int, s: Section) -> bool {
    &&& s.address == sh_addr(f, j)
    &&& s.loadable == is_loadable(f, j)
    &&& if !is_compressed(f, j) {
        &&& s.compression == Compression::Stored
        &&& s.size == sh_size(f, j)
        &&& match raw_data(f, j) {
            Some(d) => s.data matches Some(v) && v@ == d,
            None => s.data is None,
        }
    } else {
        match raw_data(f, j) {
            Some(d) => if d.len() >= chdr_size(f) {
                &&& s.compression == codec_of(le32(d, 0) as u32)
                &&& s.size == (if is64(f) { le64(d, 8) } else { le32(d, 4) })
                &&& s.data matches Some(v) && v@ == d.subrange(chdr_size(f), d.len() as int)
            } else {
                s.data is None
            },
            None => s.data is None,
        }
    }
}

/// What `String::from_utf8` makes of some bytes: their characters, where they
/// are valid UTF-8.
pub uninterp spec fn utf8_decode(bytes: Seq<u8>) -> Option<Seq<char>>;

/// Relies on String::from_utf8: it succeeds exactly on valid UTF-8, with the
/// characters the bytes encode.
#[verifier::external_body]
fn string_from_utf8(bytes: Vec<u8>) -> (r: Option<String>)
    ensures
        r is Some <==> utf8_decode(bytes@) is Some,
        r matches Some(s) ==> utf8_decode(bytes@) == Some(s@),
{
    String::from_utf8(bytes).ok()
}

/// Whether `b` is the name that starts at `start` in a string table ending at
/// `end`: the bytes up to the first zero byte, which lies before `end`.
pub open spec fn name_at(f: Seq<u8>, start: int, end: int, b: Seq<u8>) -> bool {
    &&& 0 <= start
    &&& start + b.len() < end <= f.len()
    &&& b == f.subrange(start, start + b.len())
    &&& f[start + b.len()] == 0
    &&& forall|m: int| 0 <= m < b.len() ==> b[m] != 0
}

/// Where the string table of section names starts and ends, where it lies
/// within the file.
pub open spec fn strtab_range(f: Seq<u8>) -> Option<(int, int)> {
    let k = sh_strndx_of(f);
    let o = sh_data_offset(f, k);
    let n = sh_size(f, k);
    if o + n <= f.len() {
        Some((o, o + n))
    } else {
        None
    }
}

/// Whether `name` can be the name of section `j`: it is absent, or it is the
/// UTF-8 text of the section's name in the string table.
pub open spec fn name_matches(f: Seq<u8>, j: int, name: Option<String>) -> bool {
    &&& name matches Some(n) ==> (strtab_range(f) matches Some((s, e)) && exists|b: Seq<u8>|
        name_at(f, s + sh_name(f, j), e, b) && utf8_decode(b) == Some(n@))
    &&& name is None ==> !(strtab_range(f) matches Some((s, e)) && exists|b: Seq<u8>|
        name_at(f, s + sh_name(f, j), e, b) && utf8_decode(b) is Some)
}

/// The bytes of `f` from `start` to `end`.
fn copy_range(f: &[u8], start: usize, end: usize) -> (r: Vec<u8>)
    requires
        start <= end <= f@.len(),
    ensures
        r@ == f@.subrange(start as int, end as int),
{
    let mut r: Vec<u8> = Vec::new();
    let mut k: usize = start;
    while k < end
        invariant
            start <= k <= end,
            end <= f@.len(),
            r@ == f@.subrange(start as int, k as int),
        decreases end - k,
    {
        r.push(f[k]);
        k = k + 1;
        assert(r@ =~= f@.subrange(start as int, k as int));
    }
    r
}

/// The name that starts at `start` in the string table ending at `end`, where
/// it ends before `end` and is valid UTF-8.
fn read_name(f: &[u8], start: usize, end: usize) -> (r: Option<String>)
    requires
        end <= f@.len(),
    ensures
        r matches Some(n) ==> exists|b: Seq<u8>| name_at(f@, start as int, end as int, b)
            && utf8_decode(b) == Some(n@),
        r is None ==> !exists|b: Seq<u8>| name_at(f@, start as int, end as int, b)
            && utf8_decode(b) is Some,
{
    if start >= end {
        return None;
    }
    let mut k: usize = start;
    while k < end && f[k] != 0
        invariant
            start <= k <= end,
            end <= f@.len(),
            forall|m: int| start <= m < k ==> f@[m] != 0,
        decreases end - k,
    {
        k = k + 1;
    }
    if k == end {
        assert forall|b: Seq<u8>| !name_at(f@, start as int, end as int, b) by {
            if name_at(f@, start as int, end as int, b) {
                assert(f@[start + b.len()] == 0);
            }
        }
        return None;
    }
    let b = copy_range(f, start, k);
    assert(name_at(f@, start as int, end as int, b@));
    assert forall|b2: Seq<u8>| name_at(f@, start as int, end as int, b2) implies b2 == b@ by {
        if b2.len() < b@.len() {
            assert(f@[start + b2.len()] != 0);
        } else if b2.len() > b@.len() {
            assert(b2[k - start] == f@[k as int]);
        }
        assert(b2 =~= b@);
    }
    string_from_utf8(b)
}

/// Reads a word of the file.
fn read_word(f: &[u8], wide: bool, off32: usize, off64: usize) -> (r: u64)
    requires
        f@.len() >= 5,
        wide == is64(f@),
        off32 + 4 <= f@.len(),
        off64 + 8 <= f@.len() || !wide,
    ensures
        r == word(f@, off32 as int, off64 as int),
{
    if wide {
        read_u64_le(f, off64)
    } else {
        read_u32_le(f, off32) as u64
    }
}

/// The fields of a section header.
#[derive(Clone, Copy, Debug, PartialEq, Eq, Hash)]
pub struct SectionHeader {
    pub name: u32,
    pub kind: u32,
    pub flags: u64,
    pub address: u64,
    pub offset: u64,
    pub size: u64,
}

/// Whether `hd` holds the fields of header `j`.
pub open spec fn header_matches(f: Seq<u8>, j: int, hd: SectionHeader) -> bool {
    &&& hd.name == sh_name(f, j)
    &&& hd.kind == sh_type(f, j)
    &&& hd.flags == sh_flags(f, j)
    &&& hd.address == sh_addr(f, j)
    &&& hd.offset == sh_data_offset(f, j)
    &&& hd.size == sh_size(f, j)
}

/// Reads header `j`, which starts at `h`.
fn read_header(f: &[u8], wide: bool, j: usize, h: usize) -> (r: SectionHeader)
    requires
        f@.len() >= 5,
        wide == is64(f@),
        h == header_at(f@, j as int),
        h + min_entsize(f@) <= f@.len(),
    ensures
        header_matches(f@, j as int, r),
{
    let len: usize = f.len();
    assert(min_entsize(f@) >= 40 && h + 40 <= len);
    SectionHeader {
        name: read_u32_le(f, h),
        kind: read_u32_le(f, h + 4),
        flags: read_word(f, wide, h + 8, h + 8),
        address: read_word(f, wide, h + 12, h + 16),
        offset: read_word(f, wide, h + 16, h + 24),
        size: read_word(f, wide, h + 20, h + 32),
    }
}

/// The name of the section whose header is `hd`, looked up in the string table
/// that spans `names`, if there is one.
fn section_name(f: &[u8], hd: &SectionHeader, names: Option<(usize, usize)>) -> (r: Option<String>)
    requires
        names matches Some((s, e)) ==> e <= f@.len(),
    ensures
        r matches Some(n) ==> (names matches Some((s, e)) && exists|b: Seq<u8>|
            name_at(f@, s + hd.name, e as int, b) && utf8_decode(b) == Some(n@)),
        r is None ==> !(names matches Some((s, e)) && exists|b: Seq<u8>|
            name_at(f@, s + hd.name, e as int, b) && utf8_decode(b) is Some),
{
    match names {
        Some((s, e)) => {
            if (s as u128) + (hd.name as u128) < e as u128 {
                read_name(f, s + hd.name as usize, e)
            } else {
                None
            }
        },
        None => None,
    }
}

/// The section that header `hd` describes, with the name `name`.
fn section_from(f: &[u8], wide: bool, hd: &SectionHeader, name: Option<String>) -> (r: Section)
    requires
        f@.len() >= 5,
        wide == is64(f@),
    ensures
        forall|j: int| header_matches(f@, j, *hd) ==> #[trigger] section_matches(f@, j, r),
        r.name == name,
{
    let ghost fv = f@;
    let len: usize = f.len();
    let loadable: bool = hd.flags & SHF_ALLOC != 0 && hd.kind != SHT_NOBITS;
    let in_file: bool = hd.kind != SHT_NOBITS && (hd.offset as u128) + (hd.size as u128) <= len as u128;
    let compressed: bool = hd.flags & SHF_COMPRESSED != 0;
    if !compressed {
        let data = if in_file {
            Some(copy_range(f, hd.offset as usize, (hd.offset + hd.size) as usize))
        } else {
            None
        };
        return Section { name, address: hd.address, size: hd.size, loadable, compression: Compression::Stored, data };
    }
    let chdr: usize = if wide { 24 } else { 12 };
    if !in_file || hd.size < chdr as u64 {
        return Section {
            name,
            address: hd.address,
            size: 0,
            loadable,
            compression: Compression::Stored,
            data: None,
        };
    }
    let o: usize = hd.offset as usize;
    let ghost d = fv.subrange(o as int, o + hd.size);
    let ch_type: u32 = read_u32_le(f, o);
    let ch_size: u64 = if wide {
        read_u64_le(f, o + 8)
    } else {
        read_u32_le(f, o + 4) as u64
    };
    proof {
        assert(le32(d, 0) == le32(fv, o as int));
        if wide {
            assert(le64(d, 8) == le64(fv, o + 8));
        } else {
            assert(le32(d, 4) == le32(fv, o + 4));
        }
        assert(fv.subrange(o + chdr, o + hd.size) =~= d.subrange(chdr as int, d.len() as int));
    }
    let compression = if ch_type == ELFCOMPRESS_ZLIB {
        Compression::Zlib
    } else if ch_type == ELFCOMPRESS_ZSTD {
        Compression::Zstd
    } else {
        Compression::Unknown(ch_type)
    };
    let data = copy_range(f, o + chdr, (hd.offset + hd.size) as usize);
    Section { name, address: hd.address, size: ch_size, loadable, compression, data: Some(data) }
}

/// Reads every section of an ELF object file, in the order of its section
/// table. Fails with `CorruptObjectFile` where the table cannot be read.
pub fn parse_sections(f: &[u8]) -> (r: Result<Vec<Section>, ExtractError>)
    ensures
        r is Ok <==> table_ok(f@),
        r matches Err(e) ==> e == ExtractError::CorruptObjectFile,
        r matches Ok(v) ==> v@.len() == sh_num_of(f@) && forall|j: int|
            0 <= j < v@.len() ==> section_matches(f@, j, #[trigger] v@[j]) && name_matches(
                f@,
                j,
                v@[j].name,
            ),
{
    let len: usize = f.len();
    if len < 64 || f[0] != 0x7f || f[1] != 0x45 || f[2] != 0x4c || f[3] != 0x46 {
        return Err(ExtractError::CorruptObjectFile);
    }
    if !(f[4] == 1 || f[4] == 2) || f[5] != 1 {
        return Err(ExtractError::CorruptObjectFile);
    }
    let wide: bool = f[4] == 2;
    let shoff: u64 = read_word(f, wide, 32, 40);
    let entsize: u16 = if wide { read_u16_le(f, 58) } else { read_u16_le(f, 46) };
    let num: u16 = if wide { read_u16_le(f, 60) } else { read_u16_le(f, 48) };
    let strndx: u16 = if wide { read_u16_le(f, 62) } else { read_u16_le(f, 50) };
    let min: u16 = if wide { 64 } else { 40 };
    if entsize < min {
        return Err(ExtractError::CorruptObjectFile);
    }
    assert((num as int) * (entsize as int) <= 65535 * 65535) by (nonlinear_arith)
        requires num <= 65535, entsize <= 65535;
    let table_size: u64 = (num as u64) * (entsize as u64);
    if (shoff as u128) + (table_size as u128) > len as u128 {
        return Err(ExtractError::CorruptObjectFile);
    }
    if strndx >= num {
        return Err(ExtractError::CorruptObjectFile);
    }
    assert((num as int) * (entsize as int) >= (strndx as int) * (entsize as int) + entsize) by (nonlinear_arith)
        requires strndx < num;
    let strtab = read_header(f, wide, strndx as usize, (shoff + (strndx as u64) * (entsize as u64)) as usize);
    let names: Option<(usize, usize)> = if (strtab.offset as u128) + (strtab.size as u128) <= len as u128 {
        Some((strtab.offset as usize, (strtab.offset + strtab.size) as usize))
    } else {
        None
    };
    let mut sections: Vec<Section> = Vec::new();
    let mut j: u16 = 0;
    while j < num
        invariant
            table_ok(f@),
            wide == is64(f@),
            len == f@.len(),
            num == sh_num_of(f@),
            entsize == sh_entsize_of(f@),
            shoff == sh_offset_of(f@),
            names matches Some((s, e)) ==> strtab_range(f@) == Some((s as int, e as int)),
            names is None ==> strtab_range(f@) is None,
            j <= num,
            sections@.len() == j,
            forall|k: int| 0 <= k < j ==> section_matches(f@, k, #[trigger] sections@[k]) && name_matches(
                f@,
                k,
                sections@[k].name,
            ),
        decreases num - j,
    {
        assert((num as int) * (entsize as int) >= (j as int) * (entsize as int) + entsize) by (nonlinear_arith)
            requires j < num;
        let h: usize = (shoff + (j as u64) * (entsize as u64)) as usize;
        let hd = read_header(f, wide, j as usize, h);
        let name = section_name(f, &hd, names);
        let s = section_from(f, wide, &hd, name);
        assert(section_matches(f@, j as int, s));
        sections.push(s);
        j = j + 1;
    }
    Ok(sections)
}

} // verus!
