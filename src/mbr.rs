//! The Master Boot Record and its partition table, as byte-offset records.
//!
//! Every field past the bootstrap code is unaligned on disk, so each record
//! keeps its raw bytes and reads or writes fields at fixed offsets.
use vstd::prelude::*;
use crate::layout::{le16, le32, le32_bytes, le16_bytes, splice, read_u16_le, read_u32_le,
    write_u16_le, write_u32_le};

verus! {

/// Size of a partition table entry, in bytes.
pub const ENTRY_SIZE: usize = 16;
/// Number of entries in a partition table.
pub const ENTRY_COUNT: usize = 4;
/// Size of a Master Boot Record, in bytes.
pub const MBR_SIZE: usize = 512;
/// Offset of the optional disk signature.
pub const UNIQUE_ID_OFFSET: usize = 440;
/// Offset of the reserved field.
pub const RESERVED_OFFSET: usize = 444;
/// Offset of the partition table.
pub const TABLE_OFFSET: usize = 446;
/// Offset of the boot signature.
pub const SIGNATURE_OFFSET: usize = 510;

/// Offsets of the fields within an entry.
pub const FLAGS_FIELD: usize = 0;
pub const KIND_FIELD: usize = 4;
pub const START_LBA_FIELD: usize = 8;
pub const SECTOR_LEN_FIELD: usize = 12;

/// The bit of the flags byte that marks an entry bootable.
pub const BOOTABLE_FLAG: u8 = 0x80;

/// Whether a flags byte marks its entry bootable.
pub open spec fn flag_bootable(flags: u8) -> bool {
    flags & 0x80 != 0
}

/// Offset of entry `i` within a Master Boot Record.
pub open spec fn entry_offset(i: int) -> int {
    446 + 16 * i
}

/// A partition table entry: 16 bytes holding the flags, two cylinder-head-sector
/// addresses, the partition kind, the starting block and the length in sectors.
#[derive(Debug, PartialEq, Eq, Hash)]
pub struct TableEntry {
    pub bytes: Vec<u8>,
}

impl View for TableEntry {
    type V = Seq<u8>;

    open spec fn view(&self) -> Seq<u8> {
        self.bytes@
    }
}

impl TableEntry {
    pub open spec fn wf(&self) -> bool {
        self@.len() == 16
    }

    pub open spec fn spec_start_lba(&self) -> int {
        le32(self@, 8)
    }

    pub open spec fn spec_sector_len(&self) -> int {
        le32(self@, 12)
    }

    /// An entry with every byte zero.
    pub fn new() -> (r: TableEntry)
        ensures
            r.wf(),
            forall|k: int| 0 <= k < 16 ==> r@[k] == 0,
    {
        TableEntry { bytes: vec![0u8; ENTRY_SIZE] }
    }

    /// The entry held by the 16 bytes `b`.
    pub fn from_bytes(b: &[u8]) -> (r: TableEntry)
        requires
            b@.len() == 16,
        ensures
            r@ == b@,
    {
        let mut bytes: Vec<u8> = Vec::new();
        bytes.extend_from_slice(b);
        TableEntry { bytes }
    }

    /// The entry's 16 bytes.
    pub fn as_bytes(&self) -> (r: &[u8])
        ensures
            r@ == self@,
    {
        self.bytes.as_slice()
    }

    pub fn flags(&self) -> (r: u8)
        requires
            self.wf(),
        ensures
            r == self@[0],
    {
        self.bytes[FLAGS_FIELD]
    }

    pub fn set_flags(&mut self, flags: u8)
        requires
            old(self).wf(),
        ensures
            final(self)@ == old(self)@.update(0, flags),
    {
        self.bytes.set(FLAGS_FIELD, flags);
    }

    /// What kind of partition this is.
    pub fn partition_kind(&self) -> (r: u8)
        requires
            self.wf(),
        ensures
            r == self@[4],
    {
        self.bytes[KIND_FIELD]
    }

    /// Whether the entry is bootable: the high bit of its flags is set.
    pub fn is_bootable(&self) -> (r: bool)
        requires
            self.wf(),
        ensures
            r == flag_bootable(self@[0]),
    {
        self.bytes[FLAGS_FIELD] & BOOTABLE_FLAG != 0
    }

    /// The logical block address the partition starts at.
    pub fn start_lba(&self) -> (r: u32)
        requires
            self.wf(),
        ensures
            r == self.spec_start_lba(),
    {
        read_u32_le(self.bytes.as_slice(), START_LBA_FIELD)
    }

    /// The length of the partition, in sectors.
    pub fn sector_len(&self) -> (r: u32)
        requires
            self.wf(),
        ensures
            r == self.spec_sector_len(),
    {
        read_u32_le(self.bytes.as_slice(), SECTOR_LEN_FIELD)
    }

    /// Sets the logical block address the partition starts at.
    pub fn set_start_lba(&mut self, lba: u32)
        requires
            old(self).wf(),
        ensures
            final(self)@ == splice(old(self)@, 8, le32_bytes(lba)),
            final(self).wf(),
            final(self).spec_start_lba() == lba,
    {
        write_u32_le(&mut self.bytes, START_LBA_FIELD, lba);
    }

    /// Sets the length of the partition, in sectors.
    pub fn set_sector_len(&mut self, sector_len: u32)
        requires
            old(self).wf(),
        ensures
            final(self)@ == splice(old(self)@, 12, le32_bytes(sector_len)),
            final(self).wf(),
            final(self).spec_sector_len() == sector_len,
    {
        write_u32_le(&mut self.bytes, SECTOR_LEN_FIELD, sector_len);
    }
}

/// The four entries of a partition table, in order.
#[derive(Debug, PartialEq, Eq, Hash)]
pub struct PartitionTable {
    pub entries: Vec<TableEntry>,
}

impl View for PartitionTable {
    type V = Seq<Seq<u8>>;

    open spec fn view(&self) -> Seq<Seq<u8>> {
        self.entries@.map_values(|e: TableEntry| e@)
    }
}

impl PartitionTable {
    pub open spec fn wf(&self) -> bool {
        &&& self.entries@.len() == 4
        &&& forall|i: int| 0 <= i < 4 ==> (#[trigger] self.entries@[i]).wf()
    }

    /// Entry `i` of the table.
    pub fn entry(&self, i: usize) -> (r: &TableEntry)
        requires
            self.wf(),
            i < 4,
        ensures
            r.wf(),
            r@ == self@[i as int],
    {
        &self.entries[i]
    }
}

/// A Master Boot Record: 440 bytes of bootstrap code, a disk signature, a
/// reserved field, the partition table and the boot signature, 512 bytes in all.
#[derive(Debug, PartialEq, Eq, Hash)]
pub struct MasterBootRecord {
    pub bytes: Vec<u8>,
}

impl View for MasterBootRecord {
    type V = Seq<u8>;

    open spec fn view(&self) -> Seq<u8> {
        self.bytes@
    }
}

/// The error bytemuck reports when a cast between plain-data forms fails.
#[verifier::external_type_specification]
#[verifier::external_body]
pub struct ExPodCastError(bytemuck::PodCastError);

/// Relies on bytemuck::try_from_bytes for a 512-byte array: it fails exactly
/// when the slice is not 512 bytes long (an array of bytes needs no alignment)
/// and otherwise views the same bytes.
#[verifier::external_body]
fn sector_bytes(s: &[u8]) -> (r: Result<&[u8; 512], bytemuck::PodCastError>)
    ensures
        r is Ok <==> s@.len() == 512,
        r matches Ok(a) ==> a@ == s@,
{
    bytemuck::try_from_bytes::<[u8; 512]>(s)
}

impl MasterBootRecord {
    pub open spec fn wf(&self) -> bool {
        self@.len() == 512
    }

    /// A record with every byte zero.
    pub fn new() -> (r: MasterBootRecord)
        ensures
            r.wf(),
            forall|k: int| 0 <= k < 512 ==> r@[k] == 0,
    {
        MasterBootRecord { bytes: vec![0u8; MBR_SIZE] }
    }

    /// The record held by `s`, which must be exactly 512 bytes long.
    pub fn from_bytes(s: &[u8]) -> (r: Result<MasterBootRecord, MbrError>)
        ensures
            r is Ok <==> s@.len() == 512,
            r matches Ok(m) ==> m@ == s@ && m.wf(),
            r matches Err(e) ==> e == MbrError::SizeMismatch,
    {
        match sector_bytes(s) {
            Ok(a) => {
                let mut bytes: Vec<u8> = Vec::new();
                bytes.extend_from_slice(a.as_slice());
                Ok(MasterBootRecord { bytes })
            },
            Err(e) => Err(MbrError::from_cast(e)),
        }
    }

    /// The record's 512 bytes.
    pub fn as_bytes(&self) -> (r: &[u8])
        ensures
            r@ == self@,
    {
        self.bytes.as_slice()
    }

    /// The record's 512 bytes, by value.
    pub fn into_bytes(self) -> (r: Vec<u8>)
        ensures
            r@ == self@,
    {
        self.bytes
    }

    pub fn unique_id(&self) -> (r: u32)
        requires
            self.wf(),
        ensures
            r == le32(self@, 440),
    {
        read_u32_le(self.bytes.as_slice(), UNIQUE_ID_OFFSET)
    }

    pub fn set_unique_id(&mut self, unique_id: u32)
        requires
            old(self).wf(),
        ensures
            final(self)@ == splice(old(self)@, 440, le32_bytes(unique_id)),
    {
        write_u32_le(&mut self.bytes, UNIQUE_ID_OFFSET, unique_id);
    }

    pub fn reserved(&self) -> (r: u16)
        requires
            self.wf(),
        ensures
            r == le16(self@, 444),
    {
        read_u16_le(self.bytes.as_slice(), RESERVED_OFFSET)
    }

    pub fn set_reserved(&mut self, reserved: u16)
        requires
            old(self).wf(),
        ensures
            final(self)@ == splice(old(self)@, 444, le16_bytes(reserved)),
    {
        write_u16_le(&mut self.bytes, RESERVED_OFFSET, reserved);
    }

    pub fn signature(&self) -> (r: u16)
        requires
            self.wf(),
        ensures
            r == le16(self@, 510),
    {
        read_u16_le(self.bytes.as_slice(), SIGNATURE_OFFSET)
    }

    pub fn set_signature(&mut self, signature: u16)
        requires
            old(self).wf(),
        ensures
            final(self)@ == splice(old(self)@, 510, le16_bytes(signature)),
    {
        write_u16_le(&mut self.bytes, SIGNATURE_OFFSET, signature);
    }

    /// Entry `i` of the partition table.
    pub fn entry(&self, i: usize) -> (r: TableEntry)
        requires
            self.wf(),
            i < 4,
        ensures
            r.wf(),
            r@ == self@.subrange(entry_offset(i as int), entry_offset(i as int) + 16),
    {
        let off: usize = TABLE_OFFSET + ENTRY_SIZE * i;
        let s = self.bytes.as_slice();
        let mut bytes: Vec<u8> = Vec::new();
        let mut k: usize = 0;
        while k < ENTRY_SIZE
            invariant
                k <= 16,
                off == entry_offset(i as int),
                s@ == self@,
                self.wf(),
                i < 4,
                bytes@ == self@.subrange(off as int, off + k),
            decreases 16 - k,
        {
            bytes.push(s[off + k]);
            k = k + 1;
            assert(bytes@ =~= self@.subrange(off as int, off + k));
        }
        TableEntry { bytes }
    }

    /// Replaces entry `i` of the partition table by `e`.
    pub fn set_entry(&mut self, i: usize, e: &TableEntry)
        requires
            old(self).wf(),
            e.wf(),
            i < 4,
        ensures
            final(self)@ == splice(old(self)@, entry_offset(i as int), e@),
            final(self).wf(),
    {
        let off: usize = TABLE_OFFSET + ENTRY_SIZE * i;
        let mut k: usize = 0;
        while k < ENTRY_SIZE
            invariant
                k <= 16,
                off == entry_offset(i as int),
                i < 4,
                e.wf(),
                self@.len() == 512,
                old(self)@.len() == 512,
                forall|j: int|
                    0 <= j < 512 ==> #[trigger] self@[j] == if off <= j < off + k {
                        e@[j - off]
                    } else {
                        old(self)@[j]
                    },
            decreases 16 - k,
        {
            self.bytes.set(off + k, e.bytes[k]);
            k = k + 1;
        }
        assert(self@ =~= splice(old(self)@, entry_offset(i as int), e@));
    }

    /// The whole partition table.
    pub fn partition_table(&self) -> (r: PartitionTable)
        requires
            self.wf(),
        ensures
            r.wf(),
            forall|i: int|
                0 <= i < 4 ==> #[trigger] r@[i] == self@.subrange(entry_offset(i), entry_offset(i)
                    + 16),
    {
        let mut entries: Vec<TableEntry> = Vec::new();
        let mut i: usize = 0;
        while i < ENTRY_COUNT
            invariant
                i <= 4,
                self.wf(),
                entries@.len() == i,
                forall|j: int| 0 <= j < i ==> (#[trigger] entries@[j]).wf(),
                forall|j: int|
                    0 <= j < i ==> (#[trigger] entries@[j])@ == self@.subrange(entry_offset(j),
                        entry_offset(j) + 16),
            decreases 4 - i,
        {
            entries.push(self.entry(i));
            i = i + 1;
        }
        let r = PartitionTable { entries };
        assert forall|i: int| 0 <= i < 4 implies #[trigger] r@[i] == self@.subrange(
            entry_offset(i),
            entry_offset(i) + 16,
        ) by {
            assert(r.entries@[i].wf());
        }
        r
    }
}

impl Default for TableEntry {
    /// An entry with every byte zero.
    fn default() -> (r: TableEntry)
        ensures
            r.wf(),
            forall|k: int| 0 <= k < 16 ==> r@[k] == 0,
    {
        TableEntry::new()
    }
}

impl Default for MasterBootRecord {
    /// A record with every byte zero: no bootstrap code, no disk signature,
    /// four empty partition entries and no boot signature.
    fn default() -> (r: MasterBootRecord)
        ensures
            r.wf(),
            forall|k: int| 0 <= k < 512 ==> r@[k] == 0,
    {
        MasterBootRecord::new()
    }
}

/// Why bytes could not be read as a Master Boot Record.
#[derive(Clone, Copy, Debug, PartialEq, Eq, Hash)]
pub enum MbrError {
    /// The bytes are not exactly one 512-byte sector.
    SizeMismatch,
}

impl MbrError {
    /// A sector of bytes is always aligned, so the only failure is its length.
    fn from_cast(_e: bytemuck::PodCastError) -> (r: MbrError)
        ensures
            r == MbrError::SizeMismatch,
    {
        MbrError::SizeMismatch
    }
}

} // verus!
