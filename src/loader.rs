//! What the first stage does with the partition table: whether there is a
//! second stage to load, and the disk reads that load it sector by sector.
use vstd::prelude::*;
use crate::layout::{le16, le32, le64, write_u16_le, write_u32_le};
use crate::mbr::{TableEntry, flag_bootable};

verus! {

/// A disk address packet: one request to the BIOS to read sectors from a
/// disk, by logical block address, into memory at `target_segment:target_offset`.
#[derive(Clone, Copy, Debug, PartialEq, Eq, Hash)]
pub struct DiskAddressPacket {
    /// Size of the packet, always 16.
    pub size: u8,
    /// Always zero.
    pub zero: u8,
    /// How many sectors to read.
    pub sectors: u16,
    pub target_offset: u16,
    pub target_segment: u16,
    /// The first block to read.
    pub start_lba: u64,
}

impl DiskAddressPacket {
    /// A packet that reads `sectors` sectors from `start_lba` on into memory at
    /// `target_segment:target_offset`.
    pub fn from_lba(start_lba: u64, sectors: u16, target_offset: u16, target_segment: u16) -> (r:
        DiskAddressPacket)
        ensures
            r == (DiskAddressPacket {
                size: 16,
                zero: 0,
                sectors,
                target_offset,
                target_segment,
                start_lba,
            }),
    {
        DiskAddressPacket { size: 0x10, zero: 0, sectors, target_offset, target_segment, start_lba }
    }

    /// The packet's 16 bytes, as the BIOS reads them.
    pub fn to_bytes(&self) -> (r: Vec<u8>)
        ensures
            r@.len() == 16,
            r@[0] == self.size,
            r@[1] == self.zero,
            le16(r@, 2) == self.sectors,
            le16(r@, 4) == self.target_offset,
            le16(r@, 6) == self.target_segment,
            le64(r@, 8) == self.start_lba,
    {
        let mut b: Vec<u8> = vec![0u8; 16];
        b.set(0, self.size);
        b.set(1, self.zero);
        write_u16_le(&mut b, 2, self.sectors);
        write_u16_le(&mut b, 4, self.target_offset);
        write_u16_le(&mut b, 6, self.target_segment);
        let low: u32 = (self.start_lba % 0x1_0000_0000) as u32;
        let high: u32 = (self.start_lba / 0x1_0000_0000) as u32;
        write_u32_le(&mut b, 8, low);
        let ghost b1 = b@;
        write_u32_le(&mut b, 12, high);
        proof {
            assert(le32(b@, 8) == le32(b1, 8)) by {
                assert(b@[8] == b1[8] && b@[9] == b1[9] && b@[10] == b1[10] && b@[11] == b1[11]);
            }
            assert(le64(b@, 8) == low + 4294967296 * high);
            assert(self.start_lba == low + 4294967296 * high);
        }
        b
    }
}

/// Whether the first stage finds a second stage in `entry`: the entry is
/// bootable and not empty.
pub fn has_stage_2(entry: &TableEntry) -> (r: bool)
    requires
        entry.wf(),
    ensures
        r == (flag_bootable(entry@[0]) && entry.spec_sector_len() != 0),
{
    entry.is_bootable() && entry.sector_len() != 0
}

/// The packet that loads sector `k` of the second stage, whose first sector
/// is block `lba` and goes to address `target`.
pub open spec fn load_packet(lba: u64, target: u32, k: int) -> DiskAddressPacket {
    let addr = target + 512 * k;
    DiskAddressPacket {
        size: 16,
        zero: 0,
        sectors: 1,
        target_offset: (addr % 65536) as u16,
        target_segment: ((addr / 65536) % 65536) as u16,
        start_lba: ((lba + k) % 0x1_0000_0000_0000_0000) as u64,
    }
}

/// The reads that load the second stage described by `entry` to address
/// `target`, one sector each. The first stage counts sectors in 16 bits, so
/// only the low 16 bits of the entry's length are read.
pub fn load_plan(entry: &TableEntry, target: u32) -> (r: Vec<DiskAddressPacket>)
    requires
        entry.wf(),
    ensures
        r@.len() == entry.spec_sector_len() % 65536,
        forall|k: int|
            0 <= k < r@.len() ==> #[trigger] r@[k] == load_packet(entry.spec_start_lba() as u64, target, k),
{
    let count: u16 = (entry.sector_len() % 65536) as u16;
    let lba: u64 = entry.start_lba() as u64;
    let mut plan: Vec<DiskAddressPacket> = Vec::new();
    let mut k: u16 = 0;
    while k < count
        invariant
            k <= count,
            lba == entry.spec_start_lba(),
            plan@.len() == k,
            forall|j: int| 0 <= j < k ==> #[trigger] plan@[j] == load_packet(lba, target, j),
        decreases count - k,
    {
        let addr: u64 = target as u64 + 512 * (k as u64);
        let packet = DiskAddressPacket::from_lba(
            lba + k as u64,
            1,
            (addr % 65536) as u16,
            ((addr / 65536) % 65536) as u16,
        );
        plan.push(packet);
        k = k + 1;
    }
    plan
}

} // verus!
