//! The BIOS parameter block: the geometry record of a FAT volume.

use crate::codec::{get_u16, get_u32, le_u16, le_u32};
use crate::error::FatError;
use vstd::prelude::*;

verus! {

/// The number of bytes of a boot sector that hold the parameter block.
pub const BOOT_SECTOR_SIZE: usize = 512;

/// The number of sectors that the root directory takes. Always the same.
pub const SECTORS_PER_ROOT: usize = 14;

/// BIOS parameter block describes the FAT filesystem.
#[derive(Clone, Copy, Debug, PartialEq, Eq, Structural)]
pub struct BIOSParam {
    pub bytes_per_sector: u16,
    pub sectors_per_cluster: u8,
    pub reserved_sectors: u16,
    pub fat_count: u8,
    pub max_roots: u16,
    pub sectors: u32,
    pub media_id: u8,
    pub sectors_per_fat: u32,
}

/// The parameter block that a boot sector spells. Each count is read at its
/// fixed offset; where the 16-bit sector count or FAT size is zero, the 32-bit
/// field further on takes its place.
pub open spec fn bpb_of(sector: Seq<u8>) -> BIOSParam {
    BIOSParam {
        bytes_per_sector: le_u16(sector, 11) as u16,
        sectors_per_cluster: sector[13],
        reserved_sectors: le_u16(sector, 14) as u16,
        fat_count: sector[16],
        max_roots: le_u16(sector, 17) as u16,
        sectors: if le_u16(sector, 19) == 0 {
            le_u32(sector, 32) as u32
        } else {
            le_u16(sector, 19) as u32
        },
        media_id: sector[21],
        sectors_per_fat: if le_u16(sector, 22) == 0 {
            le_u32(sector, 36) as u32
        } else {
            le_u16(sector, 22) as u32
        },
    }
}

impl BIOSParam {
    /// Whether the geometry is one that a FAT volume can have: at least one
    /// copy of the file allocation table, sectors of 512, 1024, 2048 or 4096
    /// bytes, and clusters of a power of two of sectors.
    pub open spec fn plausible(&self) -> bool {
        &&& self.fat_count >= 1
        &&& (self.bytes_per_sector == 512 || self.bytes_per_sector == 1024
            || self.bytes_per_sector == 2048 || self.bytes_per_sector == 4096)
        &&& (self.sectors_per_cluster == 1 || self.sectors_per_cluster == 2
            || self.sectors_per_cluster == 4 || self.sectors_per_cluster == 8
            || self.sectors_per_cluster == 16 || self.sectors_per_cluster == 32
            || self.sectors_per_cluster == 64 || self.sectors_per_cluster == 128)
    }

    /// The length in bytes of the volume that this block describes.
    pub open spec fn byte_len(&self) -> int {
        self.sectors * self.bytes_per_sector
    }

    /// The number of clusters of the volume that this block describes; zero
    /// where the cluster size is zero.
    pub open spec fn cluster_count(&self) -> int {
        if self.sectors_per_cluster == 0 {
            0
        } else {
            self.sectors as int / self.sectors_per_cluster as int
        }
    }

    /// The length in bytes of the reserved region, which starts the volume
    /// and holds the boot sector.
    pub open spec fn boot_len(&self) -> int {
        self.reserved_sectors * self.bytes_per_sector
    }

    /// The length in bytes of one copy of the file allocation table.
    pub open spec fn fat_len(&self) -> int {
        self.sectors_per_fat * self.bytes_per_sector
    }

    /// The length in bytes of the root directory.
    pub open spec fn root_len(&self) -> int {
        SECTORS_PER_ROOT * self.bytes_per_sector
    }

    /// The offset in bytes of the data area: the reserved region, two copies
    /// of the file allocation table and the root directory come before it.
    pub open spec fn data_offset(&self) -> int {
        self.boot_len() + 2 * self.fat_len() + self.root_len()
    }

    /// Create a new empty BIOS parameter block (BPB)
    pub fn new() -> (bpb: BIOSParam)
        ensures
            bpb == (BIOSParam {
                bytes_per_sector: 0,
                sectors_per_cluster: 0,
                reserved_sectors: 0,
                fat_count: 2,
                max_roots: 0,
                sectors: 0,
                media_id: 0,
                sectors_per_fat: 0,
            }),
    {
        BIOSParam {
            bytes_per_sector: 0,
            sectors_per_cluster: 0,
            reserved_sectors: 0,
            fat_count: 2,
            max_roots: 0,
            sectors: 0,
            media_id: 0,
            sectors_per_fat: 0,
        }
    }

    /// Tells whether the geometry is one that a FAT volume can have.
    pub fn is_plausible(&self) -> (plausible: bool)
        ensures
            plausible == self.plausible(),
    {
        let sector_size = self.bytes_per_sector;
        let cluster_size = self.sectors_per_cluster;
        self.fat_count >= 1 && (sector_size == 512 || sector_size == 1024 || sector_size == 2048
            || sector_size == 4096) && (cluster_size == 1 || cluster_size == 2 || cluster_size == 4
            || cluster_size == 8 || cluster_size == 16 || cluster_size == 32 || cluster_size == 64
            || cluster_size == 128)
    }

    /// Extract the BIOS Parameter Block (BPB) from the boot sector that starts
    /// at byte `offset` of `bytes`. A source that ends before the boot sector
    /// does, or a block whose geometry is not plausible (a sector size of
    /// zero, for one), is refused.
    pub fn parse(bytes: &[u8], offset: usize) -> (r: Result<BIOSParam, FatError>)
        ensures
            match r {
                Ok(bpb) => {
                    &&& offset + BOOT_SECTOR_SIZE <= bytes@.len()
                    &&& bpb == bpb_of(bytes@.skip(offset as int))
                    &&& bpb.plausible()
                },
                Err(e) => {
                    &&& e == FatError::Parse
                    &&& (offset + BOOT_SECTOR_SIZE > bytes@.len() || !bpb_of(
                        bytes@.skip(offset as int),
                    ).plausible())
                },
            },
    {
        if bytes.len() < BOOT_SECTOR_SIZE || offset > bytes.len() - BOOT_SECTOR_SIZE {
            return Err(FatError::Parse);
        }
        let ghost sector = bytes@.skip(offset as int);
        assert(forall|i: int| 0 <= i < BOOT_SECTOR_SIZE ==> sector[i] == bytes@[offset + i]);
        let bytes_per_sector = get_u16(bytes, offset + 11);
        let sectors_per_cluster = bytes[offset + 13];
        let reserved_sectors = get_u16(bytes, offset + 14);
        let fat_count = bytes[offset + 16];
        let max_roots = get_u16(bytes, offset + 17);
        let small_sectors = get_u16(bytes, offset + 19);
        let media_id = bytes[offset + 21];
        let small_fat = get_u16(bytes, offset + 22);
        let sectors = if small_sectors == 0 {
            // 4 byte sector count at 0x020
            get_u32(bytes, offset + 32)
        } else {
            small_sectors as u32
        };
        let sectors_per_fat = if small_fat == 0 {
            // 4 byte sectors per fat count at 0x024
            get_u32(bytes, offset + 36)
        } else {
            small_fat as u32
        };
        let params = BIOSParam {
            bytes_per_sector,
            sectors_per_cluster,
            reserved_sectors,
            fat_count,
            max_roots,
            sectors,
            media_id,
            sectors_per_fat,
        };
        if !params.is_plausible() {
            return Err(FatError::Parse);
        }
        Ok(params)
    }

    /// Reported length of FAT filesystem in bytes.
    pub fn len(&self) -> (n: usize)
        requires
            self.byte_len() <= usize::MAX,
        ensures
            n == self.byte_len(),
            n == self.sectors * self.bytes_per_sector,
    {
        self.sectors as usize * self.bytes_per_sector as usize
    }

    /// Reported number of clusters within FAT filesystem.
    pub fn clusters(&self) -> (n: usize)
        ensures
            n == self.cluster_count(),
            self.sectors_per_cluster > 0 ==> n == self.sectors as int
                / self.sectors_per_cluster as int,
            self.sectors_per_cluster == 0 ==> n == 0,
    {
        if self.sectors_per_cluster == 0 {
            return 0;
        }
        self.sectors as usize / self.sectors_per_cluster as usize
    }
}

} // verus!
