//! The on-disk structures of a FAT12 volume.

use vstd::prelude::*;

pub mod bios_param;
pub mod chain;
pub mod data;
pub mod directory;
pub mod image;
pub mod names;
pub mod root_entry;
pub mod table;

pub use self::bios_param::BIOSParam;
pub use self::image::Image;
pub use self::root_entry::RootEntry;

verus! {

/// Whether `cluster_num` can stand in a chain as a link to a data cluster.
/// Clusters 0 and 1 are reserved, and the values from `0xFF0` on mark reserved
/// clusters, bad clusters and the end of a chain.
pub open spec fn is_valid_cluster(cluster_num: u16) -> bool {
    2 <= cluster_num && cluster_num < 0xff0
}

/// Tells whether `cluster_num` is a valid forward link.
#[verifier::when_used_as_spec(is_valid_cluster)]
pub fn cluster_num_is_valid(cluster_num: u16) -> (valid: bool)
    ensures
        valid == is_valid_cluster(cluster_num),
{
    2 <= cluster_num && cluster_num < 0xff0
}

} // verus!
