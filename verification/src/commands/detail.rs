//! The details of one file: its directory entry and its cluster chain.

use crate::error::FatError;
use crate::fat::chain::chain_of;
use crate::fat::directory::{has_named, is_first_named};
use crate::fat::{Image, RootEntry};
use crate::text::{hex, hex_text};
use vstd::prelude::*;
use vstd::string::StringExecFns;
use vstd::utf8::encode_utf8;

verus! {

/// The number of clusters that one line of a chain shows.
pub const CLUSTER_NUMS_PER_LINE: usize = 8;

/// What is shown of a file: its directory entry, the clusters of its chain in
/// order, and the entry of the file allocation table that ends the chain.
#[derive(Debug)]
pub struct FileDetail {
    pub entry: RootEntry,
    pub clusters: Vec<u16>,
    pub terminator: u16,
}

/// Looks up the live entry that goes by `filename` and follows its cluster
/// chain from the entry's first cluster to the first table entry that is no
/// valid link.
pub fn detail_file(image: &Image, filename: String) -> (r: Result<FileDetail, FatError>)
    ensures
        match r {
            Ok(detail) => {
                &&& exists|i: int|
                    is_first_named(image@.live(), encode_utf8(filename@), i) && image@.live()[i]
                        == detail.entry
                &&& chain_of(image@.fat_1, detail.entry.first_logical_cluster) == Some(
                    (detail.clusters@, detail.terminator),
                )
            },
            Err(e) => {
                ||| e == FatError::NotFound && !has_named(image@.live(), encode_utf8(filename@))
                ||| e == FatError::Bounds && exists|i: int|
                    is_first_named(image@.live(), encode_utf8(filename@), i) && chain_of(
                        image@.fat_1,
                        image@.live()[i].first_logical_cluster,
                    ) is None
            },
        },
{
    let file_metadata = image.get_file_entry(filename)?;
    let (clusters, terminator) = image.cluster_chain(file_metadata.first_logical_cluster)?;
    Ok(FileDetail { entry: file_metadata, clusters, terminator })
}

/// The clusters of one line: each in hexadecimal digits and followed by a
/// tab.
pub open spec fn chain_line_text(clusters: Seq<u16>) -> Seq<char>
    decreases clusters.len(),
{
    if clusters.len() == 0 {
        Seq::empty()
    } else {
        chain_line_text(clusters.drop_last()) + hex_text(clusters.last() as nat) + "\t"@
    }
}

/// The number of lines that `count` clusters take.
pub open spec fn chain_line_count(count: int) -> int {
    (count + CLUSTER_NUMS_PER_LINE - 1) / (CLUSTER_NUMS_PER_LINE as int)
}

/// The clusters that line `k` of a chain shows.
pub open spec fn line_clusters(clusters: Seq<u16>, k: int) -> Seq<u16> {
    clusters.subrange(
        k * CLUSTER_NUMS_PER_LINE,
        if (k + 1) * CLUSTER_NUMS_PER_LINE <= clusters.len() {
            (k + 1) * CLUSTER_NUMS_PER_LINE
        } else {
            clusters.len() as int
        },
    )
}

impl FileDetail {
    /// Writes the cluster chain out line by line: the clusters in order, eight
    /// to a line, and on a line of its own the entry that ends the chain.
    pub fn chain_lines(&self) -> (lines: Vec<String>)
        ensures
            lines@.len() == chain_line_count(self.clusters@.len() as int) + 1,
            forall|k: int|
                0 <= k < lines@.len() - 1 ==> (#[trigger] lines@[k])@ == chain_line_text(
                    line_clusters(self.clusters@, k),
                ),
            lines@[lines@.len() - 1]@ == hex_text(self.terminator as nat),
    {
        let count = self.clusters.len();
        let mut lines: Vec<String> = Vec::new();
        let mut line = String::new();
        let mut i: usize = 0;
        let ghost clusters = self.clusters@;
        assert(clusters.subrange(0, 0) =~= Seq::<u16>::empty());
        while i < count
            invariant
                i <= count,
                count == clusters.len(),
                clusters == self.clusters@,
                lines@.len() == i / CLUSTER_NUMS_PER_LINE,
                forall|k: int|
                    0 <= k < lines@.len() ==> (#[trigger] lines@[k])@ == chain_line_text(
                        line_clusters(clusters, k),
                    ),
                line@ == chain_line_text(
                    clusters.subrange(
                        (i / CLUSTER_NUMS_PER_LINE) * CLUSTER_NUMS_PER_LINE,
                        i as int,
                    ),
                ),
            decreases count - i,
        {
            let ghost start = (i / CLUSTER_NUMS_PER_LINE) * CLUSTER_NUMS_PER_LINE;
            assert(clusters.subrange(start, i + 1).drop_last() =~= clusters.subrange(
                start,
                i as int,
            ));
            line.append(hex(self.clusters[i] as u64).as_str());
            line.append("\t");
            i += 1;
            if i % CLUSTER_NUMS_PER_LINE == 0 {
                assert(line_clusters(clusters, start / CLUSTER_NUMS_PER_LINE as int)
                    =~= clusters.subrange(start, i as int));
                lines.push(line);
                line = String::new();
                assert(clusters.subrange(i as int, i as int) =~= Seq::<u16>::empty());
            }
        }
        if count % CLUSTER_NUMS_PER_LINE != 0 {
            let ghost start = (count / CLUSTER_NUMS_PER_LINE) * CLUSTER_NUMS_PER_LINE;
            assert(line_clusters(clusters, start / CLUSTER_NUMS_PER_LINE as int)
                =~= clusters.subrange(start, count as int));
            lines.push(line);
        }
        lines.push(hex(self.terminator as u64));
        lines
    }
}

} // verus!
