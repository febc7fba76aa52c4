//! Cluster chains: the clusters of a file, each linked to the next by its
//! entry in the file allocation table.

use crate::error::FatError;
use crate::fat::table::{
    entry_count, fat_entry, fat_entry_at, fat_entry_count, lemma_entry_in_table,
    lemma_write_then_read, with_fat_entry, END_OF_CHAIN,
};
use crate::fat::{cluster_num_is_valid, is_valid_cluster};
use vstd::prelude::*;

verus! {

/// A chain with `head` put in front of its clusters.
pub open spec fn prepend(head: Seq<u16>, chain: Option<(Seq<u16>, u16)>) -> Option<
    (Seq<u16>, u16),
> {
    match chain {
        Some((clusters, end)) => Some((head + clusters, end)),
        None => None,
    }
}

/// The chain that starts at `cluster`, followed through the table `fat` for
/// at most `fuel` clusters: the clusters in order, and the entry of the last
/// one, which is no valid link and so ends the chain. There is no such chain
/// where a cluster has no entry in the table, or where more than `fuel`
/// clusters are linked.
pub open spec fn chain_from(fat: Seq<u8>, cluster: u16, fuel: nat) -> Option<(Seq<u16>, u16)>
    decreases fuel,
{
    if fuel == 0 || cluster >= entry_count(fat.len() as int) {
        None
    } else {
        let next = fat_entry(fat, cluster as int);
        if is_valid_cluster(next) {
            prepend(seq![cluster], chain_from(fat, next, (fuel - 1) as nat))
        } else {
            Some((seq![cluster], next))
        }
    }
}

/// The chain that starts at `cluster` in the table `fat`, if it ends within
/// as many clusters as the table has entries.
pub open spec fn chain_of(fat: Seq<u8>, cluster: u16) -> Option<(Seq<u16>, u16)> {
    chain_from(fat, cluster, entry_count(fat.len() as int) as nat)
}

/// A chain starts with the cluster it was asked for, each of its clusters
/// has an entry in the table, which names the next one, every cluster after
/// the first is a valid link, and the chain ends with the first entry that
/// is none.
pub proof fn lemma_chain_links(fat: Seq<u8>, cluster: u16, fuel: nat)
    requires
        chain_from(fat, cluster, fuel) is Some,
    ensures
        ({
            let (clusters, end) = chain_from(fat, cluster, fuel)->Some_0;
            &&& 1 <= clusters.len() <= fuel
            &&& clusters[0] == cluster
            &&& forall|i: int|
                0 <= i < clusters.len() ==> (#[trigger] clusters[i]) < entry_count(
                    fat.len() as int,
                )
            &&& forall|i: int| 1 <= i < clusters.len() ==> is_valid_cluster(#[trigger] clusters[i])
            &&& forall|i: int|
                0 <= i < clusters.len() - 1 ==> fat_entry(fat, clusters[i] as int)
                    == #[trigger] clusters[i + 1]
            &&& end == fat_entry(fat, clusters.last() as int)
            &&& !is_valid_cluster(end)
        }),
    decreases fuel,
{
    let next = fat_entry(fat, cluster as int);
    if is_valid_cluster(next) {
        lemma_chain_links(fat, next, (fuel - 1) as nat);
        let (rest, end) = chain_from(fat, next, (fuel - 1) as nat)->Some_0;
        let clusters = seq![cluster] + rest;
        assert(chain_from(fat, cluster, fuel) == Some((clusters, end)));
        assert forall|i: int| 0 <= i < clusters.len() implies (#[trigger] clusters[i])
            < entry_count(fat.len() as int) by {
            if i > 0 {
                assert(clusters[i] == rest[i - 1]);
            }
        }
        assert forall|i: int| 1 <= i < clusters.len() implies is_valid_cluster(
            #[trigger] clusters[i],
        ) by {
            assert(clusters[i] == rest[i - 1]);
        }
        assert forall|i: int| 0 <= i < clusters.len() - 1 implies fat_entry(
            fat,
            clusters[i] as int,
        ) == #[trigger] clusters[i + 1] by {
            assert(clusters[i + 1] == rest[i]);
            if i > 0 {
                assert(clusters[i] == rest[i - 1]);
                assert(fat_entry(fat, rest[i - 1] as int) == rest[i - 1 + 1]);
            } else {
                assert(rest[0] == next);
            }
        }
        assert(clusters.last() == rest.last());
    }
}

/// Every reachable cluster of a chain that starts at a valid cluster is a
/// valid link: at least 2 and below `0xFF0`. The chain ends with the first
/// value outside that range.
pub proof fn lemma_chain_valid(fat: Seq<u8>, cluster: u16, fuel: nat)
    requires
        chain_from(fat, cluster, fuel) is Some,
        is_valid_cluster(cluster),
    ensures
        forall|i: int|
            0 <= i < chain_from(fat, cluster, fuel)->Some_0.0.len() ==> is_valid_cluster(
                #[trigger] chain_from(fat, cluster, fuel)->Some_0.0[i],
            ),
        !is_valid_cluster(chain_from(fat, cluster, fuel)->Some_0.1),
{
    lemma_chain_links(fat, cluster, fuel);
}

/// Follows the chain that starts at `first` through the table `fat`. A chain
/// that leaves the table, or that links more clusters than the table has
/// entries, is out of bounds.
pub fn follow_chain(fat: &[u8], first: u16) -> (r: Result<(Vec<u16>, u16), FatError>)
    ensures
        match r {
            Ok((clusters, end)) => chain_of(fat@, first) == Some((clusters@, end)),
            Err(e) => e == FatError::Bounds && chain_of(fat@, first) is None,
        },
{
    let count = fat_entry_count(fat.len());
    let mut clusters: Vec<u16> = Vec::new();
    let mut cluster = first;
    let mut left = count;
    assert(chain_of(fat@, first) == prepend(clusters@, chain_from(fat@, cluster, left as nat))) by {
        let whole = chain_from(fat@, cluster, left as nat);
        if whole is Some {
            assert(clusters@ + whole->Some_0.0 =~= whole->Some_0.0);
        }
    }
    loop
        invariant
            count == entry_count(fat@.len() as int),
            left <= count,
            chain_of(fat@, first) == prepend(clusters@, chain_from(fat@, cluster, left as nat)),
        decreases left,
    {
        if left == 0 || cluster as usize >= count {
            return Err(FatError::Bounds);
        }
        let next_cluster = fat_entry_at(fat, cluster as usize);
        let ghost before = clusters@;
        clusters.push(cluster);
        if !cluster_num_is_valid(next_cluster) {
            assert(before + seq![cluster] =~= clusters@);
            return Ok((clusters, next_cluster));
        }
        proof {
            let rest = chain_from(fat@, next_cluster, (left - 1) as nat);
            if rest is Some {
                assert(before + (seq![cluster] + rest->Some_0.0) =~= clusters@ + rest->Some_0.0);
            }
        }
        cluster = next_cluster;
        left -= 1;
    }
}

/// What the entry of the cluster `chain[i]` holds once the chain is linked:
/// the next cluster of the chain, or the mark that ends it.
pub open spec fn link_of(chain: Seq<u16>, i: int) -> u16 {
    if i + 1 < chain.len() {
        chain[i + 1]
    } else {
        END_OF_CHAIN
    }
}

/// The table `fat` with the first `n` clusters of `chain` linked.
pub open spec fn linked(fat: Seq<u8>, chain: Seq<u16>, n: int) -> Seq<u8>
    decreases n,
{
    if n <= 0 {
        fat
    } else {
        with_fat_entry(linked(fat, chain, n - 1), chain[n - 1] as int, link_of(chain, n - 1))
    }
}

/// Whether `chain` holds clusters of the table `fat` in ascending order, each
/// a valid link.
pub open spec fn is_ascending_chain(fat: Seq<u8>, chain: Seq<u16>) -> bool {
    &&& forall|i: int|
        0 <= i < chain.len() ==> is_valid_cluster(#[trigger] chain[i]) && chain[i] < entry_count(
            fat.len() as int,
        )
    &&& forall|i: int, j: int| 0 <= i < j < chain.len() ==> chain[i] < chain[j]
}

/// Cluster `i` of an ascending chain has at least the number `i + 2`, so a
/// chain is shorter than its table.
pub proof fn lemma_chain_is_short(fat: Seq<u8>, chain: Seq<u16>, i: int)
    requires
        is_ascending_chain(fat, chain),
        0 <= i < chain.len(),
    ensures
        chain[i] >= i + 2,
        i + 2 < entry_count(fat.len() as int),
    decreases i,
{
    if i > 0 {
        lemma_chain_is_short(fat, chain, i - 1);
    }
}

/// Linking clusters that have entries in the table keeps the table's length.
pub proof fn lemma_linked_len(fat: Seq<u8>, chain: Seq<u16>, n: int)
    requires
        0 <= n <= chain.len(),
        forall|i: int| 0 <= i < chain.len() ==> chain[i] < entry_count(fat.len() as int),
    ensures
        linked(fat, chain, n).len() == fat.len(),
    decreases n,
{
    if n > 0 {
        lemma_linked_len(fat, chain, n - 1);
        lemma_entry_in_table(fat.len() as int, chain[n - 1] as int);
    }
}

/// Once the first `n` clusters of an ascending chain are linked, the entry
/// of each of them holds its link, and every other entry of the table is as
/// it was.
pub proof fn lemma_linked_entries(fat: Seq<u8>, chain: Seq<u16>, n: int)
    requires
        is_ascending_chain(fat, chain),
        0 <= n <= chain.len(),
    ensures
        linked(fat, chain, n).len() == fat.len(),
        forall|i: int|
            0 <= i < n ==> fat_entry(linked(fat, chain, n), (#[trigger] chain[i]) as int)
                == link_of(chain, i),
        forall|m: int|
            0 <= m < entry_count(fat.len() as int) && (forall|i: int|
                0 <= i < n ==> #[trigger] chain[i] != m) ==> fat_entry(linked(fat, chain, n), m)
                == fat_entry(fat, m),
    decreases n,
{
    if n > 0 {
        lemma_linked_entries(fat, chain, n - 1);
        let before = linked(fat, chain, n - 1);
        let cluster = chain[n - 1] as int;
        let link = link_of(chain, n - 1);
        assert(link <= 0x0fff) by {
            if n < chain.len() {
                assert(is_valid_cluster(chain[n]));
            }
        }
        lemma_write_then_read(before, cluster, link);
        let after = linked(fat, chain, n);
        assert(after == with_fat_entry(before, cluster, link));
        assert forall|i: int| 0 <= i < n implies fat_entry(after, (#[trigger] chain[i]) as int)
            == link_of(chain, i) by {
            if i < n - 1 {
                assert(chain[i] < chain[n - 1]);
            }
        }
        assert forall|m: int|
            0 <= m < entry_count(fat.len() as int) && (forall|i: int|
                0 <= i < n ==> #[trigger] chain[i] != m) implies fat_entry(after, m) == fat_entry(
            fat,
            m,
        ) by {
            assert(chain[n - 1] != m);
            assert forall|i: int| 0 <= i < n - 1 implies #[trigger] chain[i] != m by {}
        }
    }
}

/// In a table that holds the links of an ascending chain, the walk from
/// cluster `i` of the chain gives the rest of the chain and the mark that
/// ends it.
pub proof fn lemma_walk_linked(table: Seq<u8>, chain: Seq<u16>, i: int, fuel: nat)
    requires
        is_ascending_chain(table, chain),
        0 <= i < chain.len(),
        fuel >= chain.len() - i,
        forall|j: int|
            0 <= j < chain.len() ==> fat_entry(table, (#[trigger] chain[j]) as int) == link_of(
                chain,
                j,
            ),
    ensures
        chain_from(table, chain[i], fuel) == Some((chain.skip(i), END_OF_CHAIN)),
    decreases chain.len() - i,
{
    let next = fat_entry(table, chain[i] as int);
    assert(next == link_of(chain, i));
    if i + 1 < chain.len() {
        assert(is_valid_cluster(chain[i + 1]));
        lemma_walk_linked(table, chain, i + 1, (fuel - 1) as nat);
        assert(seq![chain[i]] + chain.skip(i + 1) =~= chain.skip(i));
    } else {
        assert(seq![chain[i]] =~= chain.skip(i));
    }
}

} // verus!
