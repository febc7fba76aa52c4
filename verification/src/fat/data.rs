//! The data area: the sectors of the clusters, and the bytes of files in
//! them.

use crate::codec::{chunk, chunk_count, lemma_chunk_len, overwrite, zeros};
use vstd::prelude::*;

verus! {

/// The sector that holds run `i` of `data`: the run, and zeros up to the
/// sector's end.
pub open spec fn sector_of(data: Seq<u8>, bytes_per_sector: int, i: int) -> Seq<u8> {
    chunk(data, bytes_per_sector, i) + zeros(
        bytes_per_sector - chunk(data, bytes_per_sector, i).len(),
    )
}

/// The data area `area` with the first `n` runs of `data` stored, run `i` in
/// the sector of the cluster `chain[i]`.
pub open spec fn stored(
    area: Seq<u8>,
    bytes_per_sector: int,
    chain: Seq<u16>,
    data: Seq<u8>,
    n: int,
) -> Seq<u8>
    decreases n,
{
    if n <= 0 {
        area
    } else {
        overwrite(
            stored(area, bytes_per_sector, chain, data, n - 1),
            (chain[n - 1] - 2) * bytes_per_sector,
            sector_of(data, bytes_per_sector, n - 1),
        )
    }
}

/// The sector of the cluster `cluster` in the data area `area`. The data area
/// starts with cluster 2, and a cluster is one sector long.
pub open spec fn sector_at(area: Seq<u8>, bytes_per_sector: int, cluster: int) -> Seq<u8> {
    area.subrange(
        (cluster - 2) * bytes_per_sector,
        (cluster - 2) * bytes_per_sector + bytes_per_sector,
    )
}

/// The sectors of `clusters` in the data area, one after the other.
pub open spec fn chain_bytes(area: Seq<u8>, bytes_per_sector: int, clusters: Seq<u16>) -> Seq<u8>
    decreases clusters.len(),
{
    if clusters.len() == 0 {
        Seq::empty()
    } else {
        chain_bytes(area, bytes_per_sector, clusters.drop_last()) + sector_at(
            area,
            bytes_per_sector,
            clusters.last() as int,
        )
    }
}

/// The first `n` runs of `data`, each filled up with zeros to a sector, one
/// after the other.
pub open spec fn sectors_of(data: Seq<u8>, size: int, n: int) -> Seq<u8>
    decreases n,
{
    if n <= 0 {
        Seq::empty()
    } else {
        sectors_of(data, size, n - 1) + sector_of(data, size, n - 1)
    }
}

/// The sector of a run is exactly one sector long.
pub proof fn lemma_sector_len(data: Seq<u8>, size: int, i: int)
    requires
        0 < size,
        0 <= i < chunk_count(data.len() as int, size),
    ensures
        sector_of(data, size, i).len() == size,
{
    lemma_chunk_len(data, size, i);
}

/// Storing runs in sectors that lie in the data area keeps the area's length.
pub proof fn lemma_stored_len(
    area: Seq<u8>,
    bytes_per_sector: int,
    chain: Seq<u16>,
    data: Seq<u8>,
    n: int,
)
    requires
        0 <= n <= chain.len(),
        0 < bytes_per_sector,
        n <= chunk_count(data.len() as int, bytes_per_sector),
        forall|i: int|
            0 <= i < chain.len() ==> 2 <= chain[i] && (chain[i] - 2) * bytes_per_sector
                + bytes_per_sector <= area.len(),
    ensures
        stored(area, bytes_per_sector, chain, data, n).len() == area.len(),
    decreases n,
{
    if n > 0 {
        lemma_stored_len(area, bytes_per_sector, chain, data, n - 1);
        lemma_sector_len(data, bytes_per_sector, n - 1);
        assert(0 <= (chain[n - 1] - 2) * bytes_per_sector) by (nonlinear_arith)
            requires
                2 <= chain[n - 1],
                0 < bytes_per_sector,
        ;
    }
}

/// Once the first `n` runs are stored, the sector of each of the first `n`
/// clusters holds its run, filled up with zeros.
pub proof fn lemma_stored_sectors(
    area: Seq<u8>,
    size: int,
    chain: Seq<u16>,
    data: Seq<u8>,
    n: int,
)
    requires
        0 < size,
        0 <= n <= chain.len(),
        n <= chunk_count(data.len() as int, size),
        forall|i: int, j: int| 0 <= i < j < chain.len() ==> chain[i] < chain[j],
        forall|i: int|
            0 <= i < chain.len() ==> 2 <= #[trigger] chain[i] && (chain[i] - 2) * size + size
                <= area.len(),
    ensures
        stored(area, size, chain, data, n).len() == area.len(),
        forall|i: int|
            0 <= i < n ==> stored(area, size, chain, data, n).subrange(
                ((#[trigger] chain[i]) - 2) * size,
                (chain[i] - 2) * size + size,
            ) == sector_of(data, size, i),
    decreases n,
{
    if n > 0 {
        lemma_stored_sectors(area, size, chain, data, n - 1);
        lemma_sector_len(data, size, n - 1);
        let before = stored(area, size, chain, data, n - 1);
        let after = stored(area, size, chain, data, n);
        let sector = sector_of(data, size, n - 1);
        let at = (chain[n - 1] - 2) * size;
        assert(0 <= at) by (nonlinear_arith)
            requires
                at == (chain[n - 1] - 2) * size,
                2 <= chain[n - 1],
                0 < size,
        ;
        assert(after == overwrite(before, at, sector));
        assert forall|i: int| 0 <= i < n implies after.subrange(
            ((#[trigger] chain[i]) - 2) * size,
            (chain[i] - 2) * size + size,
        ) == sector_of(data, size, i) by {
            let from = (chain[i] - 2) * size;
            if i == n - 1 {
                assert(after.subrange(from, from + size) =~= sector);
            } else {
                assert(chain[i] < chain[n - 1]);
                assert(0 <= from && from + size <= at) by (nonlinear_arith)
                    requires
                        from == (chain[i] - 2) * size,
                        at == (chain[n - 1] - 2) * size,
                        2 <= chain[i] < chain[n - 1],
                        0 < size,
                ;
                assert(after.subrange(from, from + size) =~= before.subrange(from, from + size));
            }
        }
    }
}

/// The sectors of the runs of `data` start with `data`: before the last run
/// nothing is filled up.
pub proof fn lemma_sectors_hold_data(data: Seq<u8>, size: int, n: int)
    requires
        0 < size,
        0 <= n <= chunk_count(data.len() as int, size),
    ensures
        sectors_of(data, size, n).len() == n * size,
        n < chunk_count(data.len() as int, size) ==> n * size <= data.len() && sectors_of(
            data,
            size,
            n,
        ) == data.take(n * size),
        n == chunk_count(data.len() as int, size) ==> data.len() <= n * size && sectors_of(
            data,
            size,
            n,
        ).take(data.len() as int) == data,
    decreases n,
{
    let count = chunk_count(data.len() as int, size);
    if n == 0 {
        assert(sectors_of(data, size, 0) =~= data.take(0));
        assert(0 * size == 0);
        if count == 0 {
            assert(data.len() == 0) by (nonlinear_arith)
                requires
                    (data.len() + size - 1) / size == 0,
                    0 < size,
            ;
            assert(sectors_of(data, size, 0).take(0) =~= data);
        }
    } else {
        lemma_sectors_hold_data(data, size, n - 1);
        lemma_chunk_len(data, size, n - 1);
        let head = sectors_of(data, size, n - 1);
        let run = chunk(data, size, n - 1);
        assert(n * size == (n - 1) * size + size) by (nonlinear_arith);
        assert(head == data.take((n - 1) * size));
        if n < count {
            lemma_chunk_len(data, size, n);
            assert(run.len() == size);
            assert(sector_of(data, size, n - 1) =~= run);
            assert(sectors_of(data, size, n) =~= data.take(n * size));
        } else {
            assert(count * size >= data.len()) by (nonlinear_arith)
                requires
                    count == (data.len() + size - 1) / size,
                    0 < size,
            ;
            assert(run =~= data.subrange((n - 1) * size, data.len() as int));
            assert(sectors_of(data, size, n).take(data.len() as int) =~= data);
        }
    }
}

/// The sectors of the first `n` clusters of a chain are the sectors of the
/// first `n` runs of the data that was stored in them.
pub proof fn lemma_chain_bytes(
    area: Seq<u8>,
    size: int,
    chain: Seq<u16>,
    data: Seq<u8>,
    n: int,
)
    requires
        0 <= n <= chain.len(),
        forall|i: int|
            0 <= i < n ==> sector_at(area, size, (#[trigger] chain[i]) as int) == sector_of(
                data,
                size,
                i,
            ),
    ensures
        chain_bytes(area, size, chain.take(n)) == sectors_of(data, size, n),
    decreases n,
{
    if n > 0 {
        lemma_chain_bytes(area, size, chain, data, n - 1);
        assert(chain.take(n).drop_last() =~= chain.take(n - 1));
        assert(chain.take(n).last() == chain[n - 1]);
    }
}

/// A run filled up with zeros to `size` bytes.
pub fn pad_sector(run: &[u8], size: usize) -> (sector: Vec<u8>)
    requires
        run@.len() <= size,
    ensures
        sector@ == run@ + zeros(size - run@.len()),
{
    let mut sector: Vec<u8> = Vec::new();
    let mut i: usize = 0;
    while i < size
        invariant
            i <= size,
            run@.len() <= size,
            sector@.len() == i,
            forall|k: int| 0 <= k < i ==> sector@[k] == (run@ + zeros(size - run@.len()))[k],
        decreases size - i,
    {
        if i < run.len() {
            sector.push(run[i]);
        } else {
            sector.push(0);
        }
        i += 1;
    }
    assert(sector@ =~= run@ + zeros(size - run@.len()));
    sector
}

} // verus!
