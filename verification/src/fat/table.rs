//! The file allocation table of FAT12: 12-bit entries, two of them packed
//! into every three bytes.

use crate::error::FatError;
use vstd::prelude::*;

verus! {

/// The value of an entry whose cluster is free.
pub const FREE_CLUSTER: u16 = 0x000;

/// The mark that ends a chain.
pub const END_OF_CHAIN: u16 = 0xfff;

/// The number of whole entries in a table of `fat_len` bytes.
pub open spec fn entry_count(fat_len: int) -> int {
    fat_len * 8 / 12
}

/// The index of the first of the two bytes that hold entry `n`.
pub open spec fn entry_offset(n: int) -> int {
    n * 3 / 2
}

/// The 12 bits of entry `n`, out of its two bytes `b1` and `b2`.
pub open spec fn unpack(n: int, b1: u8, b2: u8) -> u16 {
    if n % 2 == 0 {
        (b1 as u16) | (((b2 as u16) & 0x0f) << 8)
    } else {
        (((b1 as u16) >> 4) | ((b2 as u16) << 4)) & 0x0fff
    }
}

/// The first byte of entry `n` once it holds `value`, where it held `b1`.
pub open spec fn pack_first(n: int, b1: u8, value: u16) -> u8 {
    if n % 2 == 0 {
        (value & 0xff) as u8
    } else {
        (b1 & 0x0f) | (((value & 0x0f) << 4) as u8)
    }
}

/// The second byte of entry `n` once it holds `value`, where it held `b2`.
pub open spec fn pack_second(n: int, b2: u8, value: u16) -> u8 {
    if n % 2 == 0 {
        (b2 & 0xf0) | (((value >> 8) & 0x0f) as u8)
    } else {
        ((value >> 4) & 0xff) as u8
    }
}

/// Entry `n` of the table `fat`.
pub open spec fn fat_entry(fat: Seq<u8>, n: int) -> u16 {
    unpack(n, fat[entry_offset(n)], fat[entry_offset(n) + 1])
}

/// The table `fat` with the low 12 bits of `value` stored in entry `n`. The
/// half byte that entry `n` shares with its neighbour keeps the neighbour's
/// bits.
pub open spec fn with_fat_entry(fat: Seq<u8>, n: int, value: u16) -> Seq<u8> {
    let at = entry_offset(n);
    fat.update(at, pack_first(n, fat[at], value)).update(
        at + 1,
        pack_second(n, fat[at + 1], value),
    )
}

/// Whether `n` is the first entry from cluster 2 on, below `limit`, that
/// marks its cluster as free.
pub open spec fn is_first_free(fat: Seq<u8>, limit: int, n: int) -> bool {
    &&& 2 <= n < limit
    &&& fat_entry(fat, n) == FREE_CLUSTER
    &&& forall|m: int| 2 <= m < n ==> fat_entry(fat, m) != FREE_CLUSTER
}

/// Whether no entry from cluster 2 on, below `limit`, marks its cluster as
/// free.
pub open spec fn none_free(fat: Seq<u8>, limit: int) -> bool {
    forall|m: int| 2 <= m < limit ==> fat_entry(fat, m) != FREE_CLUSTER
}

/// An even entry reads back as written, and the odd entry after it keeps its
/// bits.
proof fn lemma_pack_even(b1: u8, b2: u8, b3: u8, value: u16)
    by (bit_vector)
    ensures
        ((((value & 0xff) as u8) as u16) | (((((b2 & 0xf0) | (((value >> 8) & 0x0f) as u8))
            as u16) & 0x0f) << 8)) == value & 0x0fff,
        ((((((b2 & 0xf0) | (((value >> 8) & 0x0f) as u8)) as u16) >> 4) | ((b3 as u16) << 4))
            & 0x0fff) == ((((b2 as u16) >> 4) | ((b3 as u16) << 4)) & 0x0fff),
{
}

/// An odd entry reads back as written, and the even entry before it keeps its
/// bits.
proof fn lemma_pack_odd(b0: u8, b1: u8, b2: u8, value: u16)
    by (bit_vector)
    ensures
        ((((((b1 & 0x0f) | (((value & 0x0f) << 4) as u8)) as u16) >> 4) | (((((value >> 4)
            & 0xff) as u8) as u16) << 4)) & 0x0fff) == value & 0x0fff,
        ((b0 as u16) | (((((b1 & 0x0f) | (((value & 0x0f) << 4) as u8)) as u16) & 0x0f) << 8))
            == ((b0 as u16) | (((b1 as u16) & 0x0f) << 8)),
{
}

/// Two bytes unpack to 12 bits.
proof fn lemma_unpack_bound(n: int, b1: u8, b2: u8)
    ensures
        unpack(n, b1, b2) <= 0x0fff,
{
    assert(((b1 as u16) | (((b2 as u16) & 0x0f) << 8)) <= 0x0fff) by (bit_vector);
    assert(((((b1 as u16) >> 4) | ((b2 as u16) << 4)) & 0x0fff) <= 0x0fff) by (bit_vector);
}

/// Every entry has 12 bits.
pub proof fn lemma_fat_entry_bound(fat: Seq<u8>, n: int)
    ensures
        fat_entry(fat, n) <= 0x0fff,
{
    lemma_unpack_bound(n, fat[entry_offset(n)], fat[entry_offset(n) + 1]);
}

/// The two bytes of every entry lie inside the table.
pub proof fn lemma_entry_in_table(fat_len: int, n: int)
    requires
        0 <= n < entry_count(fat_len),
    ensures
        0 <= entry_offset(n),
        entry_offset(n) + 1 < fat_len,
{
}

/// Writing an entry and reading it back gives the 12 bits that were written,
/// and every other entry of the table reads as before.
pub proof fn lemma_write_then_read(fat: Seq<u8>, n: int, value: u16)
    requires
        0 <= n < entry_count(fat.len() as int),
    ensures
        with_fat_entry(fat, n, value).len() == fat.len(),
        fat_entry(with_fat_entry(fat, n, value), n) == value & 0x0fff,
        value <= 0x0fff ==> fat_entry(with_fat_entry(fat, n, value), n) == value,
        forall|m: int|
            0 <= m < entry_count(fat.len() as int) && m != n ==> fat_entry(
                with_fat_entry(fat, n, value),
                m,
            ) == fat_entry(fat, m),
{
    let at = entry_offset(n);
    let written = with_fat_entry(fat, n, value);
    assert(value <= 0x0fff ==> value & 0x0fff == value) by (bit_vector);
    if n % 2 == 0 {
        lemma_pack_even(fat[at], fat[at + 1], 0, value);
    } else {
        lemma_pack_odd(0, fat[at], fat[at + 1], value);
    }
    assert forall|m: int| 0 <= m < entry_count(fat.len() as int) && m != n implies fat_entry(
        written,
        m,
    ) == fat_entry(fat, m) by {
        let om = entry_offset(m);
        if n % 2 == 0 && m == n + 1 {
            assert(om == at + 1);
            lemma_pack_even(fat[at], fat[at + 1], fat[at + 2], value);
        } else if n % 2 == 1 && m == n - 1 {
            assert(om == at - 1);
            lemma_pack_odd(fat[at - 1], fat[at], fat[at + 1], value);
        } else {
            assert(om + 1 < at || at + 1 < om);
        }
    }
}

/// The number of whole entries in a table of `fat_len` bytes.
pub fn fat_entry_count(fat_len: usize) -> (count: usize)
    ensures
        count == entry_count(fat_len as int),
        count <= fat_len,
    no_unwind
{
    fat_len / 3 * 2 + (fat_len % 3) * 2 / 3
}

/// Entry `n` of the table `fat`, which has that many entries.
pub fn fat_entry_at(fat: &[u8], n: usize) -> (value: u16)
    requires
        n < entry_count(fat@.len() as int),
    ensures
        value == fat_entry(fat@, n as int),
        value <= 0x0fff,
{
    assert(fat@.len() == fat.len());
    proof {
        lemma_fat_entry_bound(fat@, n as int);
    }
    let offset: usize = n + n / 2;
    let byte_1: u16 = fat[offset] as u16;
    let byte_2: u16 = fat[offset + 1] as u16;
    if n % 2 == 0 {
        byte_1 | ((byte_2 & 0x0f) << 8)
    } else {
        ((byte_1 >> 4) | (byte_2 << 4)) & 0x0fff
    }
}

/// Reads entry `n` of the table `fat`.
pub fn read_fat_entry(fat: &[u8], n: usize) -> (r: Result<u16, FatError>)
    ensures
        n < entry_count(fat@.len() as int) ==> r == Ok::<u16, FatError>(fat_entry(fat@, n as int)),
        n >= entry_count(fat@.len() as int) ==> r == Err::<u16, FatError>(FatError::Bounds),
{
    if n >= fat_entry_count(fat.len()) {
        return Err(FatError::Bounds);
    }
    Ok(fat_entry_at(fat, n))
}

/// Stores the low 12 bits of `value` in entry `n` of the table `fat`.
pub fn write_fat_entry(fat: &mut Vec<u8>, n: usize, value: u16) -> (r: Result<(), FatError>)
    ensures
        n < entry_count(old(fat)@.len() as int) ==> r is Ok && final(fat)@ == with_fat_entry(
            old(fat)@,
            n as int,
            value,
        ),
        n >= entry_count(old(fat)@.len() as int) ==> r == Err::<(), FatError>(FatError::Bounds)
            && final(fat)@ == old(fat)@,
    no_unwind
{
    if n >= fat_entry_count(fat.len()) {
        return Err(FatError::Bounds);
    }
    let offset: usize = n + n / 2;
    let byte_1: u8 = fat[offset];
    let byte_2: u8 = fat[offset + 1];
    assert(value & 0xff <= 0xff && (value >> 8) & 0x0f <= 0x0f && (value & 0x0f) << 4 <= 0xf0 && (
    value >> 4) & 0xff <= 0xff) by (bit_vector);
    if n % 2 == 0 {
        fat[offset] = (value & 0xff) as u8;
        fat[offset + 1] = (byte_2 & 0xf0) | (((value >> 8) & 0x0f) as u8);
    } else {
        fat[offset] = (byte_1 & 0x0f) | (((value & 0x0f) << 4) as u8);
        fat[offset + 1] = ((value >> 4) & 0xff) as u8;
    }
    Ok(())
}

/// Lists every entry of the table with its index, in order.
pub fn list_fat_entries(fat: &[u8]) -> (entries: Vec<(usize, u16)>)
    ensures
        entries@.len() == entry_count(fat@.len() as int),
        forall|i: int|
            0 <= i < entries@.len() ==> entries@[i] == (i as usize, fat_entry(fat@, i)),
{
    let count = fat_entry_count(fat.len());
    let mut entries: Vec<(usize, u16)> = Vec::new();
    let mut n: usize = 0;
    while n < count
        invariant
            n <= count,
            count == entry_count(fat@.len() as int),
            entries@.len() == n,
            forall|i: int| 0 <= i < n ==> entries@[i] == (i as usize, fat_entry(fat@, i)),
        decreases count - n,
    {
        entries.push((n, fat_entry_at(fat, n)));
        n += 1;
    }
    entries
}

/// Finds the first entry from cluster 2 on that marks its cluster as free.
pub fn first_free_entry(fat: &[u8]) -> (r: Option<usize>)
    ensures
        match r {
            Some(n) => is_first_free(fat@, entry_count(fat@.len() as int), n as int),
            None => none_free(fat@, entry_count(fat@.len() as int)),
        },
{
    let limit = fat_entry_count(fat.len());
    let mut n: usize = 2;
    while n < limit
        invariant
            2 <= n,
            limit == entry_count(fat@.len() as int),
            forall|m: int| 2 <= m < n && m < limit ==> fat_entry(fat@, m) != FREE_CLUSTER,
        decreases limit - n,
    {
        if fat_entry_at(fat, n) == FREE_CLUSTER {
            return Some(n);
        }
        n += 1;
    }
    None
}

/// The number of the first cluster that no chain can hold: clusters have
/// numbers below `0xFF0`, and an entry in the file allocation table.
pub open spec fn claim_limit(fat: Seq<u8>) -> int {
    if entry_count(fat.len() as int) < 0xff0 {
        entry_count(fat.len() as int)
    } else {
        0xff0
    }
}

/// The clusters from cluster 2 on, below `limit`, that the table marks as
/// free, in ascending order.
pub open spec fn free_clusters(fat: Seq<u8>, limit: int) -> Seq<u16>
    decreases limit,
{
    if limit <= 2 {
        Seq::empty()
    } else {
        let below = free_clusters(fat, limit - 1);
        if fat_entry(fat, limit - 1) == FREE_CLUSTER {
            below.push((limit - 1) as u16)
        } else {
            below
        }
    }
}

/// The free clusters below a limit start the free clusters below any higher
/// limit.
pub proof fn lemma_free_clusters_prefix(fat: Seq<u8>, low: int, high: int)
    requires
        low <= high,
    ensures
        free_clusters(fat, low).len() <= free_clusters(fat, high).len(),
        free_clusters(fat, high).take(free_clusters(fat, low).len() as int) == free_clusters(
            fat,
            low,
        ),
    decreases high - low,
{
    if low == high {
        assert(free_clusters(fat, high).take(free_clusters(fat, low).len() as int)
            =~= free_clusters(fat, low));
    } else {
        lemma_free_clusters_prefix(fat, low, high - 1);
        if high <= 2 {
            assert(free_clusters(fat, low) =~= Seq::<u16>::empty());
        }
        assert(free_clusters(fat, high).take(free_clusters(fat, low).len() as int)
            =~= free_clusters(fat, high - 1).take(free_clusters(fat, low).len() as int));
    }
}

/// Free clusters are clusters below the limit whose entry reads free, and
/// they come in ascending order.
pub proof fn lemma_free_clusters(fat: Seq<u8>, limit: int)
    requires
        limit <= 0xff0,
    ensures
        forall|i: int|
            0 <= i < free_clusters(fat, limit).len() ==> {
                &&& 2 <= (#[trigger] free_clusters(fat, limit)[i]) < limit
                &&& fat_entry(fat, free_clusters(fat, limit)[i] as int) == FREE_CLUSTER
            },
        forall|i: int, j: int|
            0 <= i < j < free_clusters(fat, limit).len() ==> free_clusters(fat, limit)[i]
                < free_clusters(fat, limit)[j],
    decreases limit,
{
    if limit > 2 {
        lemma_free_clusters(fat, limit - 1);
        let below = free_clusters(fat, limit - 1);
        let all = free_clusters(fat, limit);
        if fat_entry(fat, limit - 1) == FREE_CLUSTER {
            assert(all == below.push((limit - 1) as u16));
            assert forall|i: int| 0 <= i < all.len() implies {
                &&& 2 <= (#[trigger] all[i]) < limit
                &&& fat_entry(fat, all[i] as int) == FREE_CLUSTER
            } by {
                if i < below.len() {
                    assert(all[i] == below[i]);
                }
            }
            assert forall|i: int, j: int| 0 <= i < j < all.len() implies all[i] < all[j] by {
                assert(all[i] == below[i]);
                if j < below.len() {
                    assert(all[j] == below[j]);
                }
            }
        } else {
            assert(all == below);
        }
    }
}

} // verus!
