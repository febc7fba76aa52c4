//! Adding a file to a volume: a directory entry in the first free slot, the
//! file's bytes in the first free clusters, and the chain that links them.

use crate::codec::{
    chunk, chunk_count, lemma_chunk_count_positive, lemma_chunk_len, overwrite, split_chunks,
};
use crate::commands::list::{keep_files, listed_entries};
use crate::error::FatError;
use crate::fat::chain::{
    chain_of, is_ascending_chain, lemma_chain_is_short, lemma_linked_entries, lemma_linked_len,
    lemma_walk_linked, linked,
};
use crate::fat::data::{
    chain_bytes, lemma_chain_bytes, lemma_sectors_hold_data, lemma_stored_len,
    lemma_stored_sectors, pad_sector, sector_at, sector_of, stored,
};
use crate::fat::directory::{
    first_free_slot, has_free_slot, has_named, is_first_free_slot, is_first_named, is_label,
    is_named, lemma_first_free_slot_exists, lemma_first_free_slot_unique, lemma_live_prefix,
};
use crate::fat::image::{lemma_slots_after_save, ImageView};
use crate::fat::names::fits_8_3;
use crate::fat::root_entry::{
    has_flag, is_plain_8_3, lemma_plain_name_is_shown, ATTR_VOLUME_LABEL, BYTES_PER_ROOT_ENTRY,
};
use crate::fat::table::{
    claim_limit, entry_count, fat_entry, free_clusters, lemma_free_clusters,
    lemma_free_clusters_prefix, END_OF_CHAIN, FREE_CLUSTER,
};
use crate::fat::{Image, RootEntry};
use vstd::prelude::*;
use vstd::utf8::encode_utf8;

verus! {

/// The clusters that a new file of `len` bytes takes: the first free ones, as
/// many as the file needs sectors.
pub open spec fn new_chain(image: ImageView, len: int) -> Seq<u16> {
    free_clusters(image.fat_1, claim_limit(image.fat_1)).take(
        chunk_count(len, image.bpb.bytes_per_sector as int),
    )
}

/// The directory entry of a new file: its name and size, the first cluster of
/// its chain (0 for a file without data), and nothing else set.
pub open spec fn new_entry(name: Seq<u8>, len: int, chain: Seq<u16>) -> RootEntry {
    RootEntry {
        file_size: len as u32,
        first_logical_cluster: if chain.len() > 0 {
            chain[0]
        } else {
            0
        },
        ..RootEntry::blank().renamed(name)
    }
}

/// The volume `image` with one more file: `data` under the 8.3 name `name`.
/// The file's entry stands in the first free slot of the root directory. Its
/// data stand in the first free clusters, one sector each, the last one filled
/// up with zeros. Both copies of the file allocation table link these clusters
/// in ascending order and end the chain.
pub open spec fn added(image: ImageView, name: Seq<u8>, data: Seq<u8>) -> ImageView {
    let chain = new_chain(image, data.len() as int);
    ImageView {
        fat_1: linked(image.fat_1, chain, chain.len() as int),
        fat_2: linked(image.fat_2, chain, chain.len() as int),
        root_dir: overwrite(
            image.root_dir,
            first_free_slot(image.slots()) * BYTES_PER_ROOT_ENTRY,
            new_entry(name, data.len() as int, chain).encoded(),
        ),
        data_area: stored(
            image.data_area,
            image.bpb.bytes_per_sector as int,
            chain,
            data,
            chain.len() as int,
        ),
        ..image
    }
}

/// Whether one of the first `needed` free clusters has its sector outside
/// the data area.
pub open spec fn claims_outside(image: ImageView, needed: int) -> bool {
    let free = free_clusters(image.fat_1, claim_limit(image.fat_1));
    exists|i: int|
        0 <= i < needed && i < free.len() && !image.in_data_area(
            (#[trigger] free[i]) as int,
            image.bpb.bytes_per_sector as int,
        )
}

/// What adding the file `data` under the name `name` to `image` comes to: the
/// volume with the file, or the reason why it cannot be added. In this order:
/// a live entry has the name already; the root directory has no free slot;
/// the name has not the 8.3 form; the file is longer than a directory entry
/// can say; a cluster that the file would take lies outside the data area;
/// the free clusters are fewer than the file needs.
pub open spec fn add_outcome(image: ImageView, name: Seq<u8>, data: Seq<u8>) -> Result<
    ImageView,
    FatError,
> {
    let needed = chunk_count(data.len() as int, image.bpb.bytes_per_sector as int);
    if has_named(image.live(), name) {
        Err(FatError::AlreadyExists)
    } else if !has_free_slot(image.slots()) {
        Err(FatError::NoFreeSlot)
    } else if !fits_8_3(name) {
        Err(FatError::Format)
    } else if data.len() > u32::MAX {
        Err(FatError::OutOfSpace)
    } else if claims_outside(image, needed) {
        Err(FatError::Bounds)
    } else if needed > free_clusters(image.fat_1, claim_limit(image.fat_1)).len() {
        Err(FatError::OutOfSpace)
    } else {
        Ok(added(image, name, data))
    }
}

/// Whether a record stored under `name` holds a file: its first byte marks
/// neither the end of the directory nor a deleted file.
pub open spec fn is_live_name(name: Seq<u8>) -> bool {
    !RootEntry::blank().renamed(name).free()
}

/// Whether a record stored under `name` is found again under `name`.
pub open spec fn finds_itself(name: Seq<u8>) -> bool {
    is_named(RootEntry::blank().renamed(name), name)
}

/// A name of capitals and digits with a full extension marks a live record
/// and is found again under itself.
pub proof fn lemma_plain_name_is_found(name: Seq<u8>)
    requires
        is_plain_8_3(name),
    ensures
        fits_8_3(name),
        is_live_name(name),
        finds_itself(name),
{
    lemma_plain_name_is_shown(RootEntry::blank(), name);
}

/// After a file was added under a name that marks a live record, the root
/// directory holds the file's entry, with the file's size, in what was the
/// first free slot; every other slot is as it was; and the entry is among the
/// live entries and among the files that a listing shows.
pub proof fn lemma_added_is_listed(image: ImageView, name: Seq<u8>, data: Seq<u8>)
    requires
        add_outcome(image, name, data) is Ok,
        is_live_name(name),
    ensures
        ({
            let after = add_outcome(image, name, data)->Ok_0;
            let slot = first_free_slot(image.slots());
            let entry = new_entry(name, data.len() as int, new_chain(image, data.len() as int));
            &&& entry.file_size == data.len()
            &&& is_first_free_slot(image.slots(), slot)
            &&& after.slots() == image.slots().update(slot, entry)
            &&& slot < after.live().len()
            &&& after.live()[slot] == entry
            &&& after.live().take(slot) == image.live().take(slot)
            &&& listed_entries(after.live()).contains(entry)
        }),
{
    let after = added(image, name, data);
    let slots = image.slots();
    let slot = first_free_slot(slots);
    let entry = new_entry(name, data.len() as int, new_chain(image, data.len() as int));
    lemma_first_free_slot_exists(slots);
    lemma_slots_after_save(image, after, entry, slot);
    assert(!entry.free());
    assert forall|i: int| 0 <= i < slot + 1 implies !(#[trigger] after.slots()[i]).free() by {
        if i < slot {
            assert(!slots[i].free());
        }
    }
    lemma_live_prefix(after.slots(), slot + 1);
    lemma_live_prefix(slots, slot);
    assert(after.live()[slot] == after.live().take(slot + 1)[slot]);
    assert(after.live().take(slot) =~= after.live().take(slot + 1).take(slot));
    assert(after.slots().take(slot) =~= slots.take(slot));
    assert(after.slots().take(slot + 1).take(slot) =~= after.slots().take(slot));
    assert(!has_flag(0u8, ATTR_VOLUME_LABEL)) by (bit_vector);
    assert(!is_label(entry));
    after.live().lemma_filter_contains(keep_files(), slot);
}

/// After a file was added under a name that is found again under itself,
/// a lookup of the name finds the file's entry, and the name cannot be added
/// a second time: the attempt is refused because the name exists already.
pub proof fn lemma_add_twice(image: ImageView, name: Seq<u8>, data: Seq<u8>, more: Seq<u8>)
    requires
        add_outcome(image, name, data) is Ok,
        is_live_name(name),
        finds_itself(name),
    ensures
        is_first_named(
            add_outcome(image, name, data)->Ok_0.live(),
            name,
            first_free_slot(image.slots()),
        ),
        add_outcome(add_outcome(image, name, data)->Ok_0, name, more) == Err::<
            ImageView,
            FatError,
        >(FatError::AlreadyExists),
{
    let after = add_outcome(image, name, data)->Ok_0;
    let slot = first_free_slot(image.slots());
    lemma_added_is_listed(image, name, data);
    lemma_live_prefix(image.slots(), slot);
    assert forall|j: int| 0 <= j < slot implies !is_named(#[trigger] after.live()[j], name) by {
        assert(after.live()[j] == after.live().take(slot)[j]);
        assert(image.live()[j] == image.live().take(slot)[j]);
    }
    assert(is_named(after.live()[slot], name));
}

/// A well-formed volume with a slot in its root directory has sectors of at
/// least one byte.
pub proof fn lemma_sector_size(image: ImageView)
    requires
        image.well_formed(),
        has_free_slot(image.slots()),
    ensures
        image.bpb.bytes_per_sector > 0,
{
    assert(image.slots().len() > 0);
}

/// The clusters of a new chain are valid links with entries in the table, in
/// ascending order.
pub proof fn lemma_new_chain(image: ImageView, len: int)
    requires
        0 <= chunk_count(len, image.bpb.bytes_per_sector as int) <= free_clusters(
            image.fat_1,
            claim_limit(image.fat_1),
        ).len(),
    ensures
        is_ascending_chain(image.fat_1, new_chain(image, len)),
        forall|i: int|
            0 <= i < new_chain(image, len).len() ==> fat_entry(
                image.fat_1,
                (#[trigger] new_chain(image, len)[i]) as int,
            ) == FREE_CLUSTER,
{
    let free = free_clusters(image.fat_1, claim_limit(image.fat_1));
    let chain = new_chain(image, len);
    lemma_free_clusters(image.fat_1, claim_limit(image.fat_1));
    assert forall|i: int| 0 <= i < chain.len() implies #[trigger] chain[i] == free[i] by {}
}

/// After a file was added, the chain that starts at the first cluster of its
/// entry is the chain of the clusters that were taken for it, ended by the
/// mark that ends a chain, and the sectors of these clusters, one after the
/// other and cut to the file's size, are the file's bytes.
pub proof fn lemma_added_holds_data(image: ImageView, name: Seq<u8>, data: Seq<u8>)
    requires
        image.well_formed(),
        add_outcome(image, name, data) is Ok,
    ensures
        ({
            let after = add_outcome(image, name, data)->Ok_0;
            let chain = new_chain(image, data.len() as int);
            let entry = new_entry(name, data.len() as int, chain);
            &&& data.len() > 0 ==> chain_of(after.fat_1, entry.first_logical_cluster) == Some(
                (chain, END_OF_CHAIN),
            )
            &&& is_ascending_chain(image.fat_1, chain)
            &&& chain.len() == chunk_count(data.len() as int, image.bpb.bytes_per_sector as int)
            &&& chain_bytes(
                after.data_area,
                image.bpb.bytes_per_sector as int,
                chain,
            ).take(data.len() as int) == data
        }),
{
    let after = added(image, name, data);
    let size = image.bpb.bytes_per_sector as int;
    let count = data.len() as int;
    let chain = new_chain(image, count);
    let free = free_clusters(image.fat_1, claim_limit(image.fat_1));
    let needed = chunk_count(count, size);
    lemma_sector_size(image);
    if count > 0 {
        lemma_chunk_count_positive(count, size);
    }
    lemma_new_chain(image, count);
    assert(chain.len() == needed);
    if count == 0 {
        assert(chain_bytes(after.data_area, size, chain).take(0) =~= data);
    } else {
        assert forall|i: int| 0 <= i < chain.len() implies 2 <= #[trigger] chain[i] && (chain[i]
            - 2) * size + size <= image.data_area.len() by {
            assert(chain[i] == free[i]);
            assert(image.in_data_area(free[i] as int, size));
        }
        // the table
        lemma_linked_entries(image.fat_1, chain, chain.len() as int);
        let table = after.fat_1;
        assert(is_ascending_chain(table, chain));
        lemma_chain_is_short(image.fat_1, chain, chain.len() - 1);
        lemma_walk_linked(table, chain, 0, entry_count(table.len() as int) as nat);
        assert(chain.skip(0) =~= chain);
        // the data area
        lemma_stored_sectors(image.data_area, size, chain, data, chain.len() as int);
        assert forall|i: int| 0 <= i < chain.len() implies sector_at(
            after.data_area,
            size,
            (#[trigger] chain[i]) as int,
        ) == sector_of(data, size, i) by {}
        lemma_chain_bytes(after.data_area, size, chain, data, chain.len() as int);
        assert(chain.take(chain.len() as int) =~= chain);
        lemma_sectors_hold_data(data, size, chain.len() as int);
    }
}

/// Picks the clusters of a new chain of `needed` clusters: the first free
/// ones. Nothing is claimed where the volume has too few of them, or where
/// the sector of one lies outside the data area.
fn claim_clusters(image: &Image, needed: usize) -> (r: Result<Vec<u16>, FatError>)
    ensures
        match r {
            Ok(chain) => {
                &&& !claims_outside(image@, needed as int)
                &&& needed <= free_clusters(image@.fat_1, claim_limit(image@.fat_1)).len()
                &&& chain@ == free_clusters(image@.fat_1, claim_limit(image@.fat_1)).take(
                    needed as int,
                )
            },
            Err(e) => {
                ||| e == FatError::Bounds && claims_outside(image@, needed as int)
                ||| e == FatError::OutOfSpace && !claims_outside(image@, needed as int) && needed
                    > free_clusters(image@.fat_1, claim_limit(image@.fat_1)).len()
            },
        },
{
    let table = image.fat_entries();
    let limit: usize = if table.len() < 0xff0 {
        table.len()
    } else {
        0xff0
    };
    let ghost fat = image@.fat_1;
    let ghost free = free_clusters(fat, limit as int);
    let ghost sector = image@.bpb.bytes_per_sector as int;
    let mut chain: Vec<u16> = Vec::new();
    let mut n: usize = 2;
    if limit <= 2 {
        n = limit;
    }
    while n < limit && chain.len() < needed
        invariant
            n <= limit <= 0xff0,
            limit <= 2 ==> n == limit,
            limit > 2 ==> 2 <= n,
            limit == claim_limit(fat),
            fat == image@.fat_1,
            sector == image@.bpb.bytes_per_sector,
            free == free_clusters(fat, limit as int),
            table@.len() == entry_count(fat.len() as int),
            forall|i: int| 0 <= i < table@.len() ==> table@[i] == (i as usize, fat_entry(fat, i)),
            chain@ == free_clusters(fat, n as int),
            chain@.len() <= needed,
            forall|i: int|
                0 <= i < chain@.len() ==> image@.in_data_area((#[trigger] chain@[i]) as int, sector),
        decreases limit - n,
    {
        let ghost before = chain@;
        assert(table@[n as int].1 == fat_entry(fat, n as int));
        if table[n].1 == FREE_CLUSTER {
            if !image.holds_sector(n) {
                proof {
                    lemma_free_clusters_prefix(fat, n + 1, limit as int);
                    let i = before.len() as int;
                    assert(free_clusters(fat, n + 1) == before.push(n as u16));
                    assert(free[i] == free.take(free_clusters(fat, n + 1).len() as int)[i]);
                    assert(free[i] == n);
                }
                return Err(FatError::Bounds);
            }
            chain.push(n as u16);
        }
        n += 1;
    }
    proof {
        lemma_free_clusters_prefix(fat, n as int, limit as int);
        assert forall|i: int| 0 <= i < chain@.len() implies free[i] == chain@[i] by {
            assert(free[i] == free.take(chain@.len() as int)[i]);
        }
    }
    if chain.len() < needed {
        assert(chain@ == free);
        return Err(FatError::OutOfSpace);
    }
    assert(chain@ =~= free.take(needed as int));
    Ok(chain)
}

/// Adds the file `data` under the name `filename` to the volume: makes an
/// entry for it in the first free slot of the root directory, stores its
/// bytes sector by sector in the first free clusters, links these in both
/// copies of the file allocation table, and ends the chain. Where the file
/// cannot be added the volume stays as it was, to the last bit.
pub fn add_file(image: &mut Image, filename: String, data: &[u8]) -> (r: Result<(), FatError>)
    ensures
        match r {
            Ok(()) => add_outcome(old(image)@, encode_utf8(filename@), data@) == Ok::<
                ImageView,
                FatError,
            >(final(image)@),
            Err(e) => add_outcome(old(image)@, encode_utf8(filename@), data@) == Err::<
                ImageView,
                FatError,
            >(e) && final(image)@ == old(image)@,
        },
{
    let ghost name = encode_utf8(filename@);
    let ghost before = image@;
    proof {
        use_type_invariant(&*image);
    }
    // Don't overwrite a preexisting file.
    if image.get_file_entry(filename.clone()).is_ok() {
        return Err(FatError::AlreadyExists);
    }
    // Create a root dir entry.
    let (mut entry, index) = image.create_file_entry(filename, 0)?;
    proof {
        lemma_first_free_slot_unique(before.slots(), index as int);
    }
    let size = data.len();
    if size > u32::MAX as usize {
        return Err(FatError::OutOfSpace);
    }
    entry.set_size(size as u32);
    let bytes_per_sector = image.sector_size();
    proof {
        lemma_sector_size(before);
    }
    let chunks = split_chunks(data, bytes_per_sector);
    // Get free FAT entries.
    let chain = claim_clusters(image, chunks.len())?;
    if chain.len() > 0 {
        entry.first_logical_cluster = chain[0];
    }
    assert(entry == new_entry(name, size as int, chain@));
    proof {
        lemma_free_clusters(before.fat_1, claim_limit(before.fat_1));
    }
    // Fill sectors with file data, link the chain.
    let mut i: usize = 0;
    while i < chunks.len()
        invariant
            i <= chunks@.len(),
            chunks@.len() == chain@.len(),
            size == data@.len(),
            bytes_per_sector == before.bpb.bytes_per_sector,
            bytes_per_sector > 0,
            chunks@.len() == chunk_count(size as int, bytes_per_sector as int),
            forall|k: int|
                0 <= k < chunks@.len() ==> (#[trigger] chunks@[k])@ == chunk(
                    data@,
                    bytes_per_sector as int,
                    k,
                ),
            forall|k: int|
                0 <= k < chain@.len() ==> {
                    &&& 2 <= (#[trigger] chain@[k]) < entry_count(before.fat_1.len() as int)
                    &&& before.in_data_area(chain@[k] as int, bytes_per_sector as int)
                },
            before == old(image)@,
            before.fat_1.len() == before.fat_2.len(),
            image@ == (ImageView {
                fat_1: linked(before.fat_1, chain@, i as int),
                fat_2: linked(before.fat_2, chain@, i as int),
                data_area: stored(
                    before.data_area,
                    bytes_per_sector as int,
                    chain@,
                    data@,
                    i as int,
                ),
                ..before
            }),
        decreases chunks@.len() - i,
    {
        proof {
            lemma_linked_len(before.fat_1, chain@, i as int);
            lemma_linked_len(before.fat_2, chain@, i as int);
            lemma_stored_len(before.data_area, bytes_per_sector as int, chain@, data@, i as int);
            lemma_chunk_len(data@, bytes_per_sector as int, i as int);
        }
        let sector = pad_sector(chunks[i].as_slice(), bytes_per_sector);
        image.write_data_sector(chain[i] as usize, sector.as_slice())?;
        let link = if i + 1 < chain.len() {
            chain[i + 1]
        } else {
            END_OF_CHAIN
        };
        image.set_fat_entry(chain[i], link)?;
        i += 1;
    }
    image.save_file_entry(entry, index)?;
    Ok(())
}

} // verus!
