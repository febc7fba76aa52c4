//! The root directory as a sequence of slots: where it ends, which slots are
//! live, and how names are looked up in it.

use crate::fat::names::upper;
use crate::fat::root_entry::{has_flag, RootEntry, ATTR_VOLUME_LABEL, SLOT_DELETED};
use vstd::prelude::*;
use vstd::utf8::{decode_utf8, valid_utf8};

verus! {

/// Whether the directory ends at slot `n`: no slot before `n` ends it, and
/// slot `n` does or lies past the last slot.
pub open spec fn is_directory_end(slots: Seq<RootEntry>, n: int) -> bool {
    &&& 0 <= n <= slots.len()
    &&& n < slots.len() ==> slots[n].ends_directory()
    &&& forall|i: int| 0 <= i < n ==> !slots[i].ends_directory()
}

/// The index of the first slot that ends the directory; the number of slots
/// where none does.
pub open spec fn directory_end(slots: Seq<RootEntry>) -> int {
    choose|n: int| is_directory_end(slots, n)
}

/// Whether the slot's file was not deleted.
pub open spec fn not_deleted(entry: RootEntry) -> bool {
    entry.filename[0] != SLOT_DELETED
}

/// The test that keeps what was not deleted.
pub open spec fn keep_live() -> spec_fn(RootEntry) -> bool {
    |entry: RootEntry| not_deleted(entry)
}

/// The live entries of a directory, in order: those before the slot that ends
/// the directory, without the deleted ones.
pub open spec fn live_entries(slots: Seq<RootEntry>) -> Seq<RootEntry> {
    slots.take(directory_end(slots)).filter(keep_live())
}

/// The text that stands for a volume without a label, or with one that is
/// not well-formed UTF-8.
pub open spec fn no_label_text() -> Seq<char> {
    "has no label"@
}

/// The label that the entry carries in its two name fields, as text.
pub open spec fn label_text(entry: RootEntry) -> Seq<char> {
    if valid_utf8(entry.label()) {
        decode_utf8(entry.label())
    } else {
        no_label_text()
    }
}

/// Whether the entry is shown under `name`, the case of ASCII letters apart.
pub open spec fn is_named(entry: RootEntry, name: Seq<u8>) -> bool {
    upper(entry.display_name()) == upper(name)
}

/// Whether some entry is shown under `name`.
pub open spec fn has_named(entries: Seq<RootEntry>, name: Seq<u8>) -> bool {
    exists|i: int| 0 <= i < entries.len() && is_named(#[trigger] entries[i], name)
}

/// Whether entry `i` is the first that is shown under `name`.
pub open spec fn is_first_named(entries: Seq<RootEntry>, name: Seq<u8>, i: int) -> bool {
    &&& 0 <= i < entries.len()
    &&& is_named(entries[i], name)
    &&& forall|j: int| 0 <= j < i ==> !is_named(#[trigger] entries[j], name)
}

/// Whether some slot is free.
pub open spec fn has_free_slot(slots: Seq<RootEntry>) -> bool {
    exists|i: int| 0 <= i < slots.len() && (#[trigger] slots[i]).free()
}

/// Whether slot `i` is the first free one.
pub open spec fn is_first_free_slot(slots: Seq<RootEntry>, i: int) -> bool {
    &&& 0 <= i < slots.len()
    &&& slots[i].free()
    &&& forall|j: int| 0 <= j < i ==> !(#[trigger] slots[j]).free()
}

/// Whether the entry carries the volume's label.
pub open spec fn is_label(entry: RootEntry) -> bool {
    has_flag(entry.attrs, ATTR_VOLUME_LABEL)
}

/// Whether entry `i` is the first that carries the volume's label.
pub open spec fn is_first_label(entries: Seq<RootEntry>, i: int) -> bool {
    &&& 0 <= i < entries.len()
    &&& is_label(entries[i])
    &&& forall|j: int| 0 <= j < i ==> !is_label(#[trigger] entries[j])
}

/// Whether no entry carries the volume's label.
pub open spec fn no_label(entries: Seq<RootEntry>) -> bool {
    forall|j: int| 0 <= j < entries.len() ==> !is_label(#[trigger] entries[j])
}

/// A directory ends at one slot only.
pub proof fn lemma_directory_end_unique(slots: Seq<RootEntry>, n: int)
    requires
        is_directory_end(slots, n),
    ensures
        directory_end(slots) == n,
{
    let c = directory_end(slots);
    assert(is_directory_end(slots, c));
    if c < n {
        assert(!slots[c].ends_directory());
    } else if n < c {
        assert(!slots[n].ends_directory());
    }
}

/// Every directory ends somewhere.
pub proof fn lemma_directory_end_exists(slots: Seq<RootEntry>)
    ensures
        is_directory_end(slots, directory_end(slots)),
{
    lemma_end_from(slots, 0);
}

/// A directory without an end before slot `from` ends at `from` or later.
proof fn lemma_end_from(slots: Seq<RootEntry>, from: int)
    requires
        0 <= from <= slots.len(),
        forall|i: int| 0 <= i < from ==> !slots[i].ends_directory(),
    ensures
        is_directory_end(slots, directory_end(slots)),
    decreases slots.len() - from,
{
    if from == slots.len() || slots[from].ends_directory() {
        assert(is_directory_end(slots, from));
    } else {
        lemma_end_from(slots, from + 1);
    }
}

/// The enumeration of live entries stops where the directory ends and skips
/// what was deleted: every entry it gives stands in a slot before the end of
/// the directory, and is neither deleted nor a slot that ends the directory.
pub proof fn lemma_live_entries(slots: Seq<RootEntry>, j: int)
    requires
        0 <= j < live_entries(slots).len(),
    ensures
        not_deleted(live_entries(slots)[j]),
        !live_entries(slots)[j].ends_directory(),
        !live_entries(slots)[j].free(),
        exists|i: int|
            0 <= i < directory_end(slots) && i < slots.len() && #[trigger] slots[i]
                == live_entries(slots)[j],
{
    lemma_directory_end_exists(slots);
    let end = directory_end(slots);
    let head = slots.take(end);
    let keep = keep_live();
    head.lemma_filter_pred(keep, j);
    let e = live_entries(slots)[j];
    assert(head.filter(keep).contains(e));
    head.lemma_filter_contains_rev(keep, e);
    let i = choose|i: int| 0 <= i < head.len() && head[i] == e;
    assert(slots[i] == e);
}

/// A run of slots that are not deleted passes the test for live entries
/// whole.
pub proof fn lemma_keep_all(slots: Seq<RootEntry>)
    requires
        forall|i: int| 0 <= i < slots.len() ==> not_deleted(#[trigger] slots[i]),
    ensures
        slots.filter(keep_live()) == slots,
    decreases slots.len(),
{
    reveal(Seq::filter);
    if slots.len() > 0 {
        lemma_keep_all(slots.drop_last());
        assert(slots.drop_last().push(slots.last()) =~= slots);
    }
}

/// Where the first `n` slots of a directory hold files, they are its first
/// `n` live entries.
pub proof fn lemma_live_prefix(slots: Seq<RootEntry>, n: int)
    requires
        0 <= n <= slots.len(),
        forall|i: int| 0 <= i < n ==> !(#[trigger] slots[i]).free(),
    ensures
        n <= directory_end(slots),
        n <= live_entries(slots).len(),
        live_entries(slots).take(n) == slots.take(n),
{
    lemma_directory_end_exists(slots);
    let end = directory_end(slots);
    if end < n {
        assert(slots[end].free());
    }
    let head = slots.take(n);
    let rest = slots.subrange(n, end);
    assert(slots.take(end) =~= head + rest);
    Seq::filter_distributes_over_add(head, rest, keep_live());
    assert forall|i: int| 0 <= i < head.len() implies not_deleted(#[trigger] head[i]) by {
        assert(!slots[i].free());
    }
    lemma_keep_all(head);
    assert(live_entries(slots).take(n) =~= head);
}

/// The index of the first free slot of a directory that has one.
pub open spec fn first_free_slot(slots: Seq<RootEntry>) -> int {
    choose|i: int| is_first_free_slot(slots, i)
}

/// A directory has at most one first free slot.
pub proof fn lemma_first_free_slot_unique(slots: Seq<RootEntry>, i: int)
    requires
        is_first_free_slot(slots, i),
    ensures
        first_free_slot(slots) == i,
        has_free_slot(slots),
{
    let c = first_free_slot(slots);
    assert(is_first_free_slot(slots, c));
    if c < i {
        assert(!slots[c].free());
    } else if i < c {
        assert(!slots[i].free());
    }
}

/// A directory with a free slot has a first free slot.
pub proof fn lemma_first_free_slot_exists(slots: Seq<RootEntry>)
    requires
        has_free_slot(slots),
    ensures
        is_first_free_slot(slots, first_free_slot(slots)),
{
    let i = choose|i: int| 0 <= i < slots.len() && (#[trigger] slots[i]).free();
    lemma_first_free_before(slots, i);
}

/// A directory with a free slot `i` has a first free slot.
proof fn lemma_first_free_before(slots: Seq<RootEntry>, i: int)
    requires
        0 <= i < slots.len(),
        slots[i].free(),
    ensures
        exists|j: int| is_first_free_slot(slots, j),
    decreases i,
{
    if exists|k: int| 0 <= k < i && (#[trigger] slots[k]).free() {
        let k = choose|k: int| 0 <= k < i && (#[trigger] slots[k]).free();
        lemma_first_free_before(slots, k);
    } else {
        assert(is_first_free_slot(slots, i));
    }
}

} // verus!
