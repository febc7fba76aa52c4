//! File names in the 8.3 form, as runs of bytes: a base name of up to eight
//! bytes, a dot, and an extension of up to three bytes, stored in capitals and
//! padded with spaces.

use vstd::prelude::*;

verus! {

/// The byte that separates a base name from its extension.
pub const DOT: u8 = 0x2e;

/// The byte that pads a stored name.
pub const SPACE: u8 = 0x20;

/// The width of the stored base name.
pub const NAME_WIDTH: usize = 8;

/// The width of the stored extension.
pub const EXTENSION_WIDTH: usize = 3;

/// The capital of an ASCII small letter; any other byte unchanged.
pub open spec fn ascii_upper(b: u8) -> u8 {
    if 0x61 <= b && b <= 0x7a {
        (b - 0x20) as u8
    } else {
        b
    }
}

/// `s` with every ASCII small letter replaced by its capital.
pub open spec fn upper(s: Seq<u8>) -> Seq<u8> {
    Seq::new(s.len(), |i: int| ascii_upper(s[i]))
}

/// `s` without the spaces at its end.
pub open spec fn trimmed(s: Seq<u8>) -> Seq<u8>
    decreases s.len(),
{
    if s.len() > 0 && s.last() == SPACE {
        trimmed(s.drop_last())
    } else {
        s
    }
}

/// Whether `s` has exactly one dot, at index `d`.
pub open spec fn is_split(s: Seq<u8>, d: int) -> bool {
    &&& 0 <= d < s.len()
    &&& s[d] == DOT
    &&& forall|i: int| 0 <= i < s.len() && i != d ==> s[i] != DOT
}

/// Whether `s` is a base name of at most eight bytes, one dot, and an
/// extension of at most three bytes.
pub open spec fn fits_8_3(s: Seq<u8>) -> bool {
    exists|d: int| #[trigger] is_split(s, d) && d <= NAME_WIDTH && s.len() - d - 1 <= EXTENSION_WIDTH
}

/// The index of the dot of a name that has exactly one.
pub open spec fn split_point(s: Seq<u8>) -> int {
    choose|d: int| is_split(s, d)
}

/// The part of `s` before its dot.
pub open spec fn base_part(s: Seq<u8>) -> Seq<u8> {
    s.subrange(0, split_point(s))
}

/// The part of `s` after its dot.
pub open spec fn extension_part(s: Seq<u8>) -> Seq<u8> {
    s.subrange(split_point(s) + 1, s.len() as int)
}

/// Byte `i` of `part` in capitals, padded with spaces past the end of `part`.
pub open spec fn stored_byte(part: Seq<u8>, i: int) -> u8 {
    if i < part.len() {
        ascii_upper(part[i])
    } else {
        SPACE
    }
}

/// The name that a directory record shows: the stored base name without its
/// trailing spaces, a dot, and the stored extension as it is.
pub open spec fn shown_name(base: Seq<u8>, extension: Seq<u8>) -> Seq<u8> {
    trimmed(base) + seq![DOT] + extension
}

/// A name has at most one split point.
pub proof fn lemma_split_unique(s: Seq<u8>, d: int)
    requires
        is_split(s, d),
    ensures
        split_point(s) == d,
{
    let c = split_point(s);
    assert(is_split(s, c));
    if c != d {
        assert(s[c] != DOT);
    }
}

/// Trimming a run that does not end in a space leaves it as it is, whatever
/// number of spaces was appended to it.
pub proof fn lemma_trimmed_padding(s: Seq<u8>, spaces: nat)
    requires
        s.len() == 0 || s.last() != SPACE,
    ensures
        trimmed(s + Seq::new(spaces, |i: int| SPACE)) == s,
    decreases spaces,
{
    let padded = s + Seq::new(spaces, |i: int| SPACE);
    if spaces == 0 {
        assert(padded =~= s);
    } else {
        assert(padded.last() == SPACE);
        assert(padded.drop_last() =~= s + Seq::new((spaces - 1) as nat, |i: int| SPACE));
        lemma_trimmed_padding(s, (spaces - 1) as nat);
    }
}

/// The capital of an ASCII small letter; any other byte unchanged.
pub fn to_ascii_upper(b: u8) -> (u: u8)
    ensures
        u == ascii_upper(b),
{
    if 0x61 <= b && b <= 0x7a {
        b - 0x20
    } else {
        b
    }
}

/// The length of `s` without the spaces at its end.
pub fn trimmed_len(s: &[u8]) -> (n: usize)
    ensures
        n <= s@.len(),
        trimmed(s@) == s@.subrange(0, n as int),
{
    let mut n = s.len();
    assert(s@.subrange(0, n as int) =~= s@);
    while n > 0 && s[n - 1] == SPACE
        invariant
            n <= s@.len(),
            trimmed(s@) == trimmed(s@.subrange(0, n as int)),
        decreases n,
    {
        assert(s@.subrange(0, n as int).drop_last() =~= s@.subrange(0, n - 1));
        n -= 1;
    }
    n
}

/// Finds the dot of a name that has exactly one.
pub fn find_split(s: &[u8]) -> (r: Option<usize>)
    ensures
        match r {
            Some(d) => is_split(s@, d as int),
            None => forall|d: int| !is_split(s@, d),
        },
{
    let mut i: usize = 0;
    while i < s.len() && s[i] != DOT
        invariant
            i <= s@.len(),
            forall|k: int| 0 <= k < i ==> s@[k] != DOT,
        decreases s@.len() - i,
    {
        i += 1;
    }
    if i == s.len() {
        assert forall|d: int| !is_split(s@, d) by {}
        return None;
    }
    let d = i;
    i += 1;
    while i < s.len() && s[i] != DOT
        invariant
            d < i <= s@.len(),
            forall|k: int| d < k < i ==> s@[k] != DOT,
        decreases s@.len() - i,
    {
        i += 1;
    }
    if i < s.len() {
        assert forall|c: int| !is_split(s@, c) by {
            if is_split(s@, c) {
                assert(c == d || s@[d as int] != DOT);
                assert(c == i || s@[i as int] != DOT);
            }
        }
        return None;
    }
    Some(d)
}

/// Tells whether two names are the same but for the case of ASCII letters.
pub fn same_name(a: &[u8], b: &[u8]) -> (same: bool)
    ensures
        same == (upper(a@) == upper(b@)),
{
    if a.len() != b.len() {
        assert(upper(a@).len() != upper(b@).len());
        return false;
    }
    let mut i: usize = 0;
    while i < a.len()
        invariant
            i <= a@.len(),
            a@.len() == b@.len(),
            forall|k: int| 0 <= k < i ==> ascii_upper(a@[k]) == ascii_upper(b@[k]),
        decreases a@.len() - i,
    {
        if to_ascii_upper(a[i]) != to_ascii_upper(b[i]) {
            assert(upper(a@)[i as int] != upper(b@)[i as int]);
            return false;
        }
        i += 1;
    }
    assert(upper(a@) =~= upper(b@));
    true
}

} // verus!
