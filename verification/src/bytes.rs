//! Comparisons and searches over byte strings.
use vstd::prelude::*;

verus! {

/// Whether every byte of `s` is zero.
pub open spec fn all_zero_spec(s: Seq<u8>) -> bool {
    forall|i: int| 0 <= i < s.len() ==> s[i] == 0
}

/// Whether every byte is zero.
pub fn all_zero(s: &[u8]) -> (b: bool)
    ensures
        b == all_zero_spec(s@),
{
    let mut i: usize = 0;
    while i < s.len()
        invariant
            i <= s@.len(),
            forall|j: int| 0 <= j < i ==> s@[j] == 0,
        decreases s@.len() - i,
    {
        if s[i] != 0 {
            return false;
        }
        i = i + 1;
    }
    true
}

/// Whether two byte strings are the same.
pub fn equal(a: &[u8], b: &[u8]) -> (r: bool)
    ensures
        r == (a@ == b@),
{
    if a.len() != b.len() {
        return false;
    }
    let mut i: usize = 0;
    while i < a.len()
        invariant
            i <= a@.len(),
            a@.len() == b@.len(),
            forall|j: int| 0 <= j < i ==> a@[j] == b@[j],
        decreases a@.len() - i,
    {
        if a[i] != b[i] {
            return false;
        }
        i = i + 1;
    }
    assert(a@ =~= b@);
    true
}

/// Whether `needle` stands in `hay` at position `i`.
pub open spec fn stands_at(hay: Seq<u8>, needle: Seq<u8>, i: int) -> bool {
    0 <= i && i + needle.len() <= hay.len() && hay.subrange(i, i + needle.len()) == needle
}

/// The first position from `from` on at which `needle` stands in `hay`.
pub open spec fn first_match(hay: Seq<u8>, needle: Seq<u8>, from: nat) -> Option<nat>
    decreases hay.len() - from,
{
    if from + needle.len() > hay.len() || from >= hay.len() {
        None
    } else if stands_at(hay, needle, from as int) {
        Some(from)
    } else {
        first_match(hay, needle, from + 1)
    }
}

/// The first position at which `needle` stands in `hay`, if any. An empty
/// `needle` stands nowhere.
pub open spec fn find_spec(hay: Seq<u8>, needle: Seq<u8>) -> Option<nat> {
    if needle.len() == 0 {
        None
    } else {
        first_match(hay, needle, 0)
    }
}

/// What the first match is: `needle` stands there and nowhere before.
pub proof fn lemma_first_match(hay: Seq<u8>, needle: Seq<u8>, from: nat)
    ensures
        match first_match(hay, needle, from) {
            Some(i) => from <= i && stands_at(hay, needle, i as int) && forall|j: int|
                from <= j < i ==> !stands_at(hay, needle, j),
            None => forall|j: int|
                from <= j && needle.len() > 0 ==> !stands_at(hay, needle, j),
        },
    decreases hay.len() - from,
{
    if from + needle.len() > hay.len() || from >= hay.len() {
    } else if stands_at(hay, needle, from as int) {
    } else {
        lemma_first_match(hay, needle, from + 1);
    }
}

/// A position at which `needle` stands, with none before, is the first match.
pub proof fn lemma_match_is_first(hay: Seq<u8>, needle: Seq<u8>, from: nat, at: nat)
    requires
        from <= at,
        needle.len() > 0,
        stands_at(hay, needle, at as int),
        forall|j: int| from <= j < at ==> !stands_at(hay, needle, j),
    ensures
        first_match(hay, needle, from) == Some(at),
    decreases at - from,
{
    if from < at {
        lemma_match_is_first(hay, needle, from + 1, at);
    }
}

/// Whether `needle` stands in `hay` at position `i`.
fn stands(hay: &[u8], needle: &[u8], i: usize) -> (b: bool)
    requires
        i + needle@.len() <= hay@.len(),
    ensures
        b == stands_at(hay@, needle@, i as int),
{
    let total: usize = hay.len();
    let mut k: usize = 0;
    while k < needle.len()
        invariant
            k <= needle@.len(),
            total == hay@.len(),
            i + needle@.len() <= hay@.len(),
            forall|j: int| 0 <= j < k ==> hay@[i + j] == needle@[j],
        decreases needle@.len() - k,
    {
        if hay[i + k] != needle[k] {
            assert(hay@.subrange(i as int, i + needle@.len())[k as int] != needle@[k as int]);
            return false;
        }
        k = k + 1;
    }
    assert(hay@.subrange(i as int, i + needle@.len()) =~= needle@);
    true
}

/// The first position at which `needle` stands in `hay`, if any.
pub fn find_subslice(hay: &[u8], needle: &[u8]) -> (r: Option<usize>)
    ensures
        match r {
            Some(i) => find_spec(hay@, needle@) == Some(i as nat),
            None => find_spec(hay@, needle@) is None,
        },
{
    if needle.len() == 0 || hay.len() < needle.len() {
        return None;
    }
    let mut i: usize = 0;
    while i <= hay.len() - needle.len()
        invariant
            needle@.len() > 0,
            needle@.len() <= hay@.len(),
            i <= hay@.len() - needle@.len() + 1,
            first_match(hay@, needle@, 0) == first_match(hay@, needle@, i as nat),
        decreases hay@.len() - i,
    {
        if stands(hay, needle, i) {
            return Some(i);
        }
        i = i + 1;
    }
    None
}

/// A copy of the bytes from `from` up to `to`.
pub fn copy_range(s: &[u8], from: usize, to: usize) -> (v: Vec<u8>)
    requires
        from <= to <= s@.len(),
    ensures
        v@ == s@.subrange(from as int, to as int),
{
    let mut v: Vec<u8> = Vec::new();
    let mut i: usize = from;
    while i < to
        invariant
            from <= i <= to <= s@.len(),
            v@ == s@.subrange(from as int, i as int),
        decreases to - i,
    {
        v.push(s[i]);
        i = i + 1;
        assert(v@ =~= s@.subrange(from as int, i as int));
    }
    v
}

/// The 32 bytes from `from` on.
pub fn array_at(s: &[u8], from: usize) -> (a: [u8; 32])
    requires
        from + 32 <= s@.len(),
    ensures
        a@ == s@.subrange(from as int, from + 32),
{
    let mut a = [0u8; 32];
    let total: usize = s.len();
    let mut i: usize = 0;
    while i < 32
        invariant
            i <= 32,
            total == s@.len(),
            from + 32 <= s@.len(),
            forall|j: int| 0 <= j < i ==> a@[j] == s@[from + j],
        decreases 32 - i,
    {
        a[i] = s[from + i];
        i = i + 1;
    }
    assert(a@ =~= s@.subrange(from as int, from + 32));
    a
}

/// Appends a copy of `more` to `v`.
pub fn extend(v: &mut Vec<u8>, more: &[u8])
    ensures
        final(v)@ == old(v)@ + more@,
{
    v.extend_from_slice(more);
    assert(v@ =~= old(v)@ + more@);
}

} // verus!
