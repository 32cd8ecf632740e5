//! Searching byte strings.

use vstd::prelude::*;

verus! {

/// `pat` stands in `hay` at position `i`.
pub open spec fn occurs_at(hay: Seq<u8>, pat: Seq<u8>, i: int) -> bool {
    &&& 0 <= i
    &&& i + pat.len() <= hay.len()
    &&& hay.subrange(i, i + pat.len()) == pat
}

/// `pat` stands somewhere in `hay`.
pub open spec fn occurs(hay: Seq<u8>, pat: Seq<u8>) -> bool {
    exists|i: int| occurs_at(hay, pat, i)
}

/// `i` is the first position at which `pat` stands in `hay`.
pub open spec fn first_occurrence(hay: Seq<u8>, pat: Seq<u8>, i: int) -> bool {
    &&& occurs_at(hay, pat, i)
    &&& forall|j: int| 0 <= j < i ==> !occurs_at(hay, pat, j)
}

/// Tells whether `pat` stands in `hay` at position `i`.
pub fn matches_at(hay: &[u8], pat: &[u8], i: usize) -> (r: bool)
    ensures
        r == occurs_at(hay@, pat@, i as int),
{
    if i > hay.len() || pat.len() > hay.len() - i {
        return false;
    }
    let mut k: usize = 0;
    while k < pat.len()
        invariant
            k <= pat.len(),
            i + pat.len() <= hay.len(),
            forall|m: int| 0 <= m < k ==> hay[i + m] == pat[m],
        decreases pat.len() - k,
    {
        if hay[i + k] != pat[k] {
            assert(hay@.subrange(i as int, i + pat.len())[k as int] != pat@[k as int]);
            return false;
        }
        k += 1;
    }
    assert(hay@.subrange(i as int, i + pat.len()) =~= pat@);
    true
}

/// The first position at which `pat` stands in `hay`, if there is one.
pub fn find(hay: &[u8], pat: &[u8]) -> (r: Option<usize>)
    ensures
        match r {
            Some(i) => first_occurrence(hay@, pat@, i as int),
            None => !occurs(hay@, pat@),
        },
{
    let mut i: usize = 0;
    while i < hay.len()
        invariant
            i <= hay.len(),
            forall|j: int| 0 <= j < i ==> !occurs_at(hay@, pat@, j),
        decreases hay.len() - i,
    {
        if matches_at(hay, pat, i) {
            return Some(i);
        }
        i += 1;
    }
    if matches_at(hay, pat, i) {
        Some(i)
    } else {
        None
    }
}

/// Tells whether `pat` stands somewhere in `hay`.
pub fn contains(hay: &[u8], pat: &[u8]) -> (r: bool)
    ensures
        r == occurs(hay@, pat@),
{
    find(hay, pat).is_some()
}

/// The first position from `from` on at which `byte` stands in `bytes`, or
/// the length of `bytes` where it stands nowhere behind `from`. For a `from`
/// outside `bytes`, `from` itself.
pub open spec fn next_byte(bytes: Seq<u8>, byte: u8, from: int) -> int
    decreases bytes.len() - from,
{
    if from < 0 || from >= bytes.len() || bytes[from] == byte {
        from
    } else {
        next_byte(bytes, byte, from + 1)
    }
}

/// The next place of a byte lies at or behind the place from which it is
/// looked for, and within the bytes.
pub proof fn lemma_next_byte_bounds(bytes: Seq<u8>, byte: u8, from: int)
    requires
        0 <= from <= bytes.len(),
    ensures
        from <= next_byte(bytes, byte, from) <= bytes.len(),
    decreases bytes.len() - from,
{
    if from < bytes.len() && bytes[from] != byte {
        lemma_next_byte_bounds(bytes, byte, from + 1);
    }
}

/// Looks for a byte from a position on.
pub fn find_byte(bytes: &[u8], byte: u8, from: usize) -> (at: usize)
    requires
        from <= bytes.len(),
    ensures
        at == next_byte(bytes@, byte, from as int),
        from <= at <= bytes.len(),
{
    let mut at: usize = from;
    while at < bytes.len() && bytes[at] != byte
        invariant
            from <= at <= bytes.len(),
            next_byte(bytes@, byte, from as int) == next_byte(bytes@, byte, at as int),
        decreases bytes.len() - at,
    {
        at += 1;
    }
    at
}

} // verus!
