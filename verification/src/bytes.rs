//! Substring search and splitting on byte strings, the building blocks of
//! the fuzzy file search.

use vstd::prelude::*;

verus! {

/// `needle` stands in `hay` at position `i`.
pub open spec fn occurs_at(hay: Seq<u8>, needle: Seq<u8>, i: int) -> bool {
    &&& 0 <= i
    &&& i + needle.len() <= hay.len()
    &&& forall|k: int| 0 <= k < needle.len() ==> #[trigger] hay[i + k] == needle[k]
}

/// `needle` stands somewhere in `hay` (the empty needle stands everywhere).
pub open spec fn contains_bytes(hay: Seq<u8>, needle: Seq<u8>) -> bool {
    exists|i: int| occurs_at(hay, needle, i)
}

/// `i` is the leftmost position at which `needle` stands in `hay`.
pub open spec fn is_first_occurrence(hay: Seq<u8>, needle: Seq<u8>, i: int) -> bool {
    &&& occurs_at(hay, needle, i)
    &&& forall|j: int| 0 <= j < i ==> !occurs_at(hay, needle, j)
}

/// The leftmost position of `needle` in `hay`; meaningful where
/// `contains_bytes(hay, needle)` holds.
pub open spec fn first_index(hay: Seq<u8>, needle: Seq<u8>) -> int {
    choose|i: int| is_first_occurrence(hay, needle, i)
}

/// The pieces of `s` between the occurrences of `sep`, empty pieces
/// included: `"a  b"` gives `"a"`, `""`, `"b"` and the empty string gives one
/// empty piece.
pub open spec fn split_on<A>(s: Seq<A>, sep: A) -> Seq<Seq<A>>
    decreases s.len(),
{
    if s.len() == 0 {
        seq![Seq::<A>::empty()]
    } else {
        let prev = split_on(s.drop_last(), sep);
        if s.last() == sep {
            prev.push(Seq::<A>::empty())
        } else {
            prev.update(prev.len() - 1, prev.last().push(s.last()))
        }
    }
}

pub proof fn lemma_split_on_nonempty<A>(s: Seq<A>, sep: A)
    ensures
        split_on(s, sep).len() >= 1,
    decreases s.len(),
{
    if s.len() > 0 {
        lemma_split_on_nonempty(s.drop_last(), sep);
    }
}

/// A needle has at most one leftmost position.
pub proof fn lemma_first_occurrence_unique(hay: Seq<u8>, needle: Seq<u8>, i: int)
    requires
        is_first_occurrence(hay, needle, i),
    ensures
        first_index(hay, needle) == i,
        contains_bytes(hay, needle),
{
    let j = first_index(hay, needle);
    assert(is_first_occurrence(hay, needle, j));
    if j < i {
        assert(!occurs_at(hay, needle, j));
    } else if i < j {
        assert(!occurs_at(hay, needle, i));
    }
}

/// Whether `needle` stands in `hay` at `i`.
pub fn matches_at(hay: &[u8], needle: &[u8], i: usize) -> (r: bool)
    requires
        i + needle@.len() <= hay@.len(),
    ensures
        r == occurs_at(hay@, needle@, i as int),
{
    let n = needle.len();
    let mut k: usize = 0;
    while k < n
        invariant
            n == needle@.len(),
            i + n <= hay@.len(),
            hay@.len() == hay.len(),
            k <= n,
            forall|m: int| 0 <= m < k ==> #[trigger] hay@[i + m] == needle@[m],
        decreases n - k,
    {
        if hay[i + k] != needle[k] {
            assert(!occurs_at(hay@, needle@, i as int)) by {
                assert(hay@[i + k as int] != needle@[k as int]);
            }
            return false;
        }
        k = k + 1;
    }
    true
}

/// The leftmost position of `needle` in `hay`, as `str::find` gives it for
/// the byte strings of two texts.
pub fn find_bytes(hay: &[u8], needle: &[u8]) -> (r: Option<usize>)
    ensures
        match r {
            Some(i) => is_first_occurrence(hay@, needle@, i as int),
            None => !contains_bytes(hay@, needle@),
        },
{
    let h = hay.len();
    let n = needle.len();
    if n > h {
        assert forall|j: int| !occurs_at(hay@, needle@, j) by {}
        return None;
    }
    let mut i: usize = 0;
    while i <= h - n
        invariant
            h == hay@.len(),
            n == needle@.len(),
            n <= h,
            i <= h - n + 1,
            forall|j: int| 0 <= j < i ==> !occurs_at(hay@, needle@, j),
        decreases h - n + 1 - i,
    {
        if matches_at(hay, needle, i) {
            return Some(i);
        }
        i = i + 1;
    }
    assert forall|j: int| !occurs_at(hay@, needle@, j) by {
        if 0 <= j && j + n <= h {
            assert(j < i);
        }
    }
    None
}

/// Splits `s` at every occurrence of `sep`, as `str::split` does with a
/// one-byte pattern.
pub fn split_bytes(s: &[u8], sep: u8) -> (r: Vec<Vec<u8>>)
    ensures
        r@.len() == split_on(s@, sep).len(),
        forall|k: int| 0 <= k < r@.len() ==> #[trigger] r@[k]@ == split_on(s@, sep)[k],
{
    let n = s.len();
    let mut pieces: Vec<Vec<u8>> = Vec::new();
    let mut cur: Vec<u8> = Vec::new();
    let mut i: usize = 0;
    assert(s@.take(0) =~= Seq::<u8>::empty());
    while i < n
        invariant
            n == s@.len(),
            i <= n,
            pieces@.len() + 1 == split_on(s@.take(i as int), sep).len(),
            forall|k: int| 0 <= k < pieces@.len() ==> #[trigger] pieces@[k]@ == split_on(s@.take(i as int), sep)[k],
            cur@ == split_on(s@.take(i as int), sep).last(),
        decreases n - i,
    {
        let ghost prev = split_on(s@.take(i as int), sep);
        assert(s@.take(i + 1).drop_last() =~= s@.take(i as int));
        if s[i] == sep {
            let done = cur;
            pieces.push(done);
            cur = Vec::new();
            assert(split_on(s@.take(i + 1), sep) == prev.push(Seq::<u8>::empty()));
        } else {
            cur.push(s[i]);
            proof {
                lemma_split_on_nonempty(s@.take(i as int), sep);
            }
            assert(split_on(s@.take(i + 1), sep) == prev.update(prev.len() - 1, prev.last().push(s@[i as int])));
        }
        i = i + 1;
    }
    assert(s@.take(n as int) =~= s@);
    pieces.push(cur);
    pieces
}

} // verus!
