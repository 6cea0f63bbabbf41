//! The state held by the background worker: the search root and the index of
//! the files below it, and the fuzzy search over that index.

use std::collections::HashSet;
use vstd::prelude::*;
use vstd::utf8::encode_utf8;
use crate::bytes::{
    contains_bytes, find_bytes, first_index, is_first_occurrence, lemma_first_occurrence_unique,
    occurs_at, split_bytes, split_on,
};

verus! {

broadcast use vstd::std_specs::hash::group_hash_axioms;

/// Most matches a search returns.
pub const MAX_MATCHES: usize = 10;

/// The bytes of a text in UTF-8, as `str::as_bytes` gives them.
pub open spec fn text_bytes(s: Seq<char>) -> Seq<u8> {
    encode_utf8(s)
}

/// The words of a query: the pieces between single spaces.
pub open spec fn query_words(query: Seq<char>) -> Seq<Seq<u8>> {
    split_on(text_bytes(query), 32u8)
}

/// A path matches a query when it contains every word of the query.
pub open spec fn path_matches(path: Seq<u8>, words: Seq<Seq<u8>>) -> bool {
    forall|k: int| 0 <= k < words.len() ==> contains_bytes(path, #[trigger] words[k])
}

/// The byte positions of a matching path that the query highlights: for each
/// word, the bytes of its leftmost occurrence.
pub open spec fn highlighted(path: Seq<u8>, words: Seq<Seq<u8>>) -> Set<usize> {
    Set::new(
        |x: usize|
            exists|k: int|
                0 <= k < words.len() && first_index(path, #[trigger] words[k]) <= x
                    < first_index(path, words[k]) + words[k].len(),
    )
}

/// The positions, in order, of the paths that match.
pub open spec fn matching_indices(paths: Seq<String>, words: Seq<Seq<u8>>) -> Seq<int>
    decreases paths.len(),
{
    if paths.len() == 0 {
        Seq::<int>::empty()
    } else {
        let prev = matching_indices(paths.drop_last(), words);
        if path_matches(text_bytes(paths.last()@), words) {
            prev.push(paths.len() - 1)
        } else {
            prev
        }
    }
}

/// What `search_filter` returns: the first ten matching paths, each with its
/// highlighted positions.
pub open spec fn search_result_ok(
    paths: Seq<String>,
    query: Seq<char>,
    res: Seq<(String, HashSet<usize>)>,
) -> bool {
    let m = matching_indices(paths, query_words(query));
    &&& res.len() == if m.len() < MAX_MATCHES { m.len() } else { MAX_MATCHES as nat }
    &&& forall|k: int|
        0 <= k < res.len() ==> {
            &&& (#[trigger] res[k]).0 == paths[m[k]]
            &&& res[k].1@ == highlighted(text_bytes(res[k].0@), query_words(query))
        }
}

pub proof fn lemma_matching_indices_bounds(paths: Seq<String>, words: Seq<Seq<u8>>)
    ensures
        matching_indices(paths, words).len() <= paths.len(),
        forall|k: int|
            0 <= k < matching_indices(paths, words).len() ==> 0
                <= #[trigger] matching_indices(paths, words)[k] < paths.len(),
        forall|k: int|
            0 <= k < matching_indices(paths, words).len() ==> path_matches(
                text_bytes(paths[#[trigger] matching_indices(paths, words)[k]]@),
                words,
            ),
    decreases paths.len(),
{
    if paths.len() > 0 {
        lemma_matching_indices_bounds(paths.drop_last(), words);
    }
}

/// The matches among the first `i` paths begin the matches among all of them.
pub proof fn lemma_matching_indices_prefix(paths: Seq<String>, words: Seq<Seq<u8>>, i: int)
    requires
        0 <= i <= paths.len(),
    ensures
        matching_indices(paths.take(i), words).len() <= matching_indices(paths, words).len(),
        forall|k: int|
            0 <= k < matching_indices(paths.take(i), words).len() ==> #[trigger] matching_indices(
                paths.take(i),
                words,
            )[k] == matching_indices(paths, words)[k],
    decreases paths.len() - i,
{
    if i < paths.len() {
        lemma_matching_indices_prefix(paths, words, i + 1);
        assert(paths.take(i + 1).drop_last() =~= paths.take(i));
        let a = matching_indices(paths.take(i), words);
        let b = matching_indices(paths.take(i + 1), words);
        assert(b == a || b == a.push(i));
        assert forall|k: int| 0 <= k < a.len() implies #[trigger] a[k] == b[k] by {
            if b != a {
                assert(b == a.push(i));
            }
        }
    } else {
        assert(paths.take(i) =~= paths);
    }
}

/// The matching positions come in increasing order.
pub proof fn lemma_matching_indices_sorted(paths: Seq<String>, words: Seq<Seq<u8>>)
    ensures
        forall|a: int, b: int|
            0 <= a < b < matching_indices(paths, words).len() ==> matching_indices(paths, words)[a]
                < matching_indices(paths, words)[b],
    decreases paths.len(),
{
    if paths.len() > 0 {
        lemma_matching_indices_sorted(paths.drop_last(), words);
        lemma_matching_indices_bounds(paths.drop_last(), words);
    }
}

/// What a search returns: at most ten paths, each containing every word of
/// the query, in the order of the index, with highlighted positions that lie
/// inside the path and spell the words.
pub proof fn lemma_search_results(paths: Seq<String>, query: Seq<char>, res: Seq<(String, HashSet<usize>)>)
    requires
        search_result_ok(paths, query, res),
    ensures
        res.len() <= MAX_MATCHES,
        forall|k: int| 0 <= k < res.len() ==> path_matches(text_bytes((#[trigger] res[k]).0@), query_words(query)),
        forall|k: int, x: usize| 0 <= k < res.len() && #[trigger] res[k].1@.contains(x) ==> x < text_bytes(res[k].0@).len(),
        forall|k: int, w: int| 0 <= k < res.len() && 0 <= w < query_words(query).len() ==> occurs_at(
            text_bytes((#[trigger] res[k]).0@),
            #[trigger] query_words(query)[w],
            first_index(text_bytes(res[k].0@), query_words(query)[w]),
        ),
        exists|pos: Seq<int>| {
            &&& pos.len() == res.len()
            &&& forall|k: int| 0 <= k < res.len() ==> 0 <= #[trigger] pos[k] < paths.len() && res[k].0 == paths[pos[k]]
            &&& forall|a: int, b: int| 0 <= a < b < pos.len() ==> pos[a] < pos[b]
        },
{
    let ws = query_words(query);
    let m = matching_indices(paths, ws);
    lemma_matching_indices_bounds(paths, ws);
    lemma_matching_indices_sorted(paths, ws);
    assert forall|k: int, x: usize| 0 <= k < res.len() && #[trigger] res[k].1@.contains(x) implies x < text_bytes(res[k].0@).len() by {
        let p = text_bytes(res[k].0@);
        let w = choose|w: int| 0 <= w < ws.len() && first_index(p, #[trigger] ws[w]) <= x < first_index(p, ws[w]) + ws[w].len();
        assert(contains_bytes(p, ws[w]));
        let i = choose|i: int| occurs_at(p, ws[w], i);
        lemma_first_exists(p, ws[w], i);
    }
    assert forall|k: int, w: int| 0 <= k < res.len() && 0 <= w < ws.len() implies occurs_at(
        text_bytes((#[trigger] res[k]).0@),
        #[trigger] ws[w],
        first_index(text_bytes(res[k].0@), ws[w]),
    ) by {
        let p = text_bytes(res[k].0@);
        assert(contains_bytes(p, ws[w]));
        let i = choose|i: int| occurs_at(p, ws[w], i);
        lemma_first_exists(p, ws[w], i);
    }
    let pos = m.take(res.len() as int);
    assert(pos.len() == res.len());
}

/// A needle that stands somewhere has a leftmost position.
pub proof fn lemma_first_exists(hay: Seq<u8>, needle: Seq<u8>, i: int)
    requires
        occurs_at(hay, needle, i),
    ensures
        is_first_occurrence(hay, needle, first_index(hay, needle)),
    decreases i,
{
    if exists|j: int| 0 <= j < i && occurs_at(hay, needle, j) {
        let j = choose|j: int| 0 <= j < i && occurs_at(hay, needle, j);
        lemma_first_exists(hay, needle, j);
    } else {
        assert(is_first_occurrence(hay, needle, i));
    }
}

/// The words of `words` seen as byte sequences.
pub open spec fn word_views(words: Seq<Vec<u8>>) -> Seq<Seq<u8>> {
    Seq::new(words.len(), |k: int| words[k]@)
}

/// Whether `path` contains every word.
fn contains_all(path: &[u8], words: &Vec<Vec<u8>>) -> (r: bool)
    ensures
        r == path_matches(path@, word_views(words@)),
{
    let n = words.len();
    let mut k: usize = 0;
    while k < n
        invariant
            n == words@.len(),
            k <= n,
            forall|j: int| 0 <= j < k ==> contains_bytes(path@, #[trigger] word_views(words@)[j]),
        decreases n - k,
    {
        match find_bytes(path, words[k].as_slice()) {
            Some(_) => {},
            None => {
                assert(!contains_bytes(path@, word_views(words@)[k as int]));
                return false;
            },
        }
        k = k + 1;
    }
    true
}

/// The positions of `path` that the words highlight.
fn highlight_positions(path: &[u8], words: &Vec<Vec<u8>>) -> (r: HashSet<usize>)
    requires
        path_matches(path@, word_views(words@)),
    ensures
        r@ == highlighted(path@, word_views(words@)),
{
    let ghost ws = word_views(words@);
    let n = words.len();
    let mut set: HashSet<usize> = HashSet::new();
    let mut k: usize = 0;
    while k < n
        invariant
            n == words@.len(),
            ws == word_views(words@),
            k <= n,
            path_matches(path@, ws),
            set@ == Set::new(
                |x: usize|
                    exists|j: int|
                        0 <= j < k && first_index(path@, #[trigger] ws[j]) <= x < first_index(
                            path@,
                            ws[j],
                        ) + ws[j].len(),
            ),
        decreases n - k,
    {
        let w = words[k].as_slice();
        let found = find_bytes(path, w);
        assert(contains_bytes(path@, ws[k as int]));
        let start = match found {
            Some(s) => s,
            None => {
                return set;
            },
        };
        proof {
            lemma_first_occurrence_unique(path@, ws[k as int], start as int);
        }
        assert(start + w@.len() <= path@.len());
        assert(path@.len() == path.len());
        assert(w@.len() == w.len());
        let end = start + w.len();
        let ghost before = set@;
        let mut x = start;
        while x < end
            invariant
                start <= x <= end,
                k < ws.len(),
                end == start + ws[k as int].len(),
                set@ == before.union(Set::new(|y: usize| start <= y < x)),
            decreases end - x,
        {
            set.insert(x);
            assert(set@ =~= before.union(Set::new(|y: usize| start <= y < x + 1)));
            x = x + 1;
        }
        assert(set@ =~= Set::new(
            |x: usize|
                exists|j: int|
                    0 <= j < k + 1 && first_index(path@, #[trigger] ws[j]) <= x < first_index(
                        path@,
                        ws[j],
                    ) + ws[j].len(),
        )) by {
            assert forall|y: usize|
                (exists|j: int|
                    0 <= j < k + 1 && first_index(path@, #[trigger] ws[j]) <= y < first_index(
                        path@,
                        ws[j],
                    ) + ws[j].len()) implies set@.contains(y) by {
                let j = choose|j: int|
                    0 <= j < k + 1 && first_index(path@, #[trigger] ws[j]) <= y < first_index(
                        path@,
                        ws[j],
                    ) + ws[j].len();
                if j < k {
                    assert(before.contains(y));
                }
            }
        }
        k = k + 1;
    }
    assert(set@ =~= highlighted(path@, ws));
    set
}

/// The state of the background worker.
pub struct BackendAppState {
    search_path: String,
    child_paths_unfiltered: Vec<String>,
}

impl crate::backend::BackendState for BackendAppState {}

impl BackendAppState {
    pub closed spec fn spec_search_path(&self) -> Seq<char> {
        self.search_path@
    }

    /// The indexed files, relative to the search root.
    pub closed spec fn spec_child_paths(&self) -> Seq<String> {
        self.child_paths_unfiltered@
    }

    /// A worker state for the given search root, with nothing indexed yet.
    pub fn new(search_path: String) -> (r: Self)
        ensures
            r.spec_search_path() == search_path@,
            r.spec_child_paths() == Seq::<String>::empty(),
    {
        BackendAppState { search_path, child_paths_unfiltered: Vec::new() }
    }

    pub fn get_search_path(&self) -> (r: String)
        ensures
            r@ == self.spec_search_path(),
    {
        self.search_path.clone()
    }

    /// Moves the search root and replaces the index with the files found
    /// below it, given relative to the new root.
    pub fn set_search_path(&mut self, new_path: String, child_paths: Vec<String>)
        ensures
            final(self).spec_search_path() == new_path@,
            final(self).spec_child_paths() == child_paths@,
    {
        self.search_path = new_path;
        self.child_paths_unfiltered = child_paths;
    }

    /// Returns the first ten indexed paths that contain every word of `query`
    /// (words are separated by single spaces), each with the byte positions
    /// of the leftmost occurrence of each word.
    pub fn search_filter(&self, query: &str) -> (res: Vec<(String, HashSet<usize>)>)
        ensures
            search_result_ok(self.spec_child_paths(), query@, res@),
    {
        let words = split_bytes(query.as_bytes(), 32u8);
        let ghost ws = query_words(query@);
        assert(word_views(words@) =~= ws);
        let paths = &self.child_paths_unfiltered;
        let ghost all = paths@;
        let n = paths.len();
        let mut out: Vec<(String, HashSet<usize>)> = Vec::new();
        let mut i: usize = 0;
        while i < n && out.len() < MAX_MATCHES
            invariant
                n == all.len(),
                all == paths@,
                i <= n,
                ws == word_views(words@),
                out@.len() == matching_indices(all.take(i as int), ws).len(),
                out@.len() <= MAX_MATCHES,
                forall|k: int|
                    0 <= k < out@.len() ==> {
                        &&& (#[trigger] out@[k]).0 == all[matching_indices(all.take(i as int), ws)[k]]
                        &&& out@[k].1@ == highlighted(text_bytes(out@[k].0@), ws)
                    },
            decreases n - i,
        {
            let ghost prev = matching_indices(all.take(i as int), ws);
            assert(all.take(i + 1).drop_last() =~= all.take(i as int));
            assert(all.take(i + 1).last() == all[i as int]);
            let p = paths[i].as_str().as_bytes();
            if contains_all(p, &words) {
                let hl = highlight_positions(p, &words);
                out.push((paths[i].clone(), hl));
                assert(matching_indices(all.take(i + 1), ws) == prev.push(i as int));
            } else {
                assert(matching_indices(all.take(i + 1), ws) == prev);
            }
            i = i + 1;
        }
        proof {
            lemma_matching_indices_prefix(all, ws, i as int);
            if i == n {
                assert(all.take(n as int) =~= all);
            }
        }
        out
    }
}

} // verus!
