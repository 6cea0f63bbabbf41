//! Joining of file paths, as on Unix systems.

use vstd::prelude::*;
use crate::text::{chars_of, push_chars, string_from_chars};
use crate::bytes::{lemma_split_on_nonempty, split_on};
use crate::config::{chars_equal, split_chars};

verus! {

/// `base` joined with `rel` as `Path::join` joins them on Unix: an absolute
/// `rel` replaces `base`; otherwise a `'/'` is put between the two unless
/// `base` is empty or already ends with one.
pub open spec fn path_join(base: Seq<char>, rel: Seq<char>) -> Seq<char> {
    if rel.len() > 0 && rel[0] == '/' {
        rel
    } else if base.len() == 0 || base.last() == '/' {
        base + rel
    } else {
        base + seq!['/'] + rel
    }
}

/// Joins `rel` to `base` as `Path::join` does on Unix.
pub fn join_path(base: &str, rel: &str) -> (r: String)
    ensures
        r@ == path_join(base@, rel@),
{
    let b = chars_of(base);
    let r = chars_of(rel);
    if r.len() > 0 && r[0] == '/' {
        return string_from_chars(r.as_slice());
    }
    let mut out: Vec<char> = b;
    let n = out.len();
    if n > 0 && out[n - 1] != '/' {
        out.push('/');
    }
    let m = r.len();
    let mut i: usize = 0;
    let ghost start = out@;
    while i < m
        invariant
            m == r@.len(),
            i <= m,
            out@ == start + r@.take(i as int),
        decreases m - i,
    {
        out.push(r[i]);
        assert(r@.take(i + 1) =~= r@.take(i as int).push(r@[i as int]));
        i = i + 1;
    }
    assert(r@.take(m as int) =~= r@);
    proof {
        if base@.len() == 0 || base@.last() == '/' {
            assert(out@ =~= base@ + rel@);
        } else {
            assert(out@ =~= base@ + seq!['/'] + rel@);
        }
    }
    string_from_chars(out.as_slice())
}

/// The last piece of a path that names something: empty pieces and `"."`
/// are skipped, as `Path::components` skips them.
pub open spec fn last_named_piece(pieces: Seq<Seq<char>>) -> Option<Seq<char>>
    decreases pieces.len(),
{
    if pieces.len() == 0 {
        None
    } else if pieces.last().len() == 0 || pieces.last() == seq!['.'] {
        last_named_piece(pieces.drop_last())
    } else {
        Some(pieces.last())
    }
}

/// The final component of a path, as `Path::file_name` gives it on Unix:
/// none for a path that ends in `".."` or names no component.
pub open spec fn spec_file_name(path: Seq<char>) -> Option<Seq<char>> {
    match last_named_piece(split_on(path, '/')) {
        Some(s) => if s == seq!['.', '.'] {
            None
        } else {
            Some(s)
        },
        None => None,
    }
}

/// The final component of a path.
pub fn file_name(path: &str) -> (r: Option<String>)
    ensures
        match r {
            Some(s) => spec_file_name(path@) == Some(s@),
            None => spec_file_name(path@) is None,
        },
{
    let chars = chars_of(path);
    let pieces = split_chars(chars.as_slice(), '/');
    let ghost ps = split_on(path@, '/');
    let n = pieces.len();
    let mut i: usize = n;
    assert(ps.take(n as int) =~= ps);
    while i > 0
        invariant
            ps == split_on(path@, '/'),
            n == ps.len(),
            pieces@.len() == n,
            forall|k: int| 0 <= k < n ==> #[trigger] pieces@[k]@ == ps[k],
            i <= n,
            last_named_piece(ps) == last_named_piece(ps.take(i as int)),
        decreases i,
    {
        assert(ps.take(i as int).drop_last() =~= ps.take(i - 1));
        assert(ps.take(i as int).last() == ps[i - 1]);
        let piece = &pieces[i - 1];
        let is_dot = piece.len() == 1 && piece[0] == '.';
        proof {
            if piece@.len() == 1 && piece@[0] == '.' {
                assert(piece@ =~= seq!['.']);
            }
        }
        if piece.len() > 0 && !is_dot {
            assert(piece@ != seq!['.']) by {
                if piece@ == seq!['.'] {
                    assert(piece@.len() == 1 && piece@[0] == '.');
                }
            }
            assert(last_named_piece(ps.take(i as int)) == Some(piece@));
            let is_dotdot = piece.len() == 2 && piece[0] == '.' && piece[1] == '.';
            if is_dotdot {
                assert(piece@ =~= seq!['.', '.']);
                return None;
            }
            assert(piece@ != seq!['.', '.']);
            return Some(string_from_chars(piece.as_slice()));
        }
        i = i - 1;
    }
    assert(ps.take(0) =~= Seq::<Seq<char>>::empty());
    None
}

/// The pieces of a path that name something, in order: empty pieces and
/// `"."` leave none.
pub open spec fn named_pieces(pieces: Seq<Seq<char>>) -> Seq<Seq<char>>
    decreases pieces.len(),
{
    if pieces.len() == 0 {
        Seq::<Seq<char>>::empty()
    } else if pieces.last().len() == 0 || pieces.last() == seq!['.'] {
        named_pieces(pieces.drop_last())
    } else {
        named_pieces(pieces.drop_last()).push(pieces.last())
    }
}

/// The components of a path, as `Path::components` gives them on Unix, the
/// root written `"/"` and a leading current directory `"."`: repeated
/// separators, a trailing separator and `"."` after the start leave no
/// component.
pub open spec fn path_components(path: Seq<char>) -> Seq<Seq<char>> {
    let pieces = split_on(path, '/');
    let head = if path.len() > 0 && path[0] == '/' {
        seq![seq!['/']]
    } else if pieces[0] == seq!['.'] {
        seq![seq!['.']]
    } else {
        Seq::<Seq<char>>::empty()
    };
    head + named_pieces(pieces)
}

/// Two paths name the same file as `Path` compares them: they have the same
/// components.
pub open spec fn same_path(a: Seq<char>, b: Seq<char>) -> bool {
    path_components(a) == path_components(b)
}

/// The texts of character vectors.
pub open spec fn texts(v: Seq<Vec<char>>) -> Seq<Seq<char>> {
    Seq::new(v.len(), |k: int| v[k]@)
}

/// The components of a path.
pub fn path_components_of(path: &str) -> (r: Vec<Vec<char>>)
    ensures
        texts(r@) == path_components(path@),
{
    let chars = chars_of(path);
    let pieces = split_chars(chars.as_slice(), '/');
    let ghost ps = split_on(path@, '/');
    proof {
        lemma_split_on_nonempty(path@, '/');
    }
    let n = pieces.len();
    let mut out: Vec<Vec<char>> = Vec::new();
    if chars.len() > 0 && chars[0] == '/' {
        let mut root: Vec<char> = Vec::new();
        root.push('/');
        out.push(root);
    } else if pieces[0].len() == 1 && pieces[0][0] == '.' {
        let mut dot: Vec<char> = Vec::new();
        dot.push('.');
        out.push(dot);
        assert(pieces@[0]@ =~= seq!['.']);
    } else {
        assert(pieces@[0]@ != seq!['.']) by {
            if pieces@[0]@ == seq!['.'] {
                assert(pieces@[0]@.len() == 1 && pieces@[0]@[0] == '.');
            }
        }
    }
    let ghost head = texts(out@);
    assert(head + named_pieces(ps.take(0)) =~= head) by {
        assert(ps.take(0) =~= Seq::<Seq<char>>::empty());
    }
    let mut i: usize = 0;
    while i < n
        invariant
            ps == split_on(path@, '/'),
            n == ps.len(),
            pieces@.len() == n,
            forall|k: int| 0 <= k < n ==> #[trigger] pieces@[k]@ == ps[k],
            i <= n,
            texts(out@) == head + named_pieces(ps.take(i as int)),
        decreases n - i,
    {
        assert(ps.take(i + 1).drop_last() =~= ps.take(i as int));
        assert(ps.take(i + 1).last() == ps[i as int]);
        let piece = &pieces[i];
        let is_dot = piece.len() == 1 && piece[0] == '.';
        proof {
            if piece@.len() == 1 && piece@[0] == '.' {
                assert(piece@ =~= seq!['.']);
            }
            if piece@ == seq!['.'] {
                assert(piece@.len() == 1 && piece@[0] == '.');
            }
        }
        if piece.len() > 0 && !is_dot {
            let mut copy: Vec<char> = Vec::new();
            push_chars(&mut copy, piece.as_slice());
            assert(copy@ =~= piece@);
            let ghost before = texts(out@);
            out.push(copy);
            assert(texts(out@) =~= before.push(piece@));
            assert(texts(out@) =~= head + named_pieces(ps.take(i + 1)));
        } else {
            assert(texts(out@) =~= head + named_pieces(ps.take(i + 1)));
        }
        i = i + 1;
    }
    assert(ps.take(n as int) =~= ps);
    out
}

/// Whether two paths name the same file, as `Path` compares them.
pub fn paths_equal(a: &str, b: &str) -> (r: bool)
    ensures
        r == same_path(a@, b@),
{
    let ca = path_components_of(a);
    let cb = path_components_of(b);
    if ca.len() != cb.len() {
        assert(texts(ca@).len() != texts(cb@).len());
        return false;
    }
    let n = ca.len();
    assert(texts(ca@).len() == n && texts(cb@).len() == n);
    assert(texts(ca@) == path_components(a@));
    assert(texts(cb@) == path_components(b@));
    let mut k: usize = 0;
    while k < n
        invariant
            n == ca@.len(),
            n == cb@.len(),
            k <= n,
            texts(ca@) == path_components(a@),
            texts(cb@) == path_components(b@),
            forall|j: int| 0 <= j < k ==> #[trigger] texts(ca@)[j] == texts(cb@)[j],
        decreases n - k,
    {
        if !chars_equal(ca[k].as_slice(), cb[k].as_slice()) {
            assert(texts(ca@)[k as int] != texts(cb@)[k as int]);
            assert(path_components(a@)[k as int] != path_components(b@)[k as int]);
            return false;
        }
        k = k + 1;
    }
    assert(texts(ca@) =~= texts(cb@));
    true
}

} // verus!
