//! Writing the settings and reading them back.

use vstd::prelude::*;
use crate::bytes::{lemma_split_on_nonempty, split_on};
use crate::config::{
    apply_config_line, apply_config_lines, bool_text, config_line, config_lines, config_text,
    join_lines, parse_config, strip_cr, text_lines, ConfigView, default_config,
};
use crate::text::{decimal, lemma_decimal_digits, lemma_parse_decimal, parse_unsigned};

verus! {

/// Splitting a concatenation: the last piece of the first part and the
/// first piece of the second part merge.
pub proof fn lemma_split_concat<A>(a: Seq<A>, b: Seq<A>, sep: A)
    ensures
        split_on(a + b, sep) == split_on(a, sep).drop_last() + seq![
            split_on(a, sep).last() + split_on(b, sep)[0],
        ] + split_on(b, sep).skip(1),
    decreases b.len(),
{
    lemma_split_on_nonempty(a, sep);
    lemma_split_on_nonempty(b, sep);
    if b.len() == 0 {
        assert(a + b =~= a);
        assert(split_on(a, sep).last() + split_on(b, sep)[0] =~= split_on(a, sep).last());
        assert(split_on(a, sep).drop_last() + seq![split_on(a, sep).last()] =~= split_on(a, sep));
        assert(split_on(b, sep).skip(1) =~= Seq::<Seq<A>>::empty());
        assert(split_on(a, sep).drop_last() + seq![split_on(a, sep).last() + split_on(b, sep)[0]]
            + split_on(b, sep).skip(1) =~= split_on(a, sep));
    } else {
        let b2 = b.drop_last();
        let x = b.last();
        lemma_split_concat(a, b2, sep);
        lemma_split_on_nonempty(b2, sep);
        assert((a + b).drop_last() =~= a + b2);
        assert((a + b).last() == x);
        let sa = split_on(a, sep);
        let q = split_on(b2, sep);
        let p = split_on(a + b2, sep);
        if x == sep {
            assert(split_on(b, sep) == q.push(Seq::<A>::empty()));
            assert(split_on(b, sep)[0] == q[0]);
            assert(split_on(b, sep).skip(1) =~= q.skip(1).push(Seq::<A>::empty()));
            assert(split_on(a + b, sep) == p.push(Seq::<A>::empty()));
            assert(split_on(a + b, sep) =~= sa.drop_last() + seq![sa.last() + split_on(b, sep)[0]]
                + split_on(b, sep).skip(1));
        } else {
            let qb = q.update(q.len() - 1, q.last().push(x));
            assert(split_on(b, sep) == qb);
            assert(split_on(a + b, sep) == p.update(p.len() - 1, p.last().push(x)));
            if q.len() == 1 {
                assert(qb[0] == q[0].push(x));
                assert(qb.skip(1) =~= Seq::<Seq<A>>::empty());
                assert(q.skip(1) =~= Seq::<Seq<A>>::empty());
                assert(sa.last() + q[0].push(x) =~= (sa.last() + q[0]).push(x));
                assert(split_on(a + b, sep) =~= sa.drop_last() + seq![sa.last() + qb[0]] + qb.skip(1));
            } else {
                assert(qb[0] == q[0]);
                assert(qb.skip(1) =~= q.skip(1).update(q.len() - 2, q.last().push(x)));
                assert(split_on(a + b, sep) =~= sa.drop_last() + seq![sa.last() + qb[0]] + qb.skip(1));
            }
        }
    }
}

/// A text without the separator is a single piece.
pub proof fn lemma_split_no_sep<A>(s: Seq<A>, sep: A)
    requires
        !s.contains(sep),
    ensures
        split_on(s, sep) == seq![s],
    decreases s.len(),
{
    if s.len() == 0 {
        assert(s =~= Seq::<A>::empty());
        assert(seq![s] =~= seq![Seq::<A>::empty()]);
    } else {
        assert(!s.drop_last().contains(sep)) by {
            if s.drop_last().contains(sep) {
                let i = choose|i: int| 0 <= i < s.drop_last().len() && s.drop_last()[i] == sep;
                assert(s[i] == sep);
            }
        }
        lemma_split_no_sep(s.drop_last(), sep);
        assert(s.last() != sep) by {
            assert(s[s.len() - 1] == s.last());
        }
        assert(s.drop_last().push(s.last()) =~= s);
    }
}

/// Lines without line breaks, joined, split back into the lines and an
/// empty piece after the last break.
pub proof fn lemma_split_joined(ls: Seq<Seq<char>>)
    requires
        forall|i: int| 0 <= i < ls.len() ==> !(#[trigger] ls[i]).contains('\n'),
    ensures
        split_on(join_lines(ls), '\n') == ls.push(Seq::<char>::empty()),
    decreases ls.len(),
{
    if ls.len() == 0 {
        assert(ls.push(Seq::<char>::empty()) =~= seq![Seq::<char>::empty()]);
    } else {
        let prev = ls.drop_last();
        lemma_split_joined(prev);
        let a = join_lines(prev);
        let line = ls.last();
        assert(!line.contains('\n')) by {
            assert(ls[ls.len() - 1] == line);
        }
        lemma_split_no_sep(line, '\n');
        let b = line + seq!['\n'];
        assert(b.drop_last() =~= line);
        assert(split_on(b, '\n') == split_on(line, '\n').push(Seq::<char>::empty()));
        lemma_split_concat(a, b, '\n');
        assert(join_lines(ls) =~= a + b);
        assert(split_on(a, '\n').last() + line =~= line);
        assert(split_on(b, '\n').skip(1) =~= seq![Seq::<char>::empty()]);
        assert(split_on(a, '\n').drop_last() =~= prev);
        assert(split_on(join_lines(ls), '\n') =~= ls.push(Seq::<char>::empty()));
    }
}

/// Lines without line breaks or trailing carriage returns, joined, read
/// back as the same lines.
proof fn lemma_text_lines_of_joined(ls: Seq<Seq<char>>)
    requires
        forall|i: int| 0 <= i < ls.len() ==> !(#[trigger] ls[i]).contains('\n'),
        forall|i: int| 0 <= i < ls.len() ==> strip_cr(#[trigger] ls[i]) == ls[i],
    ensures
        text_lines(join_lines(ls)) == ls,
{
    lemma_split_joined(ls);
    let pieces = split_on(join_lines(ls), '\n');
    assert(pieces.last().len() == 0);
    assert(pieces.drop_last() =~= ls);
    assert forall|j: int| 0 <= j < ls.len() implies #[trigger] text_lines(join_lines(ls))[j] == ls[j] by {
        assert(pieces[j] == ls[j]);
    }
    assert(text_lines(join_lines(ls)) =~= ls);
}

/// A `key=value` line splits into its key and its value.
pub proof fn lemma_split_config_line(key: Seq<char>, val: Seq<char>)
    requires
        !key.contains('='),
        !val.contains('='),
    ensures
        split_on(config_line(key, val), '=') == seq![key, val],
{
    let a = key + seq!['='];
    lemma_split_no_sep(key, '=');
    lemma_split_no_sep(val, '=');
    assert(a.drop_last() =~= key);
    assert(split_on(a, '=') == split_on(key, '=').push(Seq::<char>::empty()));
    lemma_split_concat(a, val, '=');
    assert(config_line(key, val) =~= a + val);
    assert(split_on(a, '=').last() + val =~= val);
    assert(split_on(val, '=').skip(1) =~= Seq::<Seq<char>>::empty());
    assert(split_on(config_line(key, val), '=') =~= seq![key, val]);
}

/// A text value that reads back unchanged: no line break, no `'='` and no
/// trailing carriage return.
pub open spec fn plain_value(s: Seq<char>) -> bool {
    &&& !s.contains('\n')
    &&& !s.contains('=')
    &&& !(s.len() > 0 && s.last() == '\r')
}

proof fn lemma_decimal_plain(n: nat)
    ensures
        plain_value(decimal(n)),
        decimal(n).len() > 0,
{
    lemma_decimal_digits(n);
    let d = decimal(n);
    assert(!d.contains('\n')) by {
        if d.contains('\n') {
            let i = choose|i: int| 0 <= i < d.len() && d[i] == '\n';
            assert(crate::text::is_digit(d[i]));
        }
    }
    assert(!d.contains('=')) by {
        if d.contains('=') {
            let i = choose|i: int| 0 <= i < d.len() && d[i] == '=';
            assert(crate::text::is_digit(d[i]));
        }
    }
    assert(crate::text::is_digit(d[d.len() - 1]));
}

proof fn lemma_literal_plain()
    ensures
        plain_value("true"@),
        plain_value("false"@),
        !"search_path"@.contains('='),
        !"svg_width"@.contains('='),
        !"svg_height"@.contains('='),
        !"x_label"@.contains('='),
        !"y_label"@.contains('='),
        !"num_x_minorticks"@.contains('='),
        !"num_y_minorticks"@.contains('='),
        !"draw_xaxis"@.contains('='),
        !"draw_yaxis"@.contains('='),
        !"search_path"@.contains('\n'),
        !"svg_width"@.contains('\n'),
        !"svg_height"@.contains('\n'),
        !"x_label"@.contains('\n'),
        !"y_label"@.contains('\n'),
        !"num_x_minorticks"@.contains('\n'),
        !"num_y_minorticks"@.contains('\n'),
        !"draw_xaxis"@.contains('\n'),
        !"draw_yaxis"@.contains('\n'),
{
    reveal_strlit("true");
    reveal_strlit("false");
    reveal_strlit("search_path");
    reveal_strlit("svg_width");
    reveal_strlit("svg_height");
    reveal_strlit("x_label");
    reveal_strlit("y_label");
    reveal_strlit("num_x_minorticks");
    reveal_strlit("num_y_minorticks");
    reveal_strlit("draw_xaxis");
    reveal_strlit("draw_yaxis");
}

proof fn lemma_concat_contains(a: Seq<char>, b: Seq<char>, x: char)
    ensures
        (a + b).contains(x) <==> (a.contains(x) || b.contains(x)),
{
    if (a + b).contains(x) {
        let i = choose|i: int| 0 <= i < (a + b).len() && (a + b)[i] == x;
        if i < a.len() {
            assert(a[i] == x);
        } else {
            assert(b[i - a.len()] == x);
        }
    }
    if a.contains(x) {
        let i = choose|i: int| 0 <= i < a.len() && a[i] == x;
        assert((a + b)[i] == x);
    }
    if b.contains(x) {
        let i = choose|i: int| 0 <= i < b.len() && b[i] == x;
        assert((a + b)[a.len() + i] == x);
    }
}

/// Facts about one written line: it has no line break, ends with no
/// carriage return, and splits into its key and value.
proof fn lemma_written_line(key: Seq<char>, val: Seq<char>)
    requires
        !key.contains('='),
        !key.contains('\n'),
        plain_value(val),
        key.len() > 0,
    ensures
        !config_line(key, val).contains('\n'),
        strip_cr(config_line(key, val)) == config_line(key, val),
        split_on(config_line(key, val), '=') == seq![key, val],
        config_line(key, val)[0] == key[0],
{
    lemma_concat_contains(key, seq!['='], '\n');
    lemma_concat_contains(key + seq!['='], val, '\n');
    assert(!seq!['='].contains('\n')) by {
        if seq!['='].contains('\n') {
            let i = choose|i: int| 0 <= i < 1 && seq!['='][i] == '\n';
        }
    }
    lemma_split_config_line(key, val);
    let l = config_line(key, val);
    if val.len() > 0 {
        assert(l.last() == val.last());
    } else {
        assert(l.last() == '=');
    }
}

proof fn lemma_apply_step(d: ConfigView, ls: Seq<Seq<char>>, k: int)
    requires
        0 <= k < ls.len(),
    ensures
        apply_config_lines(d, ls.take(k + 1)) == apply_config_line(apply_config_lines(d, ls.take(k)), ls[k]),
{
    assert(ls.take(k + 1).drop_last() =~= ls.take(k));
}

/// The settings, written to a configuration file and read back, are the
/// same settings, provided the search path and the labels hold no line
/// break, no `'='` and no trailing carriage return.
#[verifier::rlimit(40)]
pub proof fn lemma_config_roundtrip(c: ConfigView)
    requires
        plain_value(c.search_path),
        plain_value(c.x_label),
        plain_value(c.y_label),
    ensures
        parse_config(config_text(c)) == c,
{
    let ls = config_lines(c);
    lemma_literal_plain();
    lemma_decimal_plain(c.svg_width as nat);
    lemma_decimal_plain(c.svg_height as nat);
    lemma_decimal_plain(c.num_x_minorticks as nat);
    lemma_decimal_plain(c.num_y_minorticks as nat);
    lemma_parse_decimal(c.svg_width as nat, u64::MAX as nat);
    lemma_parse_decimal(c.svg_height as nat, u64::MAX as nat);
    lemma_parse_decimal(c.num_x_minorticks as nat, usize::MAX as nat);
    lemma_parse_decimal(c.num_y_minorticks as nat, usize::MAX as nat);
    reveal_strlit("true");
    reveal_strlit("false");
    reveal_strlit("search_path");
    reveal_strlit("svg_width");
    reveal_strlit("svg_height");
    reveal_strlit("x_label");
    reveal_strlit("y_label");
    reveal_strlit("num_x_minorticks");
    reveal_strlit("num_y_minorticks");
    reveal_strlit("draw_xaxis");
    reveal_strlit("draw_yaxis");
    assert("num_y_minorticks"@[4] != "num_x_minorticks"@[4]);
    assert("num_y_minorticks"@ != "num_x_minorticks"@);
    assert("draw_yaxis"@[5] != "draw_xaxis"@[5]);
    assert("draw_yaxis"@ != "draw_xaxis"@);
    lemma_written_line("search_path"@, c.search_path);
    lemma_written_line("svg_width"@, decimal(c.svg_width as nat));
    lemma_written_line("svg_height"@, decimal(c.svg_height as nat));
    lemma_written_line("x_label"@, c.x_label);
    lemma_written_line("y_label"@, c.y_label);
    lemma_written_line("num_x_minorticks"@, decimal(c.num_x_minorticks as nat));
    lemma_written_line("num_y_minorticks"@, decimal(c.num_y_minorticks as nat));
    lemma_written_line("draw_xaxis"@, bool_text(c.draw_xaxis));
    lemma_written_line("draw_yaxis"@, bool_text(c.draw_yaxis));
    assert forall|i: int| 0 <= i < ls.len() implies !(#[trigger] ls[i]).contains('\n') by {}
    assert forall|i: int| 0 <= i < ls.len() implies strip_cr(#[trigger] ls[i]) == ls[i] by {}
    lemma_text_lines_of_joined(ls);
    let d = default_config();
    let c1 = apply_config_line(d, ls[0]);
    let c2 = apply_config_line(c1, ls[1]);
    let c3 = apply_config_line(c2, ls[2]);
    let c4 = apply_config_line(c3, ls[3]);
    let c5 = apply_config_line(c4, ls[4]);
    let c6 = apply_config_line(c5, ls[5]);
    let c7 = apply_config_line(c6, ls[6]);
    let c8 = apply_config_line(c7, ls[7]);
    let c9 = apply_config_line(c8, ls[8]);
    assert(ls.take(0) =~= Seq::<Seq<char>>::empty());
    lemma_apply_step(d, ls, 0);
    lemma_apply_step(d, ls, 1);
    lemma_apply_step(d, ls, 2);
    lemma_apply_step(d, ls, 3);
    lemma_apply_step(d, ls, 4);
    lemma_apply_step(d, ls, 5);
    lemma_apply_step(d, ls, 6);
    lemma_apply_step(d, ls, 7);
    lemma_apply_step(d, ls, 8);
    assert(apply_config_lines(d, ls.take(1)) == c1);
    assert(apply_config_lines(d, ls.take(2)) == c2);
    assert(apply_config_lines(d, ls.take(3)) == c3);
    assert(apply_config_lines(d, ls.take(4)) == c4);
    assert(apply_config_lines(d, ls.take(5)) == c5);
    assert(apply_config_lines(d, ls.take(6)) == c6);
    assert(apply_config_lines(d, ls.take(7)) == c7);
    assert(apply_config_lines(d, ls.take(8)) == c8);
    assert(apply_config_lines(d, ls.take(9)) == c9);
    assert(ls.take(9) =~= ls);
    assert(c1.search_path == c.search_path);
    assert(c2.svg_width == c.svg_width);
    assert(c3.svg_height == c.svg_height);
    assert(c4.x_label == c.x_label);
    assert(c5.y_label == c.y_label);
    assert(c6.num_x_minorticks == c.num_x_minorticks);
    assert(c7.num_y_minorticks == c.num_y_minorticks);
    assert(c8.draw_xaxis == c.draw_xaxis);
    assert(c9.draw_yaxis == c.draw_yaxis);
    assert(c9 =~= c);
}

/// A comment line: it starts with `'#'`.
pub open spec fn is_comment(line: Seq<char>) -> bool {
    line.len() > 0 && line[0] == '#'
}

/// The lines that are not comments, in order.
pub open spec fn drop_comments(ls: Seq<Seq<char>>) -> Seq<Seq<char>>
    decreases ls.len(),
{
    if ls.len() == 0 {
        Seq::<Seq<char>>::empty()
    } else if is_comment(ls.last()) {
        drop_comments(ls.drop_last())
    } else {
        drop_comments(ls.drop_last()).push(ls.last())
    }
}

/// Comment lines change nothing: the settings after some lines are the
/// settings after the same lines without their comments.
pub proof fn lemma_comments_change_nothing(c: ConfigView, ls: Seq<Seq<char>>)
    ensures
        apply_config_lines(c, ls) == apply_config_lines(c, drop_comments(ls)),
    decreases ls.len(),
{
    if ls.len() > 0 {
        lemma_comments_change_nothing(c, ls.drop_last());
        if !is_comment(ls.last()) {
            let d = drop_comments(ls.drop_last()).push(ls.last());
            assert(d.drop_last() =~= drop_comments(ls.drop_last()));
            assert(d.last() == ls.last());
        }
    }
}

/// Two configuration texts whose lines differ only in comment lines,
/// inserted or removed anywhere, give the same settings.
pub proof fn lemma_comment_lines_ignored(t1: Seq<char>, t2: Seq<char>)
    requires
        drop_comments(text_lines(t1)) == drop_comments(text_lines(t2)),
    ensures
        parse_config(t1) == parse_config(t2),
{
    lemma_comments_change_nothing(default_config(), text_lines(t1));
    lemma_comments_change_nothing(default_config(), text_lines(t2));
}

/// The key of a configuration line: the text before the first `'='`.
pub open spec fn line_key(line: Seq<char>) -> Seq<char> {
    split_on(line, '=')[0]
}

/// The value of a configuration line: the text between the first and the
/// second `'='`.
pub open spec fn line_value(line: Seq<char>) -> Seq<char> {
    split_on(line, '=')[1]
}

/// A line that sets something: no comment, and with a `'='`.
pub open spec fn is_setting(line: Seq<char>) -> bool {
    !is_comment(line) && split_on(line, '=').len() >= 2
}

/// Each line changes at most the field its key names, and only to what its
/// value says: a comment, a line without `'='` or a line with an unknown
/// key changes nothing; a `search_path`, `x_label` or `y_label` line sets
/// that field to its value; a number line sets its field when the value
/// reads as a number; an axis line sets its flag when the value is `true`
/// or `false`.
pub proof fn lemma_config_line_fields(c: ConfigView, line: Seq<char>)
    ensures
        ({
            let r = apply_config_line(c, line);
            let key = line_key(line);
            let val = line_value(line);
            &&& !is_setting(line) ==> r == c
            &&& r.search_path != c.search_path ==> is_setting(line) && key == "search_path"@ && r.search_path == val
            &&& r.x_label != c.x_label ==> is_setting(line) && key == "x_label"@ && r.x_label == val
            &&& r.y_label != c.y_label ==> is_setting(line) && key == "y_label"@ && r.y_label == val
            &&& r.svg_width != c.svg_width ==> is_setting(line) && key == "svg_width"@ && parse_unsigned(val, u64::MAX as nat)
                == Some(r.svg_width as nat)
            &&& r.svg_height != c.svg_height ==> is_setting(line) && key == "svg_height"@ && parse_unsigned(
                val,
                u64::MAX as nat,
            ) == Some(r.svg_height as nat)
            &&& r.num_x_minorticks != c.num_x_minorticks ==> is_setting(line) && key == "num_x_minorticks"@
                && parse_unsigned(val, usize::MAX as nat) == Some(r.num_x_minorticks as nat)
            &&& r.num_y_minorticks != c.num_y_minorticks ==> is_setting(line) && key == "num_y_minorticks"@
                && parse_unsigned(val, usize::MAX as nat) == Some(r.num_y_minorticks as nat)
            &&& r.draw_xaxis != c.draw_xaxis ==> is_setting(line) && key == "draw_xaxis"@ && val == bool_text(r.draw_xaxis)
            &&& r.draw_yaxis != c.draw_yaxis ==> is_setting(line) && key == "draw_yaxis"@ && val == bool_text(r.draw_yaxis)
            &&& is_setting(line) && key == "search_path"@ ==> r.search_path == val
            &&& is_setting(line) && key == "x_label"@ ==> r.x_label == val
            &&& is_setting(line) && key == "y_label"@ ==> r.y_label == val
            &&& is_setting(line) && key == "svg_width"@ && parse_unsigned(val, u64::MAX as nat) is Some
                ==> r.svg_width == parse_unsigned(val, u64::MAX as nat)->0
            &&& is_setting(line) && key == "svg_height"@ && parse_unsigned(val, u64::MAX as nat) is Some
                ==> r.svg_height == parse_unsigned(val, u64::MAX as nat)->0
            &&& is_setting(line) && key == "num_x_minorticks"@ && parse_unsigned(val, usize::MAX as nat) is Some
                ==> r.num_x_minorticks == parse_unsigned(val, usize::MAX as nat)->0
            &&& is_setting(line) && key == "num_y_minorticks"@ && parse_unsigned(val, usize::MAX as nat) is Some
                ==> r.num_y_minorticks == parse_unsigned(val, usize::MAX as nat)->0
            &&& is_setting(line) && key == "draw_xaxis"@ && (val == "true"@ || val == "false"@) ==> val == bool_text(r.draw_xaxis)
            &&& is_setting(line) && key == "draw_yaxis"@ && (val == "true"@ || val == "false"@) ==> val == bool_text(r.draw_yaxis)
        }),
{
    reveal_strlit("true");
    reveal_strlit("false");
    reveal_strlit("search_path");
    reveal_strlit("svg_width");
    reveal_strlit("svg_height");
    reveal_strlit("x_label");
    reveal_strlit("y_label");
    reveal_strlit("num_x_minorticks");
    reveal_strlit("num_y_minorticks");
    reveal_strlit("draw_xaxis");
    reveal_strlit("draw_yaxis");
    assert("num_y_minorticks"@[4] != "num_x_minorticks"@[4]);
    assert("draw_yaxis"@[5] != "draw_xaxis"@[5]);
    assert("svg_height"@.len() != "svg_width"@.len());
    assert("y_label"@[0] != "x_label"@[0]);
    assert("true"@.len() != "false"@.len());
}

} // verus!
