//! The configuration file: `key=value` lines for the search root, the size
//! and labels of exported plots and the number of minor ticks.

use vstd::prelude::*;
use crate::bytes::{lemma_split_on_nonempty, split_on};
use crate::text::{
    chars_of, decimal, parse_unsigned, parse_unsigned_chars, push_chars, push_decimal,
    string_from_chars,
};

verus! {

/// The settings of the viewer.
#[derive(Debug)]
pub struct Config {
    pub search_path: String,
    pub svg_width: u64,
    pub svg_height: u64,
    pub x_label: String,
    pub y_label: String,
    pub num_x_minorticks: usize,
    pub num_y_minorticks: usize,
    pub draw_xaxis: bool,
    pub draw_yaxis: bool,
}

/// The settings as the contracts see them.
#[verifier::ext_equal]
pub struct ConfigView {
    pub search_path: Seq<char>,
    pub svg_width: u64,
    pub svg_height: u64,
    pub x_label: Seq<char>,
    pub y_label: Seq<char>,
    pub num_x_minorticks: usize,
    pub num_y_minorticks: usize,
    pub draw_xaxis: bool,
    pub draw_yaxis: bool,
}

impl View for Config {
    type V = ConfigView;

    open spec fn view(&self) -> ConfigView {
        ConfigView {
            search_path: self.search_path@,
            svg_width: self.svg_width,
            svg_height: self.svg_height,
            x_label: self.x_label@,
            y_label: self.y_label@,
            num_x_minorticks: self.num_x_minorticks,
            num_y_minorticks: self.num_y_minorticks,
            draw_xaxis: self.draw_xaxis,
            draw_yaxis: self.draw_yaxis,
        }
    }
}

/// The settings before any configuration file is read.
pub open spec fn default_config() -> ConfigView {
    ConfigView {
        search_path: "/tmp/"@,
        svg_width: 800,
        svg_height: 600,
        x_label: "x-label"@,
        y_label: "y-label"@,
        num_x_minorticks: 0,
        num_y_minorticks: 0,
        draw_xaxis: true,
        draw_yaxis: true,
    }
}

/// The lines of a text, as `str::lines` gives them: split at `'\n'`, without
/// an empty piece after a final `'\n'`; a line that a `'\n'` ends loses one
/// trailing `'\r'`, a last line without `'\n'` keeps it.
pub open spec fn text_lines(text: Seq<char>) -> Seq<Seq<char>> {
    let pieces = split_on(text, '\n');
    let kept = if pieces.last().len() == 0 { pieces.drop_last() } else { pieces };
    Seq::new(kept.len(), |j: int| if j < pieces.len() - 1 { strip_cr(pieces[j]) } else { pieces[j] })
}

/// A line without its trailing `'\r'`.
pub open spec fn strip_cr(l: Seq<char>) -> Seq<char> {
    if l.len() > 0 && l.last() == '\r' {
        l.drop_last()
    } else {
        l
    }
}

/// The settings after one line of the configuration file: lines starting
/// with `'#'` are comments; otherwise the text before the first `'='` is the
/// key and the text up to the next `'='` the value. Unknown keys, values
/// that do not parse and lines without `'='` change nothing.
pub open spec fn apply_config_line(c: ConfigView, line: Seq<char>) -> ConfigView {
    let parts = split_on(line, '=');
    if line.len() > 0 && line[0] == '#' {
        c
    } else if parts.len() < 2 {
        c
    } else {
        let key = parts[0];
        let val = parts[1];
        if key == "search_path"@ {
            ConfigView { search_path: val, ..c }
        } else if key == "svg_width"@ {
            match parse_unsigned(val, u64::MAX as nat) {
                Some(w) => ConfigView { svg_width: w as u64, ..c },
                None => c,
            }
        } else if key == "svg_height"@ {
            match parse_unsigned(val, u64::MAX as nat) {
                Some(h) => ConfigView { svg_height: h as u64, ..c },
                None => c,
            }
        } else if key == "draw_xaxis"@ && val == "true"@ {
            ConfigView { draw_xaxis: true, ..c }
        } else if key == "draw_xaxis"@ && val == "false"@ {
            ConfigView { draw_xaxis: false, ..c }
        } else if key == "x_label"@ {
            ConfigView { x_label: val, ..c }
        } else if key == "draw_yaxis"@ && val == "true"@ {
            ConfigView { draw_yaxis: true, ..c }
        } else if key == "draw_yaxis"@ && val == "false"@ {
            ConfigView { draw_yaxis: false, ..c }
        } else if key == "y_label"@ {
            ConfigView { y_label: val, ..c }
        } else if key == "num_x_minorticks"@ {
            match parse_unsigned(val, usize::MAX as nat) {
                Some(n) => ConfigView { num_x_minorticks: n as usize, ..c },
                None => c,
            }
        } else if key == "num_y_minorticks"@ {
            match parse_unsigned(val, usize::MAX as nat) {
                Some(n) => ConfigView { num_y_minorticks: n as usize, ..c },
                None => c,
            }
        } else {
            c
        }
    }
}

/// The settings after the lines, one after the other.
pub open spec fn apply_config_lines(c: ConfigView, lines: Seq<Seq<char>>) -> ConfigView
    decreases lines.len(),
{
    if lines.len() == 0 {
        c
    } else {
        apply_config_line(apply_config_lines(c, lines.drop_last()), lines.last())
    }
}

/// The settings a configuration text gives.
pub open spec fn parse_config(text: Seq<char>) -> ConfigView {
    apply_config_lines(default_config(), text_lines(text))
}

/// One `key=value` line of the configuration file.
pub open spec fn config_line(key: Seq<char>, val: Seq<char>) -> Seq<char> {
    key + seq!['='] + val
}

/// The text of a boolean setting.
pub open spec fn bool_text(b: bool) -> Seq<char> {
    if b {
        "true"@
    } else {
        "false"@
    }
}

/// The lines the settings are written as, in the order they are written.
pub open spec fn config_lines(c: ConfigView) -> Seq<Seq<char>> {
    seq![
        config_line("search_path"@, c.search_path),
        config_line("svg_width"@, decimal(c.svg_width as nat)),
        config_line("svg_height"@, decimal(c.svg_height as nat)),
        config_line("x_label"@, c.x_label),
        config_line("y_label"@, c.y_label),
        config_line("num_x_minorticks"@, decimal(c.num_x_minorticks as nat)),
        config_line("num_y_minorticks"@, decimal(c.num_y_minorticks as nat)),
        config_line("draw_xaxis"@, bool_text(c.draw_xaxis)),
        config_line("draw_yaxis"@, bool_text(c.draw_yaxis)),
    ]
}

/// Lines, each followed by `'\n'`.
pub open spec fn join_lines(lines: Seq<Seq<char>>) -> Seq<char>
    decreases lines.len(),
{
    if lines.len() == 0 {
        Seq::<char>::empty()
    } else {
        join_lines(lines.drop_last()) + lines.last() + seq!['\n']
    }
}

/// The text the settings are written as.
pub open spec fn config_text(c: ConfigView) -> Seq<char> {
    join_lines(config_lines(c))
}

/// Joining one more line appends it and its line break.
pub proof fn lemma_join_step(ls: Seq<Seq<char>>, k: int)
    requires
        0 <= k < ls.len(),
    ensures
        join_lines(ls.take(k + 1)) == join_lines(ls.take(k)) + ls[k] + seq!['\n'],
{
    assert(ls.take(k + 1).drop_last() =~= ls.take(k));
}

/// Appends a `key=value` line and its line break to `out`.
fn push_line(out: &mut Vec<char>, key: &str, val: &[char])
    ensures
        final(out)@ == old(out)@ + config_line(key@, val@) + seq!['\n'],
{
    let k = chars_of(key);
    push_chars(out, k.as_slice());
    out.push('=');
    push_chars(out, val);
    out.push('\n');
    assert(final(out)@ =~= old(out)@ + config_line(key@, val@) + seq!['\n']);
}

/// Splits characters at every occurrence of `sep`, as `str::split` does.
pub fn split_chars(s: &[char], sep: char) -> (r: Vec<Vec<char>>)
    ensures
        r@.len() == split_on(s@, sep).len(),
        forall|k: int| 0 <= k < r@.len() ==> #[trigger] r@[k]@ == split_on(s@, sep)[k],
{
    let n = s.len();
    let mut pieces: Vec<Vec<char>> = Vec::new();
    let mut cur: Vec<char> = Vec::new();
    let mut i: usize = 0;
    assert(s@.take(0) =~= Seq::<char>::empty());
    while i < n
        invariant
            n == s@.len(),
            i <= n,
            pieces@.len() + 1 == split_on(s@.take(i as int), sep).len(),
            forall|k: int| 0 <= k < pieces@.len() ==> #[trigger] pieces@[k]@ == split_on(s@.take(i as int), sep)[k],
            cur@ == split_on(s@.take(i as int), sep).last(),
        decreases n - i,
    {
        let ghost prev = split_on(s@.take(i as int), sep);
        assert(s@.take(i + 1).drop_last() =~= s@.take(i as int));
        if s[i] == sep {
            let done = cur;
            pieces.push(done);
            cur = Vec::new();
            assert(split_on(s@.take(i + 1), sep) == prev.push(Seq::<char>::empty()));
        } else {
            cur.push(s[i]);
            proof {
                lemma_split_on_nonempty(s@.take(i as int), sep);
            }
            assert(split_on(s@.take(i + 1), sep) == prev.update(prev.len() - 1, prev.last().push(s@[i as int])));
        }
        i = i + 1;
    }
    assert(s@.take(n as int) =~= s@);
    pieces.push(cur);
    pieces
}

/// Whether two character strings are equal.
pub fn chars_equal(a: &[char], b: &[char]) -> (r: bool)
    ensures
        r == (a@ == b@),
{
    if a.len() != b.len() {
        return false;
    }
    let n = a.len();
    let mut i: usize = 0;
    while i < n
        invariant
            n == a@.len(),
            n == b@.len(),
            i <= n,
            forall|k: int| 0 <= k < i ==> a@[k] == b@[k],
        decreases n - i,
    {
        if a[i] != b[i] {
            return false;
        }
        i = i + 1;
    }
    assert(a@ =~= b@);
    true
}

/// The lines of a text, as `str::lines` gives them.
pub fn lines_of(text: &[char]) -> (r: Vec<Vec<char>>)
    ensures
        r@.len() == text_lines(text@).len(),
        forall|k: int| 0 <= k < r@.len() ==> #[trigger] r@[k]@ == text_lines(text@)[k],
{
    let pieces = split_chars(text, '\n');
    proof {
        lemma_split_on_nonempty(text@, '\n');
    }
    let ghost ps = split_on(text@, '\n');
    let np = pieces.len();
    let keep = if pieces[np - 1].len() == 0 { np - 1 } else { np };
    let ghost kept = if ps.last().len() == 0 { ps.drop_last() } else { ps };
    let mut out: Vec<Vec<char>> = Vec::new();
    let mut k: usize = 0;
    while k < keep
        invariant
            np == ps.len(),
            pieces@.len() == np,
            forall|j: int| 0 <= j < np ==> #[trigger] pieces@[j]@ == ps[j],
            keep == kept.len(),
            keep <= np,
            forall|j: int| 0 <= j < keep ==> kept[j] == ps[j],
            k <= keep,
            out@.len() == k,
            forall|j: int| 0 <= j < k ==> #[trigger] out@[j]@ == text_lines(text@)[j],
            ps == split_on(text@, '\n'),
            text_lines(text@).len() == keep,
        decreases keep - k,
    {
        let piece = &pieces[k];
        let len = piece.len();
        let mut line: Vec<char> = Vec::new();
        let end = if k + 1 < np && len > 0 && piece[len - 1] == '\r' { len - 1 } else { len };
        let mut t: usize = 0;
        while t < end
            invariant
                end <= len,
                len == piece@.len(),
                t <= end,
                line@ == piece@.take(t as int),
            decreases end - t,
        {
            line.push(piece[t]);
            assert(piece@.take(t + 1) =~= piece@.take(t as int).push(piece@[t as int]));
            t = t + 1;
        }
        assert(line@ =~= text_lines(text@)[k as int]);
        out.push(line);
        k = k + 1;
    }
    proof {
        assert forall|j: int| 0 <= j < out@.len() implies #[trigger] out@[j]@ == text_lines(text@)[j] by {}
    }
    out
}

impl Config {
    /// The settings before any configuration file is read.
    pub fn default_config() -> (r: Config)
        ensures
            r@ == default_config(),
    {
        Config {
            search_path: String::from_str("/tmp/"),
            svg_width: 800,
            svg_height: 600,
            x_label: String::from_str("x-label"),
            y_label: String::from_str("y-label"),
            num_x_minorticks: 0,
            num_y_minorticks: 0,
            draw_xaxis: true,
            draw_yaxis: true,
        }
    }

    /// Applies one line of a configuration file.
    pub fn apply_line(&mut self, line: &[char])
        ensures
            final(self)@ == apply_config_line(old(self)@, line@),
    {
        if line.len() > 0 && line[0] == '#' {
            return;
        }
        let parts = split_chars(line, '=');
        if parts.len() < 2 {
            return;
        }
        let key = parts[0].as_slice();
        let val = parts[1].as_slice();
        if chars_equal(key, chars_of("search_path").as_slice()) {
            self.search_path = string_from_chars(val);
        } else if chars_equal(key, chars_of("svg_width").as_slice()) {
            match parse_unsigned_chars(val, u64::MAX) {
                Some(w) => self.svg_width = w,
                None => {},
            }
        } else if chars_equal(key, chars_of("svg_height").as_slice()) {
            match parse_unsigned_chars(val, u64::MAX) {
                Some(h) => self.svg_height = h,
                None => {},
            }
        } else if chars_equal(key, chars_of("draw_xaxis").as_slice()) && chars_equal(val, chars_of("true").as_slice()) {
            self.draw_xaxis = true;
        } else if chars_equal(key, chars_of("draw_xaxis").as_slice()) && chars_equal(val, chars_of("false").as_slice()) {
            self.draw_xaxis = false;
        } else if chars_equal(key, chars_of("x_label").as_slice()) {
            self.x_label = string_from_chars(val);
        } else if chars_equal(key, chars_of("draw_yaxis").as_slice()) && chars_equal(val, chars_of("true").as_slice()) {
            self.draw_yaxis = true;
        } else if chars_equal(key, chars_of("draw_yaxis").as_slice()) && chars_equal(val, chars_of("false").as_slice()) {
            self.draw_yaxis = false;
        } else if chars_equal(key, chars_of("y_label").as_slice()) {
            self.y_label = string_from_chars(val);
        } else if chars_equal(key, chars_of("num_x_minorticks").as_slice()) {
            match parse_unsigned_chars(val, usize::MAX as u64) {
                Some(n) => self.num_x_minorticks = n as usize,
                None => {},
            }
        } else if chars_equal(key, chars_of("num_y_minorticks").as_slice()) {
            match parse_unsigned_chars(val, usize::MAX as u64) {
                Some(n) => self.num_y_minorticks = n as usize,
                None => {},
            }
        }
    }

    /// The text the settings are written to the configuration file as.
    pub fn to_config_text(&self) -> (r: String)
        ensures
            r@ == config_text(self@),
    {
        let mut out: Vec<char> = Vec::new();
        let ghost ls = config_lines(self@);
        assert(ls.take(0) =~= Seq::<Seq<char>>::empty());
        let sp = chars_of(self.search_path.as_str());
        push_line(&mut out, "search_path", sp.as_slice());
        proof { lemma_join_step(ls, 0); }
        let mut num: Vec<char> = Vec::new();
        push_decimal(self.svg_width, &mut num);
        push_line(&mut out, "svg_width", num.as_slice());
        proof { lemma_join_step(ls, 1); }
        let mut num: Vec<char> = Vec::new();
        push_decimal(self.svg_height, &mut num);
        push_line(&mut out, "svg_height", num.as_slice());
        proof { lemma_join_step(ls, 2); }
        let xl = chars_of(self.x_label.as_str());
        push_line(&mut out, "x_label", xl.as_slice());
        proof { lemma_join_step(ls, 3); }
        let yl = chars_of(self.y_label.as_str());
        push_line(&mut out, "y_label", yl.as_slice());
        proof { lemma_join_step(ls, 4); }
        let mut num: Vec<char> = Vec::new();
        push_decimal(self.num_x_minorticks as u64, &mut num);
        push_line(&mut out, "num_x_minorticks", num.as_slice());
        proof { lemma_join_step(ls, 5); }
        let mut num: Vec<char> = Vec::new();
        push_decimal(self.num_y_minorticks as u64, &mut num);
        push_line(&mut out, "num_y_minorticks", num.as_slice());
        proof { lemma_join_step(ls, 6); }
        let bx = if self.draw_xaxis { chars_of("true") } else { chars_of("false") };
        push_line(&mut out, "draw_xaxis", bx.as_slice());
        proof { lemma_join_step(ls, 7); }
        let by = if self.draw_yaxis { chars_of("true") } else { chars_of("false") };
        push_line(&mut out, "draw_yaxis", by.as_slice());
        proof {
            lemma_join_step(ls, 8);
            assert(ls.take(9) =~= ls);
        }
        string_from_chars(out.as_slice())
    }

    /// The settings that a configuration text gives, starting from the
    /// defaults.
    pub fn from_config_text(text: &str) -> (r: Config)
        ensures
            r@ == parse_config(text@),
    {
        let chars = chars_of(text);
        let lines = lines_of(chars.as_slice());
        let ghost ls = text_lines(text@);
        let mut config = Config::default_config();
        let n = lines.len();
        let mut i: usize = 0;
        assert(ls.take(0) =~= Seq::<Seq<char>>::empty());
        while i < n
            invariant
                n == ls.len(),
                lines@.len() == n,
                forall|j: int| 0 <= j < n ==> #[trigger] lines@[j]@ == ls[j],
                i <= n,
                config@ == apply_config_lines(default_config(), ls.take(i as int)),
            decreases n - i,
        {
            assert(ls.take(i + 1).drop_last() =~= ls.take(i as int));
            config.apply_line(lines[i].as_slice());
            i = i + 1;
        }
        assert(ls.take(n as int) =~= ls);
        config
    }
}

} // verus!
