//! Decimal numbers in text, and the conversions between texts and their
//! characters.

use vstd::prelude::*;

verus! {

/// The character of the decimal digit `d`.
pub open spec fn digit_char(d: nat) -> char {
    ((d + 48) as u8) as char
}

/// `c` is one of `'0'` to `'9'`.
pub open spec fn is_digit(c: char) -> bool {
    '0' <= c <= '9'
}

/// The decimal notation of `n`, without sign or leading zeros.
pub open spec fn decimal(n: nat) -> Seq<char>
    decreases n,
{
    if n < 10 {
        seq![digit_char(n)]
    } else {
        decimal(n / 10).push(digit_char(n % 10))
    }
}

/// The number that a string of digits denotes.
pub open spec fn digits_value(s: Seq<char>) -> nat
    decreases s.len(),
{
    if s.len() == 0 {
        0
    } else {
        digits_value(s.drop_last()) * 10 + ((s.last() as int - 48) as nat)
    }
}

/// The digits of an unsigned number: the text without its optional `'+'`.
pub open spec fn unsigned_digits(s: Seq<char>) -> Seq<char> {
    if s.len() > 0 && s[0] == '+' {
        s.drop_first()
    } else {
        s
    }
}

/// What `str::parse` gives for an unsigned integer type whose largest value
/// is `max`: an optional `'+'`, then at least one digit, and a value that
/// fits.
pub open spec fn parse_unsigned(s: Seq<char>, max: nat) -> Option<nat> {
    let body = unsigned_digits(s);
    if body.len() > 0 && (forall|i: int| 0 <= i < body.len() ==> is_digit(#[trigger] body[i]))
        && digits_value(body) <= max {
        Some(digits_value(body))
    } else {
        None
    }
}

pub proof fn lemma_digit_char(d: nat)
    requires
        d < 10,
    ensures
        is_digit(digit_char(d)),
        digit_char(d) as int - 48 == d,
{
    let b: u8 = (d + 48) as u8;
    assert(b as int == d + 48);
    assert((b as char) as int == b as int);
}

/// The decimal notation of `n` is a string of digits that denotes `n`.
pub proof fn lemma_decimal_digits(n: nat)
    ensures
        decimal(n).len() >= 1,
        forall|i: int| 0 <= i < decimal(n).len() ==> is_digit(#[trigger] decimal(n)[i]),
        digits_value(decimal(n)) == n,
    decreases n,
{
    if n < 10 {
        lemma_digit_char(n);
        assert(decimal(n).drop_last() =~= Seq::<char>::empty());
        assert(decimal(n).last() == digit_char(n));
        assert(digits_value(Seq::<char>::empty()) == 0);
    } else {
        lemma_decimal_digits(n / 10);
        lemma_digit_char(n % 10);
        assert(decimal(n).drop_last() =~= decimal(n / 10));
        assert(decimal(n).last() == digit_char(n % 10));
        assert(n == (n / 10) * 10 + n % 10) by (nonlinear_arith);
        assert(digits_value(decimal(n)) == digits_value(decimal(n / 10)) * 10 + (n % 10));
    }
}

/// Reading back the decimal notation of a number gives the number.
pub proof fn lemma_parse_decimal(n: nat, max: nat)
    requires
        n <= max,
    ensures
        parse_unsigned(decimal(n), max) == Some(n),
{
    lemma_decimal_digits(n);
    let s = decimal(n);
    assert(is_digit(s[0]));
}

/// A longer prefix of digits never denotes less.
pub proof fn lemma_digits_value_grows(s: Seq<char>, i: int, j: int)
    requires
        0 <= i <= j <= s.len(),
    ensures
        digits_value(s.take(i)) <= digits_value(s.take(j)),
    decreases j - i,
{
    if i < j {
        lemma_digits_value_grows(s, i, j - 1);
        assert(s.take(j).drop_last() =~= s.take(j - 1));
        assert(digits_value(s.take(j - 1)) <= digits_value(s.take(j - 1)) * 10) by (nonlinear_arith);
    }
}

/// Appends the decimal notation of `n` to `out`.
pub fn push_decimal(n: u64, out: &mut Vec<char>)
    ensures
        final(out)@ == old(out)@ + decimal(n as nat),
    decreases n,
{
    if n >= 10 {
        push_decimal(n / 10, out);
    }
    let d = (n % 10) as u8;
    out.push((48u8 + d) as char);
    proof {
        if n < 10 {
            assert(old(out)@ + decimal(n as nat) =~= old(out)@.push(digit_char(n as nat)));
        } else {
            assert(old(out)@ + decimal(n as nat) =~= (old(out)@ + decimal((n / 10) as nat)).push(
                digit_char((n % 10) as nat),
            ));
        }
    }
}

/// `String::push`: appends the character to the end of the string.
pub assume_specification[ String::push ](s: &mut String, ch: char)
    ensures
        final(s)@ == old(s)@.push(ch),
;

/// The characters of a text.
pub fn chars_of(s: &str) -> (r: Vec<char>)
    ensures
        r@ == s@,
{
    broadcast use vstd::string::group_string_axioms;
    let mut v: Vec<char> = Vec::new();
    for c in it: s.chars()
        invariant
            it.seq() == s@,
            v@ == it.seq().take(it.index() as int),
    {
        v.push(c);
    }
    v
}

/// The text made of the given characters.
pub fn string_from_chars(v: &[char]) -> (r: String)
    ensures
        r@ == v@,
{
    let mut s = String::new();
    let n = v.len();
    let mut i: usize = 0;
    while i < n
        invariant
            n == v@.len(),
            i <= n,
            s@ == v@.take(i as int),
        decreases n - i,
    {
        s.push(v[i]);
        assert(v@.take(i + 1) =~= v@.take(i as int).push(v@[i as int]));
        i = i + 1;
    }
    assert(v@.take(n as int) =~= v@);
    s
}

/// Parses an unsigned integer of at most `max`, as `str::parse` does for the
/// unsigned integer type whose largest value is `max`.
pub fn parse_unsigned_chars(s: &[char], max: u64) -> (r: Option<u64>)
    ensures
        match r {
            Some(v) => parse_unsigned(s@, max as nat) == Some(v as nat),
            None => parse_unsigned(s@, max as nat) is None,
        },
{
    let n = s.len();
    let start: usize = if n > 0 && s[0] == '+' { 1 } else { 0 };
    let ghost body = unsigned_digits(s@);
    assert(body =~= s@.skip(start as int));
    if start >= n {
        assert(body.len() == 0);
        return None;
    }
    let mut value: u64 = 0;
    let mut i: usize = start;
    while i < n
        invariant
            n == s@.len(),
            start <= i <= n,
            body == s@.skip(start as int),
            body == unsigned_digits(s@),
            value as nat == digits_value(body.take(i - start)),
            forall|k: int| 0 <= k < i - start ==> is_digit(#[trigger] body[k]),
            value <= max,
        decreases n - i,
    {
        let c = s[i];
        assert(body[i - start] == c);
        assert(body.take(i + 1 - start).drop_last() =~= body.take(i - start));
        assert(body.take(i + 1 - start).last() == c);
        if !('0' <= c && c <= '9') {
            assert(!is_digit(body[i - start]));
            assert(!(forall|k: int| 0 <= k < body.len() ==> is_digit(#[trigger] body[k])));
            return None;
        }
        let d = (c as u32 - 48) as u64;
        assert(digits_value(body.take(i + 1 - start)) == value * 10 + d);
        if d > max || value > (max - d) / 10 {
            assert(value * 10 + d > max) by (nonlinear_arith)
                requires
                    d > max || value > (max - d) / 10,
                    d <= 9,
            {
            }
            proof {
                lemma_digits_value_grows(body, i + 1 - start, body.len() as int);
                assert(body.take(body.len() as int) =~= body);
            }
            return None;
        }
        assert(value * 10 + d <= max) by (nonlinear_arith)
            requires
                d <= max,
                value <= (max - d) / 10,
        {
        }
        value = value * 10 + d;
        i = i + 1;
    }
    assert(body.take(n - start) =~= body);
    Some(value)
}

/// The position of the last occurrence of `c` in `s`, or -1.
pub open spec fn last_char_index(s: Seq<char>, c: char) -> int
    decreases s.len(),
{
    if s.len() == 0 {
        -1
    } else if s.last() == c {
        s.len() - 1
    } else {
        last_char_index(s.drop_last(), c)
    }
}

/// An alias cut before the last delimiter, as `rsplit_once` cuts it; an
/// alias without the delimiter stays as it is.
pub open spec fn spec_shorten_alias(alias: Seq<char>, delim: char) -> Seq<char> {
    if last_char_index(alias, delim) >= 0 {
        alias.take(last_char_index(alias, delim))
    } else {
        alias
    }
}

/// Cuts an alias before its last `delim`.
pub fn shorten_alias(alias: &str, delim: char) -> (r: String)
    ensures
        r@ == spec_shorten_alias(alias@, delim),
{
    let chars = chars_of(alias);
    let n = chars.len();
    let mut i: usize = n;
    assert(chars@.take(n as int) =~= chars@);
    while i > 0
        invariant
            n == chars@.len(),
            chars@ == alias@,
            i <= n,
            last_char_index(chars@, delim) == last_char_index(chars@.take(i as int), delim),
        decreases i,
    {
        assert(chars@.take(i as int).drop_last() =~= chars@.take(i - 1));
        if chars[i - 1] == delim {
            assert(chars@.take(i as int).last() == delim);
            let head = chars.as_slice();
            let mut out: Vec<char> = Vec::new();
            let mut t: usize = 0;
            while t < i - 1
                invariant
                    1 <= i <= n,
                    n == chars@.len(),
                    head@ == chars@,
                    t <= i - 1,
                    out@ == chars@.take(t as int),
                decreases i - 1 - t,
            {
                out.push(head[t]);
                assert(chars@.take(t + 1) =~= chars@.take(t as int).push(chars@[t as int]));
                t = t + 1;
            }
            return string_from_chars(out.as_slice());
        }
        i = i - 1;
    }
    assert(chars@.take(0) =~= Seq::<char>::empty());
    string_from_chars(chars.as_slice())
}

/// Whether a file extension is a number that fits in 32 bits, as Opus
/// files have (`.0`, `.1`, ...).
pub fn is_opus_extension(ext: &str) -> (r: bool)
    ensures
        r == (parse_unsigned(ext@, u32::MAX as nat) is Some),
{
    let chars = chars_of(ext);
    parse_unsigned_chars(chars.as_slice(), u32::MAX as u64).is_some()
}

/// Appends characters to `out`.
pub fn push_chars(out: &mut Vec<char>, s: &[char])
    ensures
        final(out)@ == old(out)@ + s@,
{
    let n = s.len();
    let mut i: usize = 0;
    while i < n
        invariant
            n == s@.len(),
            i <= n,
            out@ == old(out)@ + s@.take(i as int),
        decreases n - i,
    {
        out.push(s[i]);
        assert(s@.take(i + 1) =~= s@.take(i as int).push(s@[i as int]));
        assert(old(out)@ + s@.take(i + 1) =~= (old(out)@ + s@.take(i as int)).push(s@[i as int]));
        i = i + 1;
    }
    assert(s@.take(n as int) =~= s@);
}

proof fn lemma_last_char_index(s: Seq<char>, c: char)
    ensures
        -1 <= last_char_index(s, c) < s.len(),
        last_char_index(s, c) >= 0 ==> s[last_char_index(s, c)] == c,
        forall|j: int| last_char_index(s, c) < j < s.len() ==> #[trigger] s[j] != c,
    decreases s.len(),
{
    if s.len() > 0 {
        let p = s.drop_last();
        lemma_last_char_index(p, c);
        if s.last() != c {
            assert forall|j: int| last_char_index(s, c) < j < s.len() implies #[trigger] s[j] != c by {
                if j < s.len() - 1 {
                    assert(p[j] == s[j]);
                }
            }
            if last_char_index(s, c) >= 0 {
                assert(p[last_char_index(s, c)] == s[last_char_index(s, c)]);
            }
        }
    }
}

/// Shortening an alias cuts it just before its last delimiter: the result
/// is the part of the alias before that delimiter, and no delimiter comes
/// later; an alias without the delimiter stays as it is.
pub proof fn lemma_shorten_alias(alias: Seq<char>, delim: char)
    ensures
        !alias.contains(delim) ==> spec_shorten_alias(alias, delim) == alias,
        alias.contains(delim) ==> {
            let r = spec_shorten_alias(alias, delim);
            &&& r.len() < alias.len()
            &&& r == alias.take(r.len() as int)
            &&& alias[r.len() as int] == delim
            &&& forall|j: int| r.len() < j < alias.len() ==> #[trigger] alias[j] != delim
        },
{
    lemma_last_char_index(alias, delim);
    if alias.contains(delim) {
        let i = choose|i: int| 0 <= i < alias.len() && alias[i] == delim;
        assert(last_char_index(alias, delim) >= i);
    } else if last_char_index(alias, delim) >= 0 {
        assert(alias.contains(delim));
    }
}

} // verus!
