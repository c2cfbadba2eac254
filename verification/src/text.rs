//! Character-level primitives shared by every parser in the crate.

use vstd::prelude::*;

verus! {

/// `String::push` appends one character to the end of the string.
pub assume_specification[ String::push ](string: &mut String, ch: char)
    ensures
        final(string)@ == old(string)@.push(ch),
;

/// Unicode `White_Space` (the set that `char::is_whitespace` and `str::trim` use).
pub open spec fn is_white_space(c: char) -> bool {
    ||| ('\t' <= c && c <= '\r')
    ||| c == ' '
    ||| c == '\u{85}'
    ||| c == '\u{a0}'
    ||| c == '\u{1680}'
    ||| ('\u{2000}' <= c && c <= '\u{200a}')
    ||| c == '\u{2028}'
    ||| c == '\u{2029}'
    ||| c == '\u{202f}'
    ||| c == '\u{205f}'
    ||| c == '\u{3000}'
}

pub fn is_white_space_char(c: char) -> (b: bool)
    ensures
        b == is_white_space(c),
{
    ('\t' <= c && c <= '\r') || c == ' ' || c == '\u{85}' || c == '\u{a0}' || c == '\u{1680}'
        || ('\u{2000}' <= c && c <= '\u{200a}') || c == '\u{2028}' || c == '\u{2029}'
        || c == '\u{202f}' || c == '\u{205f}' || c == '\u{3000}'
}

/// The characters of `s`, in order.
pub fn chars_of(s: &str) -> (cs: Vec<char>)
    ensures
        cs@ == s@,
{
    let mut cs: Vec<char> = Vec::new();
    for c in it: s.chars()
        invariant
            cs@ == it.seq().take(it.index()),
    {
        cs.push(c);
        assert(cs@ == it.seq().take(it.index() + 1));
    }
    assert(cs@ == s@);
    cs
}

/// A fresh string holding `cs[lo..hi]`.
pub fn string_of(cs: &Vec<char>, lo: usize, hi: usize) -> (s: String)
    requires
        lo <= hi <= cs@.len(),
    ensures
        s@ == cs@.subrange(lo as int, hi as int),
{
    let mut s = String::new();
    let mut i = lo;
    while i < hi
        invariant
            lo <= i <= hi <= cs@.len(),
            s@ == cs@.subrange(lo as int, i as int),
        decreases hi - i,
    {
        s.push(cs[i]);
        i = i + 1;
    }
    s
}


pub open spec fn trim_start(s: Seq<char>) -> Seq<char>
    decreases s.len(),
{
    if s.len() > 0 && is_white_space(s[0]) {
        trim_start(s.drop_first())
    } else {
        s
    }
}

pub open spec fn trim_end(s: Seq<char>) -> Seq<char>
    decreases s.len(),
{
    if s.len() > 0 && is_white_space(s.last()) {
        trim_end(s.drop_last())
    } else {
        s
    }
}

/// `str::trim`: leading and trailing white space removed.
pub open spec fn trim(s: Seq<char>) -> Seq<char> {
    trim_end(trim_start(s))
}

/// The span `(a, b)` inside `lo..hi` whose characters are `trim(cs[lo..hi])`.
pub fn trim_span(cs: &Vec<char>, lo: usize, hi: usize) -> (r: (usize, usize))
    requires
        lo <= hi <= cs@.len(),
    ensures
        lo <= r.0 <= r.1 <= hi,
        cs@.subrange(r.0 as int, r.1 as int) == trim(cs@.subrange(lo as int, hi as int)),
{
    let mut a = lo;
    while a < hi && is_white_space_char(cs[a])
        invariant
            lo <= a <= hi <= cs@.len(),
            trim_start(cs@.subrange(lo as int, hi as int)) == trim_start(
                cs@.subrange(a as int, hi as int),
            ),
        decreases hi - a,
    {
        assert(cs@.subrange(a as int, hi as int).drop_first() =~= cs@.subrange(
            a + 1,
            hi as int,
        ));
        a = a + 1;
    }
    let mut b = hi;
    while b > a && is_white_space_char(cs[b - 1])
        invariant
            lo <= a <= b <= hi <= cs@.len(),
            trim_start(cs@.subrange(lo as int, hi as int)) == cs@.subrange(a as int, hi as int),
            trim_end(cs@.subrange(a as int, hi as int)) == trim_end(
                cs@.subrange(a as int, b as int),
            ),
        decreases b - a,
    {
        assert(cs@.subrange(a as int, b as int).drop_last() =~= cs@.subrange(
            a as int,
            b - 1,
        ));
        b = b - 1;
    }
    (a, b)
}


/// Offset of the first `'\n'` in `s`, or `s.len()` when there is none.
pub open spec fn newline_pos(s: Seq<char>) -> nat
    decreases s.len(),
{
    if s.len() == 0 {
        0
    } else if s[0] == '\n' {
        0
    } else {
        1 + newline_pos(s.drop_first())
    }
}

pub proof fn lemma_newline_pos(s: Seq<char>, k: int)
    requires
        0 <= k <= s.len(),
        forall|i: int| 0 <= i < k ==> s[i] != '\n',
        k == s.len() || s[k] == '\n',
    ensures
        newline_pos(s) == k,
    decreases k,
{
    if k > 0 {
        lemma_newline_pos(s.drop_first(), k - 1);
    }
}

/// A line without the `'\r'` of a `"\r\n"` ending.
pub open spec fn strip_cr(l: Seq<char>) -> Seq<char> {
    if l.len() > 0 && l.last() == '\r' {
        l.drop_last()
    } else {
        l
    }
}

/// `str::lines`: split at `"\n"` or `"\r\n"`; a final line ending is optional.
pub open spec fn lines(s: Seq<char>) -> Seq<Seq<char>>
    decreases s.len(),
{
    if s.len() == 0 {
        seq![]
    } else if newline_pos(s) >= s.len() {
        seq![s]
    } else {
        seq![strip_cr(s.take(newline_pos(s) as int))].add(lines(s.skip(newline_pos(s) + 1int)))
    }
}

/// The texts that a list of spans denotes inside `cs`.
pub open spec fn span_texts(cs: Seq<char>, spans: Seq<(usize, usize)>) -> Seq<Seq<char>> {
    spans.map_values(|p: (usize, usize)| cs.subrange(p.0 as int, p.1 as int))
}

pub open spec fn spans_within(cs: Seq<char>, spans: Seq<(usize, usize)>) -> bool {
    forall|i: int| 0 <= i < spans.len() ==> (#[trigger] spans[i]).0 <= spans[i].1 <= cs.len()
}

/// The spans of the lines of `cs`, as `str::lines` cuts them.
pub fn line_spans(cs: &Vec<char>) -> (spans: Vec<(usize, usize)>)
    ensures
        spans_within(cs@, spans@),
        span_texts(cs@, spans@) == lines(cs@),
{
    let mut spans: Vec<(usize, usize)> = Vec::new();
    let mut pos: usize = 0;
    let n = cs.len();
    assert(cs@.skip(0) =~= cs@);
    while pos < n
        invariant
            n == cs@.len(),
            pos <= n,
            spans_within(cs@, spans@),
            span_texts(cs@, spans@).add(lines(cs@.skip(pos as int))) == lines(cs@),
        decreases n - pos,
    {
        let ghost rest = cs@.skip(pos as int);
        let mut j = pos;
        while j < n && cs[j] != '\n'
            invariant
                n == cs@.len(),
                pos <= j <= n,
                forall|i: int| pos <= i < j ==> cs@[i] != '\n',
            decreases n - j,
        {
            j = j + 1;
        }
        proof {
            lemma_newline_pos(rest, (j - pos) as int);
        }
        let ghost old_spans = spans@;
        if j == n {
            spans.push((pos, n));
            assert(cs@.subrange(pos as int, n as int) =~= rest);
            assert(span_texts(cs@, spans@) =~= span_texts(cs@, old_spans).push(rest));
            assert(cs@.skip(n as int) =~= Seq::<char>::empty());
            pos = n;
        } else {
            let end = if j > pos && cs[j - 1] == '\r' {
                j - 1
            } else {
                j
            };
            spans.push((pos, end));
            assert(rest.take((j - pos) as int) =~= cs@.subrange(pos as int, j as int));
            assert(strip_cr(cs@.subrange(pos as int, j as int)) =~= cs@.subrange(
                pos as int,
                end as int,
            ));
            assert(span_texts(cs@, spans@) =~= span_texts(cs@, old_spans).push(
                cs@.subrange(pos as int, end as int),
            ));
            assert(rest.skip((j - pos) + 1) =~= cs@.skip(j + 1));
            pos = j + 1;
        }
    }
    assert(cs@.skip(pos as int) =~= Seq::<char>::empty());
    assert(span_texts(cs@, spans@).add(lines(cs@.skip(pos as int))) =~= span_texts(cs@, spans@));
    spans
}


/// Length of the longest prefix of `s` whose characters satisfy `p`.
pub open spec fn run_len(s: Seq<char>, p: spec_fn(char) -> bool) -> nat
    decreases s.len(),
{
    if s.len() > 0 && p(s[0]) {
        1 + run_len(s.drop_first(), p)
    } else {
        0
    }
}

pub proof fn lemma_run_len(s: Seq<char>, p: spec_fn(char) -> bool, k: int)
    requires
        0 <= k <= s.len(),
        forall|i: int| 0 <= i < k ==> p(#[trigger] s[i]),
        k == s.len() || !p(s[k]),
    ensures
        run_len(s, p) == k,
    decreases k,
{
    if k > 0 {
        assert(p(s[0]));
        lemma_run_len(s.drop_first(), p, k - 1);
    }
}

pub open spec fn is_digit(c: char) -> bool {
    '0' <= c && c <= '9'
}

pub open spec fn digit_val(c: char) -> nat {
    (c as int - '0' as int) as nat
}

pub open spec fn all_digits(s: Seq<char>) -> bool {
    forall|i: int| 0 <= i < s.len() ==> is_digit(#[trigger] s[i])
}

/// The number written by a string of decimal digits.
pub open spec fn digits_value(s: Seq<char>) -> nat
    decreases s.len(),
{
    if s.len() == 0 {
        0
    } else {
        digits_value(s.drop_last()) * 10 + digit_val(s.last())
    }
}

pub open spec fn digit_run(s: Seq<char>) -> nat {
    run_len(s, |c: char| is_digit(c))
}

/// `u32::from_str`: an optional `+`, then one or more decimal digits whose
/// value fits in 32 bits.
pub open spec fn parse_u32_spec(s: Seq<char>) -> Option<u32> {
    let d = if s.len() > 0 && s[0] == '+' {
        s.drop_first()
    } else {
        s
    };
    if d.len() > 0 && all_digits(d) && digits_value(d) <= u32::MAX {
        Some(digits_value(d) as u32)
    } else {
        None
    }
}

pub proof fn lemma_digits_value_prefix(s: Seq<char>, k: int)
    requires
        0 <= k <= s.len(),
    ensures
        digits_value(s.take(k)) <= digits_value(s),
    decreases s.len() - k,
{
    if k < s.len() {
        lemma_digits_value_prefix(s, k + 1);
        assert(s.take(k + 1).drop_last() =~= s.take(k));
    } else {
        assert(s.take(k) =~= s);
    }
}

pub fn is_digit_char(c: char) -> (b: bool)
    ensures
        b == is_digit(c),
{
    '0' <= c && c <= '9'
}

/// Parse `cs[lo..hi]` as `u32::from_str` would.
pub fn parse_u32(cs: &Vec<char>, lo: usize, hi: usize) -> (r: Option<u32>)
    requires
        lo <= hi <= cs@.len(),
    ensures
        r == parse_u32_spec(cs@.subrange(lo as int, hi as int)),
{
    let ghost s = cs@.subrange(lo as int, hi as int);
    let start = if lo < hi && cs[lo] == '+' {
        lo + 1
    } else {
        lo
    };
    let ghost d = cs@.subrange(start as int, hi as int);
    assert(d =~= (if s.len() > 0 && s[0] == '+' {
        s.drop_first()
    } else {
        s
    }));
    if start == hi {
        return None;
    }
    let mut acc: u64 = 0;
    let mut i = start;
    assert(d.take(0) =~= Seq::<char>::empty());
    while i < hi
        invariant
            lo <= start <= i <= hi <= cs@.len(),
            parse_u32_spec(cs@.subrange(lo as int, hi as int)) == (if d.len() > 0 && all_digits(d)
                && digits_value(d) <= u32::MAX {
                Some(digits_value(d) as u32)
            } else {
                None
            }),
            d == cs@.subrange(start as int, hi as int),
            all_digits(d.take(i - start)),
            acc == digits_value(d.take(i - start)),
            acc <= u32::MAX,
        decreases hi - i,
    {
        let c = cs[i];
        if !is_digit_char(c) {
            assert(d[i - start] == c);
            return None;
        }
        let v = (c as u32 - '0' as u32) as u64;
        assert(d.take(i - start + 1).drop_last() =~= d.take(i - start));
        if acc * 10 + v > 4294967295 {
            proof {
                if all_digits(d) {
                    lemma_digits_value_prefix(d, i - start + 1);
                }
            }
            return None;
        }
        acc = acc * 10 + v;
        i = i + 1;
    }
    assert(d.take(hi - start) =~= d);
    Some(acc as u32)
}

pub open spec fn digit_char(d: nat) -> char {
    (d + '0' as int) as char
}

/// The decimal digits of `n`, most significant first, without leading zeros.
pub open spec fn decimal(n: nat) -> Seq<char>
    decreases n,
{
    if n < 10 {
        seq![digit_char(n)]
    } else {
        decimal(n / 10).push(digit_char(n % 10))
    }
}

/// `s` left-padded with `'0'` to at least `width` characters (`{:0width$}`).
pub open spec fn zero_pad(s: Seq<char>, width: nat) -> Seq<char> {
    if s.len() >= width {
        s
    } else {
        Seq::new((width - s.len()) as nat, |i: int| '0') + s
    }
}

pub proof fn lemma_decimal_len(n: nat)
    ensures
        decimal(n).len() >= 1,
        n < 10 ==> decimal(n).len() == 1,
        n >= 10 ==> decimal(n).len() >= 2,
    decreases n,
{
    if n >= 10 {
        lemma_decimal_len(n / 10);
    }
}

/// Append the decimal digits of `n` to `out`.
pub fn push_decimal(out: &mut String, n: u64)
    ensures
        final(out)@ == old(out)@ + decimal(n as nat),
    decreases n,
{
    let ghost start = out@;
    if n >= 10 {
        push_decimal(out, n / 10);
    }
    let d = (n % 10) as u8;
    out.push((48u8 + d) as char);
    proof {
        if n >= 10 {
            assert(decimal(n as nat) == decimal((n / 10) as nat).push(digit_char((n % 10) as nat)));
        }
        assert(out@ =~= start + decimal(n as nat));
    }
}


/// End of the run of decimal digits that starts at `i` (stopping at `hi`).
pub fn digit_run_end(cs: &Vec<char>, i: usize, hi: usize) -> (r: usize)
    requires
        i <= hi <= cs@.len(),
    ensures
        i <= r <= hi,
        r - i == digit_run(cs@.subrange(i as int, hi as int)),
        all_digits(cs@.subrange(i as int, r as int)),
        r < hi ==> !is_digit(cs@[r as int]),
{
    let mut j = i;
    while j < hi && is_digit_char(cs[j])
        invariant
            i <= j <= hi <= cs@.len(),
            forall|k: int| i <= k < j ==> is_digit(#[trigger] cs@[k]),
        decreases hi - j,
    {
        j = j + 1;
    }
    proof {
        let s = cs@.subrange(i as int, hi as int);
        assert forall|k: int| 0 <= k < j - i implies (|c: char| is_digit(c))(#[trigger] s[k]) by {
            assert(s[k] == cs@[i + k]);
        }
        lemma_run_len(s, |c: char| is_digit(c), j - i);
    }
    j
}

pub open spec fn is_sign(c: char) -> bool {
    c == '+' || c == '-'
}

/// `s` without one leading sign character.
pub open spec fn unsigned_part(s: Seq<char>) -> Seq<char> {
    if s.len() > 0 && is_sign(s[0]) {
        s.drop_first()
    } else {
        s
    }
}

pub open spec fn ascii_lower(c: char) -> char {
    if 'A' <= c && c <= 'Z' {
        ((c as int) + 32) as char
    } else {
        c
    }
}

/// `s` equals the lower-case ASCII word `w`, ignoring ASCII case.
pub open spec fn eq_ignore_ascii_case(s: Seq<char>, w: Seq<char>) -> bool {
    s.len() == w.len() && forall|i: int| 0 <= i < s.len() ==> ascii_lower(#[trigger] s[i]) == w[i]
}

/// `inf`, `infinity` or `nan`, in any ASCII case.
pub open spec fn is_special_float(t: Seq<char>) -> bool {
    ||| eq_ignore_ascii_case(t, seq!['i', 'n', 'f'])
    ||| eq_ignore_ascii_case(t, seq!['i', 'n', 'f', 'i', 'n', 'i', 't', 'y'])
    ||| eq_ignore_ascii_case(t, seq!['n', 'a', 'n'])
}

/// `Exp ::= 'e' Sign? Digit+` (the `e` in either case).
pub open spec fn is_exponent(e: Seq<char>) -> bool {
    e.len() > 0 && (e[0] == 'e' || e[0] == 'E') && {
        let r = unsigned_part(e.drop_first());
        r.len() > 0 && all_digits(r)
    }
}

/// `Number ::= (Digit+ | Digit+ '.' Digit* | Digit* '.' Digit+) Exp?`
pub open spec fn is_decimal_number(t: Seq<char>) -> bool {
    let a = digit_run(t);
    let rest = t.skip(a as int);
    if rest.len() > 0 && rest[0] == '.' {
        let b = digit_run(rest.drop_first());
        let tail = rest.skip(1 + b as int);
        a + b > 0 && (tail.len() == 0 || is_exponent(tail))
    } else {
        a > 0 && (rest.len() == 0 || is_exponent(rest))
    }
}

/// The grammar `f64::from_str` accepts (`Float ::= Sign? ('inf' | 'infinity'
/// | 'nan' | Number)`, case-insensitively): exactly the strings it parses.
pub open spec fn is_float_literal(s: Seq<char>) -> bool {
    is_special_float(unsigned_part(s)) || is_decimal_number(unsigned_part(s))
}

/// A float literal that names a finite number (no `inf`/`nan` words).
pub open spec fn is_number_literal(s: Seq<char>) -> bool {
    is_decimal_number(unsigned_part(s))
}

/// The digits before any `.` of a `Number`.
pub open spec fn int_digits(t: Seq<char>) -> Seq<char> {
    t.take(digit_run(t) as int)
}

/// The digits after the `.` of a `Number` (none without a `.`).
pub open spec fn frac_digits(t: Seq<char>) -> Seq<char> {
    let rest = t.skip(digit_run(t) as int);
    if rest.len() > 0 && rest[0] == '.' {
        rest.drop_first().take(digit_run(rest.drop_first()) as int)
    } else {
        seq![]
    }
}

/// The exponent part `e±ddd` of a `Number` (empty without one).
pub open spec fn exp_text(t: Seq<char>) -> Seq<char> {
    let rest = t.skip(digit_run(t) as int);
    if rest.len() > 0 && rest[0] == '.' {
        rest.skip(1 + digit_run(rest.drop_first()) as int)
    } else {
        rest
    }
}

/// The power of ten an exponent part stands for (0 when there is none).
pub open spec fn exp_value(e: Seq<char>) -> int {
    if e.len() == 0 {
        0
    } else {
        let r = e.drop_first();
        let mag = digits_value(unsigned_part(r)) as int;
        if r.len() > 0 && r[0] == '-' {
            -mag
        } else {
            mag
        }
    }
}

pub open spec fn zero_run(s: Seq<char>) -> nat {
    run_len(s, |c: char| c == '0')
}

/// The digits of a `Number` from its first non-zero digit on: its value is
/// `0.d1d2… × 10^number_magnitude(t)`.
pub open spec fn significant_digits(t: Seq<char>) -> Seq<char> {
    let md = int_digits(t) + frac_digits(t);
    md.skip(zero_run(md) as int)
}

pub open spec fn number_magnitude(t: Seq<char>) -> int {
    significant_digits(t).len() + exp_value(exp_text(t)) - frac_digits(t).len()
}

/// 2^1024 - 2^970 in decimal: halfway between `f64::MAX` and 2^1024, the
/// least magnitude that `f64` parsing (correctly rounded, ties to even, and
/// the significand of `f64::MAX` is odd) rounds to infinity.
pub open spec fn f64_overflow_digits() -> Seq<char> {
    "179769313486231580793728971405303415079934132710037826936173778980444968292764750946649017977587207096330286416692887910946555547851940402630657488671505820681908902000708383676273854845817711531764475730270069855571366959622842914819860834936475292719074168444365510704342711559699508093042880177904174497792"@
}

/// Are the digits `s`, padded with zeros, at least `lim` from position `i`
/// on (the two agreeing before `i`)?
pub open spec fn digits_reach(s: Seq<char>, lim: Seq<char>, i: int) -> bool
    decreases lim.len() - i,
{
    if i < 0 || i >= lim.len() {
        true
    } else {
        let c = if i < s.len() {
            s[i]
        } else {
            '0'
        };
        if c != lim[i] {
            c > lim[i]
        } else {
            digits_reach(s, lim, i + 1)
        }
    }
}

/// Does the `Number` `t` have a magnitude of at least 2^1024 - 2^970, so that
/// it parses to an infinite `f64`? Its integer part has
/// `number_magnitude(t)` digits, compared with those of the threshold.
pub open spec fn overflows_f64(t: Seq<char>) -> bool {
    let s = significant_digits(t);
    let lim = f64_overflow_digits();
    s.len() > 0 && (number_magnitude(t) > lim.len() || (number_magnitude(t) == lim.len()
        && digits_reach(s, lim, 0)))
}

/// A float literal that `f64` parsing turns into a finite number.
pub open spec fn is_finite_number_literal(s: Seq<char>) -> bool {
    is_number_literal(s) && !overflows_f64(unsigned_part(s))
}

fn ascii_lower_char(c: char) -> (r: char)
    ensures
        r == ascii_lower(c),
{
    if 'A' <= c && c <= 'Z' {
        ((c as u32) + 32) as u8 as char
    } else {
        c
    }
}

fn eq_ignore_ascii_case_span(cs: &Vec<char>, lo: usize, hi: usize, w: &Vec<char>) -> (b: bool)
    requires
        lo <= hi <= cs@.len(),
    ensures
        b == eq_ignore_ascii_case(cs@.subrange(lo as int, hi as int), w@),
{
    if hi - lo != w.len() {
        return false;
    }
    let mut i: usize = 0;
    while i < w.len()
        invariant
            lo <= hi <= cs@.len(),
            hi - lo == w@.len(),
            i <= w@.len(),
            forall|k: int| 0 <= k < i ==> ascii_lower(#[trigger] cs@[lo + k]) == w@[k],
        decreases w@.len() - i,
    {
        if ascii_lower_char(cs[lo + i]) != w[i] {
            assert(cs@.subrange(lo as int, hi as int)[i as int] == cs@[lo + i]);
            return false;
        }
        i = i + 1;
    }
    assert forall|k: int| 0 <= k < hi - lo implies ascii_lower(
        #[trigger] cs@.subrange(lo as int, hi as int)[k],
    ) == w@[k] by {
        assert(cs@.subrange(lo as int, hi as int)[k] == cs@[lo + k]);
    }
    true
}

fn is_exponent_span(cs: &Vec<char>, lo: usize, hi: usize) -> (b: bool)
    requires
        lo <= hi <= cs@.len(),
    ensures
        b == is_exponent(cs@.subrange(lo as int, hi as int)),
{
    let ghost e = cs@.subrange(lo as int, hi as int);
    if lo == hi || !(cs[lo] == 'e' || cs[lo] == 'E') {
        return false;
    }
    assert(e.drop_first() =~= cs@.subrange(lo + 1, hi as int));
    let start = if lo + 1 < hi && (cs[lo + 1] == '+' || cs[lo + 1] == '-') {
        lo + 2
    } else {
        lo + 1
    };
    assert(unsigned_part(e.drop_first()) =~= cs@.subrange(start as int, hi as int));
    if start == hi {
        return false;
    }
    let end = digit_run_end(cs, start, hi);
    if end == hi {
        assert(cs@.subrange(start as int, end as int) =~= cs@.subrange(start as int, hi as int));
        true
    } else {
        assert(cs@.subrange(start as int, hi as int)[end - start] == cs@[end as int]);
        false
    }
}

/// Does `cs[lo..hi]` match `Number` (the finite part of the float grammar)?
pub fn is_decimal_number_span(cs: &Vec<char>, lo: usize, hi: usize) -> (b: bool)
    requires
        lo <= hi <= cs@.len(),
    ensures
        b == is_decimal_number(cs@.subrange(lo as int, hi as int)),
{
    let ghost t = cs@.subrange(lo as int, hi as int);
    let a_end = digit_run_end(cs, lo, hi);
    let ghost rest = t.skip((a_end - lo) as int);
    assert(rest =~= cs@.subrange(a_end as int, hi as int));
    if a_end < hi && cs[a_end] == '.' {
        assert(rest.drop_first() =~= cs@.subrange(a_end + 1, hi as int));
        let b_end = digit_run_end(cs, a_end + 1, hi);
        assert(rest.skip(1 + (b_end - a_end - 1)) =~= cs@.subrange(b_end as int, hi as int));
        if a_end - lo + (b_end - a_end - 1) == 0 {
            return false;
        }
        b_end == hi || is_exponent_span(cs, b_end, hi)
    } else {
        if a_end == lo {
            return false;
        }
        a_end == hi || is_exponent_span(cs, a_end, hi)
    }
}

/// Append `cs[lo..hi]` to `out`.
fn push_span(out: &mut Vec<char>, cs: &Vec<char>, lo: usize, hi: usize)
    requires
        lo <= hi <= cs@.len(),
    ensures
        final(out)@ == old(out)@ + cs@.subrange(lo as int, hi as int),
{
    let ghost start = out@;
    let mut j = lo;
    while j < hi
        invariant
            lo <= j <= hi <= cs@.len(),
            out@ == start + cs@.subrange(lo as int, j as int),
        decreases hi - j,
    {
        out.push(cs[j]);
        j = j + 1;
        assert(out@ =~= start + cs@.subrange(lo as int, j as int));
    }
}

/// A bound beyond every length a `Vec` can have: exponents are read up to it.
const EXP_CAP: u128 = 1180591620717411303424u128;

/// The value of the digits `cs[lo..hi]`, or `EXP_CAP` when it is larger.
fn capped_digits_value(cs: &Vec<char>, lo: usize, hi: usize) -> (v: u128)
    requires
        lo <= hi <= cs@.len(),
        all_digits(cs@.subrange(lo as int, hi as int)),
    ensures
        v as int == if digits_value(cs@.subrange(lo as int, hi as int)) < EXP_CAP {
            digits_value(cs@.subrange(lo as int, hi as int)) as int
        } else {
            EXP_CAP as int
        },
{
    let mut v: u128 = 0;
    let mut j = lo;
    assert(cs@.subrange(lo as int, lo as int).len() == 0);
    while j < hi
        invariant
            lo <= j <= hi <= cs@.len(),
            all_digits(cs@.subrange(lo as int, hi as int)),
            v as int == if digits_value(cs@.subrange(lo as int, j as int)) < EXP_CAP {
                digits_value(cs@.subrange(lo as int, j as int)) as int
            } else {
                EXP_CAP as int
            },
        decreases hi - j,
    {
        let ghost x = digits_value(cs@.subrange(lo as int, j as int));
        assert(cs@.subrange(lo as int, hi as int)[j - lo] == cs@[j as int]);
        let c = cs[j];
        let d = ((c as u32) - 48) as u128;
        assert(cs@.subrange(lo as int, j + 1).drop_last() =~= cs@.subrange(lo as int, j as int));
        assert(digits_value(cs@.subrange(lo as int, j + 1)) == x * 10 + digit_val(c));
        assert(is_digit(c));
        assert(d as int == digit_val(c));
        let w = v * 10 + d;
        v = if w < EXP_CAP {
            w
        } else {
            EXP_CAP
        };
        j = j + 1;
    }
    v
}

/// Does the `Number` `cs[lo..hi]` parse to an infinite `f64` (see
/// [`overflows_f64`])?
pub fn overflows_f64_span(cs: &Vec<char>, lo: usize, hi: usize) -> (b: bool)
    requires
        lo <= hi <= cs@.len(),
        is_decimal_number(cs@.subrange(lo as int, hi as int)),
    ensures
        b == overflows_f64(cs@.subrange(lo as int, hi as int)),
{
    let ghost t = cs@.subrange(lo as int, hi as int);
    let a_end = digit_run_end(cs, lo, hi);
    let ghost rest = t.skip((a_end - lo) as int);
    assert(rest =~= cs@.subrange(a_end as int, hi as int));
    assert(int_digits(t) =~= cs@.subrange(lo as int, a_end as int));
    let (f_lo, f_end) = if a_end < hi && cs[a_end] == '.' {
        assert(rest.drop_first() =~= cs@.subrange(a_end + 1, hi as int));
        let f_end = digit_run_end(cs, a_end + 1, hi);
        assert(frac_digits(t) =~= cs@.subrange(a_end + 1, f_end as int));
        assert(exp_text(t) =~= cs@.subrange(f_end as int, hi as int));
        (a_end + 1, f_end)
    } else {
        assert(frac_digits(t) =~= cs@.subrange(a_end as int, a_end as int));
        assert(exp_text(t) =~= cs@.subrange(a_end as int, hi as int));
        (a_end, a_end)
    };
    let frac_len = f_end - f_lo;
    let mut md: Vec<char> = Vec::new();
    push_span(&mut md, cs, lo, a_end);
    push_span(&mut md, cs, f_lo, f_end);
    assert(md@ =~= int_digits(t) + frac_digits(t));
    let z = run_end_zero(&md);
    let sig_len = md.len() - z;
    let ghost sig = md@.skip(z as int);
    assert(sig == significant_digits(t));
    // the exponent, read up to EXP_CAP
    let e_lo = f_end;
    let ghost e = cs@.subrange(e_lo as int, hi as int);
    let (neg, ev) = if e_lo == hi {
        (false, 0u128)
    } else {
        assert(is_exponent(e));
        assert(e.drop_first() =~= cs@.subrange(e_lo + 1, hi as int));
        let neg = cs[e_lo + 1] == '-';
        let d_lo = if cs[e_lo + 1] == '+' || cs[e_lo + 1] == '-' {
            e_lo + 2
        } else {
            e_lo + 1
        };
        assert(unsigned_part(e.drop_first()) =~= cs@.subrange(d_lo as int, hi as int));
        (neg, capped_digits_value(cs, d_lo, hi))
    };
    let ghost ex = exp_value(e);
    assert(ev < EXP_CAP ==> (if neg { -(ev as int) } else { ev as int }) == ex);
    assert(ev == EXP_CAP ==> (if neg { ex <= -(EXP_CAP as int) } else { ex >= EXP_CAP }));
    let lim = chars_of("179769313486231580793728971405303415079934132710037826936173778980444968292764750946649017977587207096330286416692887910946555547851940402630657488671505820681908902000708383676273854845817711531764475730270069855571366959622842914819860834936475292719074168444365510704342711559699508093042880177904174497792");
    if sig_len == 0 {
        return false;
    }
    let mag: i128 = if neg {
        sig_len as i128 - ev as i128 - frac_len as i128
    } else {
        sig_len as i128 + ev as i128 - frac_len as i128
    };
    assert(ev < EXP_CAP ==> mag == number_magnitude(t));
    assert(ev == EXP_CAP && !neg ==> mag > lim.len() && number_magnitude(t) > lim.len());
    assert(ev == EXP_CAP && neg ==> mag < lim.len() && number_magnitude(t) < lim.len());
    if mag > lim.len() as i128 {
        return true;
    }
    if mag < lim.len() as i128 {
        return false;
    }
    let mut i: usize = 0;
    while i < lim.len()
        invariant
            z <= md@.len(),
            sig_len == md@.len() - z,
            sig_len > 0,
            md@.len() == md.len(),
            t == cs@.subrange(lo as int, hi as int),
            sig == md@.skip(z as int),
            sig == significant_digits(t),
            lim@ == f64_overflow_digits(),
            number_magnitude(t) == lim@.len(),
            i <= lim@.len(),
            digits_reach(sig, lim@, 0) == digits_reach(sig, lim@, i as int),
        decreases lim@.len() - i,
    {
        let c = if i < sig_len {
            assert(z + i < md.len());
            md[z + i]
        } else {
            '0'
        };
        assert(c == if i < sig.len() { sig[i as int] } else { '0' });
        if c != lim[i] {
            assert(digits_reach(sig, lim@, i as int) == (c > lim@[i as int]));
            return c > lim[i];
        }
        i = i + 1;
    }
    true
}

/// The length of the run of `0` that starts `md`.
fn run_end_zero(md: &Vec<char>) -> (z: usize)
    ensures
        z == zero_run(md@),
        z <= md@.len(),
{
    let mut z: usize = 0;
    while z < md.len() && md[z] == '0'
        invariant
            z <= md@.len(),
            forall|k: int| 0 <= k < z ==> #[trigger] md@[k] == '0',
        decreases md@.len() - z,
    {
        z = z + 1;
    }
    proof {
        assert forall|k: int| 0 <= k < z implies (|c: char| c == '0')(#[trigger] md@[k]) by {}
        lemma_run_len(md@, |c: char| c == '0', z as int);
    }
    z
}

/// Does `cs[lo..hi]` parse as an `f64` (see [`is_float_literal`])?
pub fn is_float_literal_span(cs: &Vec<char>, lo: usize, hi: usize) -> (b: bool)
    requires
        lo <= hi <= cs@.len(),
    ensures
        b == is_float_literal(cs@.subrange(lo as int, hi as int)),
        b && !is_special_float(unsigned_part(cs@.subrange(lo as int, hi as int)))
            ==> is_number_literal(cs@.subrange(lo as int, hi as int)),
{
    let ghost s = cs@.subrange(lo as int, hi as int);
    let start = if lo < hi && (cs[lo] == '+' || cs[lo] == '-') {
        lo + 1
    } else {
        lo
    };
    assert(unsigned_part(s) =~= cs@.subrange(start as int, hi as int));
    let inf = vec!['i', 'n', 'f'];
    let infinity = vec!['i', 'n', 'f', 'i', 'n', 'i', 't', 'y'];
    let nan = vec!['n', 'a', 'n'];
    assert(inf@ =~= seq!['i', 'n', 'f']);
    assert(infinity@ =~= seq!['i', 'n', 'f', 'i', 'n', 'i', 't', 'y']);
    assert(nan@ =~= seq!['n', 'a', 'n']);
    if eq_ignore_ascii_case_span(cs, start, hi, &inf) || eq_ignore_ascii_case_span(
        cs,
        start,
        hi,
        &infinity,
    ) || eq_ignore_ascii_case_span(cs, start, hi, &nan) {
        return true;
    }
    is_decimal_number_span(cs, start, hi)
}


/// The character classes that the tokenizers scan runs of.
#[derive(Clone, Copy, PartialEq, Eq, Debug)]
pub enum CharClass {
    WhiteSpace,
    /// Neither white space nor `=`: the characters of an attribute key.
    KeyChar,
    /// Anything but white space: the characters of a bare value.
    NonSpace,
    /// Anything but `"`: the inside of a quoted value.
    NonQuote,
    /// Anything but `|`.
    NonBar,
    /// Anything but `:`.
    NonColon,
    /// Anything but `_`.
    NonUnderscore,
}

pub open spec fn in_class(class: CharClass) -> spec_fn(char) -> bool {
    match class {
        CharClass::WhiteSpace => |c: char| is_white_space(c),
        CharClass::KeyChar => |c: char| c != '=' && !is_white_space(c),
        CharClass::NonSpace => |c: char| !is_white_space(c),
        CharClass::NonQuote => |c: char| c != '"',
        CharClass::NonBar => |c: char| c != '|',
        CharClass::NonColon => |c: char| c != ':',
        CharClass::NonUnderscore => |c: char| c != '_',
    }
}

pub fn char_in_class(class: CharClass, c: char) -> (b: bool)
    ensures
        b == in_class(class)(c),
{
    match class {
        CharClass::WhiteSpace => is_white_space_char(c),
        CharClass::KeyChar => c != '=' && !is_white_space_char(c),
        CharClass::NonSpace => !is_white_space_char(c),
        CharClass::NonQuote => c != '"',
        CharClass::NonBar => c != '|',
        CharClass::NonColon => c != ':',
        CharClass::NonUnderscore => c != '_',
    }
}

pub proof fn lemma_run_len_bound(s: Seq<char>, p: spec_fn(char) -> bool)
    ensures
        run_len(s, p) <= s.len(),
    decreases s.len(),
{
    if s.len() > 0 && p(s[0]) {
        lemma_run_len_bound(s.drop_first(), p);
    }
}

/// End of the run of `class` characters that starts at `i` (stopping at `hi`).
pub fn run_end(cs: &Vec<char>, i: usize, hi: usize, class: CharClass) -> (r: usize)
    requires
        i <= hi <= cs@.len(),
    ensures
        i <= r <= hi,
        r - i == run_len(cs@.subrange(i as int, hi as int), in_class(class)),
        forall|k: int| i <= k < r ==> in_class(class)(#[trigger] cs@[k]),
        r < hi ==> !in_class(class)(cs@[r as int]),
{
    let mut j = i;
    while j < hi && char_in_class(class, cs[j])
        invariant
            i <= j <= hi <= cs@.len(),
            forall|k: int| i <= k < j ==> in_class(class)(#[trigger] cs@[k]),
        decreases hi - j,
    {
        j = j + 1;
    }
    proof {
        let s = cs@.subrange(i as int, hi as int);
        assert forall|k: int| 0 <= k < j - i implies in_class(class)(#[trigger] s[k]) by {
            assert(s[k] == cs@[i + k]);
        }
        if j < hi {
            assert(s[j - i] == cs@[j as int]);
        }
        lemma_run_len(s, in_class(class), j - i);
    }
    j
}

pub open spec fn starts_with(s: Seq<char>, p: Seq<char>) -> bool {
    s.len() >= p.len() && s.take(p.len() as int) == p
}

pub open spec fn ends_with(s: Seq<char>, p: Seq<char>) -> bool {
    s.len() >= p.len() && s.skip(s.len() - p.len()) == p
}

/// `p` occurs somewhere in `s`.
pub open spec fn contains_seq(s: Seq<char>, p: Seq<char>) -> bool {
    exists|i: int| 0 <= i && i + p.len() <= s.len() && #[trigger] s.subrange(i, i + p.len()) == p
}

/// Does `cs[lo..hi]` start at position `at` with `p`?
pub fn matches_at(cs: &Vec<char>, at: usize, hi: usize, p: &Vec<char>) -> (b: bool)
    requires
        at <= hi <= cs@.len(),
    ensures
        b == (at + p@.len() <= hi && cs@.subrange(at as int, at + p@.len()) == p@),
{
    if p.len() > hi - at {
        return false;
    }
    let mut k: usize = 0;
    while k < p.len()
        invariant
            at + p@.len() <= hi <= cs@.len(),
            k <= p@.len(),
            forall|m: int| 0 <= m < k ==> cs@[at + m] == p@[m],
        decreases p@.len() - k,
    {
        if cs[at + k] != p[k] {
            assert(cs@.subrange(at as int, at + p@.len())[k as int] == cs@[at + k]);
            return false;
        }
        k = k + 1;
    }
    assert(cs@.subrange(at as int, at + p@.len()) =~= p@);
    true
}

pub fn span_starts_with(cs: &Vec<char>, lo: usize, hi: usize, p: &Vec<char>) -> (b: bool)
    requires
        lo <= hi <= cs@.len(),
    ensures
        b == starts_with(cs@.subrange(lo as int, hi as int), p@),
{
    let b = matches_at(cs, lo, hi, p);
    assert(b ==> cs@.subrange(lo as int, hi as int).take(p@.len() as int) =~= cs@.subrange(
        lo as int,
        lo + p@.len(),
    ));
    assert(hi - lo >= p@.len() ==> cs@.subrange(lo as int, hi as int).take(p@.len() as int)
        =~= cs@.subrange(lo as int, lo + p@.len()));
    b
}

pub fn span_contains(cs: &Vec<char>, lo: usize, hi: usize, p: &Vec<char>) -> (b: bool)
    requires
        lo <= hi <= cs@.len(),
    ensures
        b == contains_seq(cs@.subrange(lo as int, hi as int), p@),
{
    let ghost s = cs@.subrange(lo as int, hi as int);
    if p.len() > hi - lo {
        assert(!contains_seq(s, p@));
        return false;
    }
    let mut i = lo;
    while i <= hi - p.len()
        invariant
            lo <= i <= hi <= cs@.len(),
            p@.len() <= hi - lo,
            s == cs@.subrange(lo as int, hi as int),
            forall|j: int|
                0 <= j < i - lo ==> #[trigger] s.subrange(j, j + p@.len()) != p@,
        decreases hi - i,
    {
        if matches_at(cs, i, hi, p) {
            assert(s.subrange(i - lo, i - lo + p@.len()) =~= cs@.subrange(
                i as int,
                i + p@.len(),
            ));
            return true;
        }
        assert(p@.len() > 0) by {
            if p@.len() == 0 {
                assert(cs@.subrange(i as int, i as int) =~= p@);
            }
        }
        assert(s.subrange(i - lo, i - lo + p@.len()) =~= cs@.subrange(i as int, i + p@.len()));
        i = i + 1;
    }
    false
}


/// Index of the first occurrence of `p` in `s` at or after `i`.
pub open spec fn match_from(s: Seq<char>, p: Seq<char>, i: int) -> Option<int>
    decreases s.len() + 1 - i,
{
    if i < 0 || i + p.len() > s.len() {
        None
    } else if s.subrange(i, i + p.len()) == p {
        Some(i)
    } else {
        match_from(s, p, i + 1)
    }
}

/// Position of the first `p` in `cs[lo..hi]`, relative to `lo`.
pub fn find_first(cs: &Vec<char>, lo: usize, hi: usize, p: &Vec<char>) -> (r: Option<usize>)
    requires
        lo <= hi <= cs@.len(),
    ensures
        match r {
            Some(k) => match_from(cs@.subrange(lo as int, hi as int), p@, 0) == Some(k as int)
                && k + p@.len() <= hi - lo,
            None => match_from(cs@.subrange(lo as int, hi as int), p@, 0) is None,
        },
{
    let ghost s = cs@.subrange(lo as int, hi as int);
    if p.len() > hi - lo {
        return None;
    }
    let mut i = lo;
    while i <= hi - p.len()
        invariant
            lo <= i <= hi <= cs@.len(),
            p@.len() <= hi - lo,
            s == cs@.subrange(lo as int, hi as int),
            match_from(s, p@, 0) == match_from(s, p@, i - lo),
        decreases hi - i,
    {
        assert(s.subrange(i - lo, i - lo + p@.len()) =~= cs@.subrange(i as int, i + p@.len()));
        if matches_at(cs, i, hi, p) {
            return Some(i - lo);
        }
        assert(p@.len() > 0) by {
            if p@.len() == 0 {
                assert(cs@.subrange(i as int, i as int) =~= p@);
            }
        }
        i = i + 1;
    }
    None
}

/// Length of the longest suffix of `s` whose characters satisfy `p`.
pub open spec fn suffix_run(s: Seq<char>, p: spec_fn(char) -> bool) -> nat
    decreases s.len(),
{
    if s.len() > 0 && p(s.last()) {
        1 + suffix_run(s.drop_last(), p)
    } else {
        0
    }
}

pub proof fn lemma_suffix_run(s: Seq<char>, p: spec_fn(char) -> bool, k: int)
    requires
        0 <= k <= s.len(),
        forall|i: int| s.len() - k <= i < s.len() ==> p(#[trigger] s[i]),
        k == s.len() || !p(s[s.len() - k - 1]),
    ensures
        suffix_run(s, p) == k,
    decreases k,
{
    if k > 0 {
        assert(p(s[s.len() - 1]));
        lemma_suffix_run(s.drop_last(), p, k - 1);
    }
}

/// Start of the run of `class` characters that ends at `hi` (going back to `lo`).
pub fn suffix_run_start(cs: &Vec<char>, lo: usize, hi: usize, class: CharClass) -> (r: usize)
    requires
        lo <= hi <= cs@.len(),
    ensures
        lo <= r <= hi,
        hi - r == suffix_run(cs@.subrange(lo as int, hi as int), in_class(class)),
{
    let mut j = hi;
    while j > lo && char_in_class(class, cs[j - 1])
        invariant
            lo <= j <= hi <= cs@.len(),
            forall|k: int| j <= k < hi ==> in_class(class)(#[trigger] cs@[k]),
        decreases j - lo,
    {
        j = j - 1;
    }
    proof {
        let s = cs@.subrange(lo as int, hi as int);
        assert forall|k: int| s.len() - (hi - j) <= k < s.len() implies in_class(class)(
            #[trigger] s[k],
        ) by {
            assert(s[k] == cs@[lo + k]);
        }
        if j > lo {
            assert(s[s.len() - (hi - j) - 1] == cs@[j - 1]);
        }
        lemma_suffix_run(s, in_class(class), hi - j);
    }
    j
}

pub proof fn lemma_all_digits_decimal(n: nat)
    ensures
        all_digits(decimal(n)),
        digits_value(decimal(n)) == n,
    decreases n,
{
    let d = (n % 10) as nat;
    assert(digit_char(d) as int == d + 48);
    assert(digit_val(digit_char(d)) == d);
    if n >= 10 {
        lemma_all_digits_decimal(n / 10);
        let s = decimal(n / 10).push(digit_char(d));
        assert(s.drop_last() =~= decimal(n / 10));
        assert(decimal(n) == s);
        assert(digits_value(s) == digits_value(decimal(n / 10)) * 10 + d);
        assert(n == (n / 10) * 10 + n % 10);
        assert(digits_value(decimal(n)) == n);
    } else {
        let e = decimal(n);
        assert(e == seq![digit_char(n)]);
        assert(e.drop_last() =~= Seq::<char>::empty());
        assert(digits_value(e.drop_last()) == 0);
        assert(e.last() == digit_char(d));
        assert(digits_value(e) == digits_value(e.drop_last()) * 10 + digit_val(e.last()));
    }
}

pub proof fn lemma_zero_pad_digits(s: Seq<char>, width: nat)
    requires
        all_digits(s),
    ensures
        all_digits(zero_pad(s, width)),
        digits_value(zero_pad(s, width)) == digits_value(s),
        zero_pad(s, width).len() >= s.len(),
        zero_pad(s, width).len() >= width,
{
    if s.len() < width {
        let z = Seq::new((width - s.len()) as nat, |i: int| '0');
        lemma_zeros_prefix(z, s);
    }
}

proof fn lemma_zeros_prefix(z: Seq<char>, s: Seq<char>)
    requires
        forall|i: int| 0 <= i < z.len() ==> z[i] == '0',
        all_digits(s),
    ensures
        all_digits(z + s),
        digits_value(z + s) == digits_value(s),
    decreases s.len(),
{
    if s.len() == 0 {
        assert(z + s =~= z);
        lemma_zeros_value(z);
    } else {
        lemma_zeros_prefix(z, s.drop_last());
        assert((z + s).drop_last() =~= z + s.drop_last());
    }
    assert forall|i: int| 0 <= i < (z + s).len() implies is_digit(#[trigger] (z + s)[i]) by {
        if i >= z.len() {
            assert((z + s)[i] == s[i - z.len()]);
        }
    }
}

proof fn lemma_zeros_value(z: Seq<char>)
    requires
        forall|i: int| 0 <= i < z.len() ==> z[i] == '0',
    ensures
        digits_value(z) == 0,
    decreases z.len(),
{
    if z.len() > 0 {
        lemma_zeros_value(z.drop_last());
    }
}

/// Append `n` in decimal, left-padded with zeros to `width` digits.
pub fn push_padded(out: &mut String, n: u64, width: usize)
    ensures
        final(out)@ == old(out)@ + zero_pad(decimal(n as nat), width as nat),
{
    let ghost start = out@;
    let mut digits = String::new();
    push_decimal(&mut digits, n);
    let dl = digits.as_str().unicode_len();
    let mut k = dl;
    while k < width
        invariant
            dl == decimal(n as nat).len(),
            dl <= k,
            k <= width || k == dl,
            out@ == start + Seq::new((k - dl) as nat, |i: int| '0'),
        decreases width - k,
    {
        out.push('0');
        k = k + 1;
        assert(out@ =~= start + Seq::new((k - dl) as nat, |i: int| '0'));
    }
    let dc = chars_of(digits.as_str());
    let mut i: usize = 0;
    let ghost mid = out@;
    while i < dc.len()
        invariant
            i <= dc@.len(),
            dc@ == decimal(n as nat),
            out@ == mid + dc@.take(i as int),
        decreases dc@.len() - i,
    {
        out.push(dc[i]);
        i = i + 1;
        assert(out@ =~= mid + dc@.take(i as int));
    }
    assert(dc@.take(i as int) =~= dc@);
    assert(out@ =~= start + zero_pad(decimal(n as nat), width as nat));
}


/// Append the characters of `s` to `out`.
pub fn push_str(out: &mut String, s: &str)
    ensures
        final(out)@ == old(out)@ + s@,
{
    let cs = chars_of(s);
    let ghost start = out@;
    let mut i: usize = 0;
    while i < cs.len()
        invariant
            i <= cs@.len(),
            cs@ == s@,
            out@ == start + cs@.take(i as int),
        decreases cs@.len() - i,
    {
        out.push(cs[i]);
        i = i + 1;
        assert(out@ =~= start + cs@.take(i as int));
    }
    assert(cs@.take(i as int) =~= s@);
}

/// Debug formatting of a string (`format!("{s:?}")`): quoted and escaped.
/// Its exact escaping rules are std's; nothing here depends on them.
pub uninterp spec fn debug_quoted_spec(s: Seq<char>) -> Seq<char>;

/// `format!("{s:?}")`, std's `Debug` for `str`: the text in double quotes
/// with its special characters escaped. The contract only names the result
/// as a function of `s`; the escaping rules themselves are not stated.
#[verifier::external_body]
pub(crate) fn debug_quoted(s: &str) -> (r: String)
    ensures
        r@ == debug_quoted_spec(s@),
{
    format!("{s:?}")
}

} // verus!
