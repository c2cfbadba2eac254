//! Text exchanged with Chrome's DevTools endpoint: the port file Chrome
//! writes, the URLs that open and close tabs, and the page-text expression
//! that `grab` evaluates.

use vstd::prelude::*;
use crate::genai::{base64_standard_decode, decode_b64, Base64Fault};
use crate::script::owned;
use crate::text::{
    chars_of, debug_quoted, debug_quoted_spec, decimal, line_spans, lines, parse_u32,
    parse_u32_spec, push_decimal, push_str, span_texts, trim, trim_span,
};

verus! {

broadcast use vstd::string::group_string_axioms;

/// Bytes that pass through percent-encoding unchanged: ASCII letters,
/// digits, `-`, `_`, `.`, `~`.
pub open spec fn unreserved(b: u8) -> bool {
    (65 <= b && b <= 90) || (97 <= b && b <= 122) || (48 <= b && b <= 57) || b == 45 || b == 95
        || b == 46 || b == 126
}

pub open spec fn hex_upper(d: int) -> char {
    if d < 10 {
        (48 + d) as char
    } else {
        (55 + d) as char
    }
}

pub open spec fn pct_byte(b: u8) -> Seq<char> {
    if unreserved(b) {
        seq![b as char]
    } else {
        seq!['%', hex_upper((b / 16) as int), hex_upper((b % 16) as int)]
    }
}

/// Percent-encoding of a byte string, uppercase hex.
pub open spec fn pct_encode(bs: Seq<u8>) -> Seq<char>
    decreases bs.len(),
{
    if bs.len() == 0 {
        seq![]
    } else {
        pct_encode(bs.drop_last()) + pct_byte(bs.last())
    }
}

fn hex_digit(d: u8) -> (c: char)
    requires
        d < 16,
    ensures
        c == hex_upper(d as int),
{
    if d < 10 {
        (48u8 + d) as char
    } else {
        (55u8 + d) as char
    }
}

/// Percent-encode the UTF-8 bytes of `s` (for a URL query).
pub fn urlencode(s: &str) -> (r: String)
    ensures
        r@ == pct_encode(vstd::utf8::encode_utf8(s@)),
{
    let bytes = s.as_bytes();
    let mut r = String::new();
    let mut i: usize = 0;
    assert(bytes@.take(0) =~= Seq::<u8>::empty());
    while i < bytes.len()
        invariant
            i <= bytes@.len(),
            bytes@ == vstd::utf8::encode_utf8(s@),
            r@ == pct_encode(bytes@.take(i as int)),
        decreases bytes@.len() - i,
    {
        let b = bytes[i];
        if (65 <= b && b <= 90) || (97 <= b && b <= 122) || (48 <= b && b <= 57) || b == 45 || b
            == 95 || b == 46 || b == 126 {
            r.push(b as char);
        } else {
            r.push('%');
            r.push(hex_digit(b / 16));
            r.push(hex_digit(b % 16));
        }
        assert(bytes@.take(i + 1).drop_last() =~= bytes@.take(i as int));
        i = i + 1;
        assert(r@ =~= pct_encode(bytes@.take(i as int)));
    }
    assert(bytes@.take(i as int) =~= bytes@);
    r
}

pub open spec fn url_safe_char(c: char) -> bool {
    ('A' <= c && c <= 'Z') || ('a' <= c && c <= 'z') || ('0' <= c && c <= '9') || c == '-' || c
        == '_' || c == '.' || c == '~' || c == '%'
}

/// Percent-encoded text holds only unreserved characters and `%` escapes
/// with uppercase hex digits, so it can stand anywhere in a URL.
pub proof fn lemma_urlencode_is_url_safe(bs: Seq<u8>)
    ensures
        forall|i: int| 0 <= i < pct_encode(bs).len() ==> url_safe_char(#[trigger] pct_encode(bs)[i]),
    decreases bs.len(),
{
    if bs.len() > 0 {
        lemma_urlencode_is_url_safe(bs.drop_last());
        let a = pct_encode(bs.drop_last());
        let b = pct_byte(bs.last());
        let x = bs.last();
        assert(forall|k: int| 0 <= k < b.len() ==> url_safe_char(#[trigger] b[k])) by {
            if !unreserved(x) {
                assert(hex_upper(x as int / 16) as int == (if x / 16 < 10 { 48 + x / 16 } else { 55 + x / 16 }));
                assert(hex_upper(x as int % 16) as int == (if x % 16 < 10 { 48 + x % 16 } else { 55 + x % 16 }));
            } else {
                assert((x as char) as int == x as int);
            }
        }
        assert forall|i: int| 0 <= i < pct_encode(bs).len() implies url_safe_char(
            #[trigger] pct_encode(bs)[i],
        ) by {
            assert(pct_encode(bs) == a + b);
            if i >= a.len() {
                assert(pct_encode(bs)[i] == b[i - a.len()]);
            } else {
                assert(pct_encode(bs)[i] == a[i]);
            }
        }
    }
}

/// The value of an uppercase hex digit.
pub open spec fn hex_value(c: char) -> int {
    if '0' <= c && c <= '9' {
        c as int - 48
    } else {
        c as int - 55
    }
}

/// Percent-decoding, as a browser applies it to a URL: `%XY` is the byte
/// `0xXY`, any other character stands for itself.
pub open spec fn pct_decode(t: Seq<char>) -> Seq<u8>
    decreases t.len(),
{
    if t.len() == 0 {
        seq![]
    } else if t[0] == '%' && t.len() >= 3 {
        seq![(hex_value(t[1]) * 16 + hex_value(t[2])) as u8] + pct_decode(t.skip(3))
    } else {
        seq![t[0] as u8] + pct_decode(t.skip(1))
    }
}

proof fn lemma_encode_front(b: u8, r: Seq<u8>)
    ensures
        pct_encode(seq![b] + r) == pct_byte(b) + pct_encode(r),
    decreases r.len(),
{
    if r.len() == 0 {
        assert(seq![b] + r =~= seq![b]);
        assert(seq![b].drop_last() =~= Seq::<u8>::empty());
        assert(pct_encode(Seq::<u8>::empty()) == Seq::<char>::empty());
        assert(pct_encode(seq![b]) =~= Seq::<char>::empty() + pct_byte(b));
    } else {
        lemma_encode_front(b, r.drop_last());
        assert((seq![b] + r).drop_last() =~= seq![b] + r.drop_last());
        assert((seq![b] + r).last() == r.last());
    }
}

proof fn lemma_decode_byte(b: u8, rest: Seq<char>)
    ensures
        pct_decode(pct_byte(b) + rest) == seq![b] + pct_decode(rest),
{
    let t = pct_byte(b) + rest;
    if unreserved(b) {
        assert(t[0] == b as char);
        assert((b as char) as int == b as int);
        assert(t[0] != '%');
        assert(t.skip(1) =~= rest);
        assert((t[0] as u8) == b);
    } else {
        let hi = (b / 16) as int;
        let lo = (b % 16) as int;
        assert(t[0] == '%' && t[1] == hex_upper(hi) && t[2] == hex_upper(lo));
        assert(hex_upper(hi) as int == (if hi < 10 { 48 + hi } else { 55 + hi }));
        assert(hex_upper(lo) as int == (if lo < 10 { 48 + lo } else { 55 + lo }));
        assert(hex_value(t[1]) == hi);
        assert(hex_value(t[2]) == lo);
        assert(hi * 16 + lo == b);
        assert(t.skip(3) =~= rest);
    }
}

/// Percent-encoding loses nothing: decoding the encoded URL gives back its
/// UTF-8 bytes, so a tab opens on exactly the URL that was asked for.
pub proof fn lemma_urlencode_decodes_back(bs: Seq<u8>)
    ensures
        pct_decode(pct_encode(bs)) == bs,
    decreases bs.len(),
{
    if bs.len() > 0 {
        let b = bs[0];
        let r = bs.skip(1);
        assert(bs =~= seq![b] + r);
        lemma_encode_front(b, r);
        lemma_decode_byte(b, pct_encode(r));
        lemma_urlencode_decodes_back(r);
    }
}

/// The DevTools port in Chrome's `DevToolsActivePort` file: its first line,
/// trimmed, as a port number.
pub open spec fn devtools_port_spec(contents: Seq<char>) -> Option<u16> {
    let ls = lines(contents);
    if ls.len() == 0 {
        None
    } else {
        match parse_u32_spec(trim(ls[0])) {
            Some(v) => if v <= 65535 {
                Some(v as u16)
            } else {
                None
            },
            None => None,
        }
    }
}

/// See [`devtools_port_spec`].
pub fn devtools_port(contents: &str) -> (r: Option<u16>)
    ensures
        r == devtools_port_spec(contents@),
{
    let cs = chars_of(contents);
    let spans = line_spans(&cs);
    if spans.len() == 0 {
        return None;
    }
    let (lo, hi) = spans[0];
    assert(spans@[0].0 <= spans@[0].1 <= cs@.len());
    assert(span_texts(cs@, spans@)[0] == cs@.subrange(lo as int, hi as int));
    let (a, b) = trim_span(&cs, lo, hi);
    match parse_u32(&cs, a, b) {
        Some(v) => if v <= 65535 {
            Some(v as u16)
        } else {
            None
        },
        None => None,
    }
}

/// `http://127.0.0.1:<port>/json/new?<url>`: open a tab on `url` (the URL
/// percent-encoded).
pub fn new_tab_url(port: u16, url: &str) -> (u: String)
    ensures
        u@ == "http://127.0.0.1:"@ + decimal(port as nat) + "/json/new?"@ + pct_encode(
            vstd::utf8::encode_utf8(url@),
        ),
{
    let mut u = owned("http://127.0.0.1:");
    push_decimal(&mut u, port as u64);
    push_str(&mut u, "/json/new?");
    let e = urlencode(url);
    push_str(&mut u, e.as_str());
    u
}

/// `http://127.0.0.1:<port>/json/close/<tab>`.
pub fn close_tab_url(port: u16, tab_id: &str) -> (u: String)
    ensures
        u@ == "http://127.0.0.1:"@ + decimal(port as nat) + "/json/close/"@ + tab_id@,
{
    let mut u = owned("http://127.0.0.1:");
    push_decimal(&mut u, port as u64);
    push_str(&mut u, "/json/close/");
    push_str(&mut u, tab_id);
    u
}

/// The expression `grab` evaluates: the page's text, or the texts of the
/// elements matching `selector` separated by `---` lines.
pub fn grab_expression(selector: Option<&str>) -> (e: String)
    ensures
        e@ == match selector {
            Some(sel) => "Array.from(document.querySelectorAll("@ + debug_quoted_spec(sel@)
                + ")).map(e => e.innerText).join('\\n---\\n')"@,
            None => "document.body.innerText"@,
        },
{
    match selector {
        Some(sel) => {
            let mut e = owned("Array.from(document.querySelectorAll(");
            let q = debug_quoted(sel);
            push_str(&mut e, q.as_str());
            push_str(&mut e, ")).map(e => e.innerText).join('\\n---\\n')");
            e
        },
        None => owned("document.body.innerText"),
    }
}


/// What a wait for Chrome does after one look: the awaited thing (the
/// DevTools port file, a page that reports ready) either showed up, or the
/// deadline has passed, or it looks again after a short sleep.
#[derive(Clone, Copy, PartialEq, Eq, Debug, Structural)]
pub enum PollStep {
    Done,
    GiveUp,
    Wait,
}

/// The decision after one look: `ready` wins even at the deadline; past the
/// deadline a wait gives up; otherwise it waits and looks again.
pub fn poll_step(ready: bool, past_deadline: bool) -> (s: PollStep)
    ensures
        s == (if ready {
            PollStep::Done
        } else if past_deadline {
            PollStep::GiveUp
        } else {
            PollStep::Wait
        }),
{
    if ready {
        PollStep::Done
    } else if past_deadline {
        PollStep::GiveUp
    } else {
        PollStep::Wait
    }
}


/// The PNG bytes of a `Page.captureScreenshot` reply, whose `data` field is
/// standard padded base64; a text that is not gives the decoder's fault.
pub fn screenshot_bytes(data: &str) -> (r: Result<Vec<u8>, Base64Fault>)
    ensures
        match base64_standard_decode(data@) {
            Some(v) => r matches Ok(w) && w@ == v,
            None => r is Err,
        },
{
    decode_b64(data)
}

} // verus!
