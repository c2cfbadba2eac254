//! The `script.md` timeline format: YAML-ish frontmatter, then line-oriented
//! markers (`[SCENE: …]`, `[DATA: …]`, `[CLIP: …]`) with narration text.
//!
//! ```text
//! ---
//! title: My Episode
//! fps: 30
//! ---
//!
//! [SCENE: name | template=code-meme duration=6.42]
//! [DATA: code=assets/code/threads.rs bench="μ: 150µS|σ: 50µS" bench_at=5.8]
//! [CLIP: threads | at=0.19]
//! Narration text until the next marker.
//! ```
//!
//! Numbers that the timeline carries (durations, offsets, tempi, voice
//! settings) are kept as the decimal literals the author wrote; they are
//! checked against the `f64` grammar here, so converting them to floats
//! afterwards cannot fail.

use vstd::prelude::*;
use crate::text::{
    CharClass, chars_of, in_class, is_float_literal, parse_u32, parse_u32_spec, is_float_literal_span, lemma_run_len_bound,
    contains_seq, line_spans, lines, matches_at, span_contains, span_starts_with, run_end, run_len, span_texts, spans_within, starts_with,
    string_of, trim, trim_span, trim_start, is_white_space, is_white_space_char, decimal,
};

verus! {

broadcast use vstd::string::group_string_axioms;

/// A fresh `String` with the characters of `s`.
pub fn owned(s: &str) -> (r: String)
    ensures
        r@ == s@,
{
    s.to_string()
}

/// Do two strings hold the same characters?
pub fn text_eq(a: &str, b: &str) -> (r: bool)
    ensures
        r == (a@ == b@),
{
    let x = chars_of(a);
    let y = chars_of(b);
    if x.len() != y.len() {
        return false;
    }
    let mut i: usize = 0;
    while i < x.len()
        invariant
            x@ == a@,
            y@ == b@,
            x@.len() == y@.len(),
            i <= x@.len(),
            forall|k: int| 0 <= k < i ==> x@[k] == y@[k],
        decreases x@.len() - i,
    {
        if x[i] != y[i] {
            return false;
        }
        i = i + 1;
    }
    assert(x@ =~= y@);
    true
}

pub open spec fn ws_run(s: Seq<char>) -> nat {
    run_len(s, in_class(CharClass::WhiteSpace))
}

pub open spec fn key_run(s: Seq<char>) -> nat {
    run_len(s, in_class(CharClass::KeyChar))
}

pub open spec fn token_run(s: Seq<char>) -> nat {
    run_len(s, in_class(CharClass::NonSpace))
}

pub open spec fn quote_run(s: Seq<char>) -> nat {
    run_len(s, in_class(CharClass::NonQuote))
}

/// The `key=value` pairs of an attribute list, left to right: white space
/// separates pairs, `k="v w"` keeps everything up to the closing quote
/// (an unclosed quote runs to the end), a key without `=` stands for
/// `key=true`, and scanning stops at the first pair that has no key.
pub open spec fn kv_tokens(s: Seq<char>) -> Seq<(Seq<char>, Seq<char>)>
    decreases s.len(),
{
    let s1 = s.skip(ws_run(s) as int);
    let klen = key_run(s1);
    proof {
        lemma_run_len_bound(s, in_class(CharClass::WhiteSpace));
        lemma_run_len_bound(s1, in_class(CharClass::KeyChar));
    }
    if klen == 0 {
        seq![]
    } else {
        let key = s1.take(klen as int);
        let r = s1.skip(klen as int);
        if r.len() == 0 || r[0] != '=' {
            seq![(key, "true"@)] + kv_tokens(r)
        } else {
            let r2 = r.drop_first();
            if r2.len() > 0 && r2[0] == '"' {
                let body = r2.drop_first();
                let q = quote_run(body);
                proof {
                    lemma_run_len_bound(body, in_class(CharClass::NonQuote));
                }
                let rest = if q < body.len() {
                    body.skip(q + 1int)
                } else {
                    body.skip(q as int)
                };
                seq![(key, body.take(q as int))] + kv_tokens(rest)
            } else {
                let t = token_run(r2);
                proof {
                    lemma_run_len_bound(r2, in_class(CharClass::NonSpace));
                }
                seq![(key, r2.take(t as int))] + kv_tokens(r2.skip(t as int))
            }
        }
    }
}

pub open spec fn pairs_view(v: Seq<(String, String)>) -> Seq<(Seq<char>, Seq<char>)> {
    v.map_values(|p: (String, String)| (p.0@, p.1@))
}

/// The attribute pairs of `cs[lo..hi]`.
#[verifier::spinoff_prover]
#[verifier::rlimit(40)]
pub fn kv_span(cs: &Vec<char>, lo: usize, hi: usize) -> (out: Vec<(String, String)>)
    requires
        lo <= hi <= cs@.len(),
    ensures
        pairs_view(out@) == kv_tokens(cs@.subrange(lo as int, hi as int)),
{
    let mut out: Vec<(String, String)> = Vec::new();
    let mut i = lo;
    loop
        invariant
            lo <= i <= hi <= cs@.len(),
            pairs_view(out@) + kv_tokens(cs@.subrange(i as int, hi as int)) == kv_tokens(
                cs@.subrange(lo as int, hi as int),
            ),
        ensures
            pairs_view(out@) == kv_tokens(cs@.subrange(lo as int, hi as int)),
        decreases hi - i,
    {
        let ghost s = cs@.subrange(i as int, hi as int);
        let ghost prev = out@;
        let a = run_end(cs, i, hi, CharClass::WhiteSpace);
        let ghost s1 = s.skip(ws_run(s) as int);
        assert(s1 =~= cs@.subrange(a as int, hi as int));
        let k_end = run_end(cs, a, hi, CharClass::KeyChar);
        if k_end == a {
            assert(kv_tokens(s) == Seq::<(Seq<char>, Seq<char>)>::empty());
            assert(pairs_view(out@) + kv_tokens(s) =~= pairs_view(out@));
            break ;
        }
        let key = string_of(cs, a, k_end);
        let ghost r = s1.skip(key_run(s1) as int);
        assert(r =~= cs@.subrange(k_end as int, hi as int));
        assert(key@ =~= s1.take(key_run(s1) as int));
        assert(r.len() > 0 ==> r[0] == cs@[k_end as int]);
        if k_end == hi || cs[k_end] != '=' {
            out.push((key, owned("true")));
            assert(pairs_view(out@) =~= pairs_view(prev).push((key@, "true"@)));
            assert(kv_tokens(s) == seq![(key@, "true"@)] + kv_tokens(r));
            i = k_end;
        } else {
            let v0 = k_end + 1;
            let ghost r2 = r.drop_first();
            assert(r2 =~= cs@.subrange(v0 as int, hi as int));
            if v0 < hi && cs[v0] == '"' {
                let ghost body = r2.drop_first();
                assert(body =~= cs@.subrange(v0 + 1, hi as int));
                let q_end = run_end(cs, v0 + 1, hi, CharClass::NonQuote);
                let value = string_of(cs, v0 + 1, q_end);
                let next = if q_end < hi {
                    q_end + 1
                } else {
                    q_end
                };
                let ghost q = quote_run(body);
                assert(body.take(q as int) =~= value@);
                assert((if q < body.len() {
                    body.skip(q + 1int)
                } else {
                    body.skip(q as int)
                }) =~= cs@.subrange(next as int, hi as int));
                assert(r2[0] == cs@[v0 as int]);
                assert(kv_tokens(s) == seq![(key@, value@)] + kv_tokens(
                    cs@.subrange(next as int, hi as int),
                ));
                out.push((key, value));
                assert(pairs_view(out@) =~= pairs_view(prev).push((key@, value@)));
                i = next;
            } else {
                let t_end = run_end(cs, v0, hi, CharClass::NonSpace);
                let value = string_of(cs, v0, t_end);
                assert(r2.take(token_run(r2) as int) =~= value@);
                assert(r2.skip(token_run(r2) as int) =~= cs@.subrange(t_end as int, hi as int));
                assert(r2.len() > 0 ==> r2[0] == cs@[v0 as int]);
                assert(kv_tokens(s) == seq![(key@, value@)] + kv_tokens(
                    cs@.subrange(t_end as int, hi as int),
                ));
                out.push((key, value));
                assert(pairs_view(out@) =~= pairs_view(prev).push((key@, value@)));
                i = t_end;
            }
        }
    }
    out
}

/// Tokenize `k=v k2="v with spaces" flag` honoring double quotes.
pub fn parse_kv(src: &str) -> (out: Vec<(String, String)>)
    ensures
        pairs_view(out@) == kv_tokens(src@),
{
    let cs = chars_of(src);
    let out = kv_span(&cs, 0, cs.len());
    assert(cs@.subrange(0, cs@.len() as int) =~= src@);
    out
}

/// A pair written back as `key="value"`.
pub open spec fn kv_render(p: (Seq<char>, Seq<char>)) -> Seq<char> {
    p.0 + seq!['=', '"'] + p.1 + seq!['"']
}

/// Pairs written back as `k="v"`, separated by single spaces.
pub open spec fn kv_join(ps: Seq<(Seq<char>, Seq<char>)>) -> Seq<char>
    decreases ps.len(),
{
    if ps.len() == 0 {
        seq![]
    } else if ps.len() == 1 {
        kv_render(ps[0])
    } else {
        kv_render(ps[0]) + seq![' '] + kv_join(ps.drop_first())
    }
}

/// A pair that `key="value"` carries unchanged: a non-empty key of key
/// characters (no `=`, no white space) and a value without `"`.
pub open spec fn kv_quotable(p: (Seq<char>, Seq<char>)) -> bool {
    &&& p.0.len() > 0
    &&& forall|i: int| 0 <= i < p.0.len() ==> #[trigger] in_class(CharClass::KeyChar)(p.0[i])
    &&& forall|i: int| 0 <= i < p.1.len() ==> #[trigger] p.1[i] != '"'
}

proof fn lemma_kv_render_first(p: (Seq<char>, Seq<char>), tail: Seq<char>)
    requires
        kv_quotable(p),
    ensures
        kv_tokens(kv_render(p) + tail) == seq![p] + kv_tokens(tail),
{
    let s = kv_render(p) + tail;
    let k = p.0.len() as int;
    let v = p.1.len() as int;
    assert(s[0] == p.0[0]);
    assert(in_class(CharClass::KeyChar)(p.0[0]));
    crate::text::lemma_run_len(s, in_class(CharClass::WhiteSpace), 0);
    assert(s.skip(0) =~= s);
    assert forall|i: int| 0 <= i < k implies #[trigger] in_class(CharClass::KeyChar)(s[i]) by {
        assert(s[i] == p.0[i]);
    }
    assert(s[k] == '=');
    crate::text::lemma_run_len(s, in_class(CharClass::KeyChar), k);
    let r = s.skip(k);
    assert(r[0] == '=');
    let r2 = r.drop_first();
    assert(r2[0] == '"');
    let body = r2.drop_first();
    assert(body =~= p.1 + seq!['"'] + tail);
    assert forall|i: int| 0 <= i < v implies #[trigger] in_class(CharClass::NonQuote)(body[i]) by {
        assert(body[i] == p.1[i]);
    }
    assert(body[v] == '"');
    crate::text::lemma_run_len(body, in_class(CharClass::NonQuote), v);
    assert(s.take(k) =~= p.0);
    assert(body.take(v) =~= p.1);
    assert(body.skip(v + 1) =~= tail);
}

proof fn lemma_kv_space_before(x: Seq<char>)
    requires
        x.len() > 0,
        in_class(CharClass::KeyChar)(x[0]),
    ensures
        kv_tokens(seq![' '] + x) == kv_tokens(x),
{
    let t = seq![' '] + x;
    assert(t.drop_first() =~= x);
    crate::text::lemma_run_len(x, in_class(CharClass::WhiteSpace), 0);
    assert(is_white_space(' '));
    assert(ws_run(t) == 1);
    assert(t.skip(1) =~= x);
    assert(x.skip(0) =~= x);
}

/// Pairs written as `k="v"` and joined with spaces read back as the same
/// pairs, in order, wherever each key is non-empty without `=` or white
/// space and each value is free of `"`.
pub proof fn lemma_parse_kv_round_trip(ps: Seq<(Seq<char>, Seq<char>)>)
    requires
        forall|i: int| 0 <= i < ps.len() ==> #[trigger] kv_quotable(ps[i]),
    ensures
        kv_tokens(kv_join(ps)) == ps,
    decreases ps.len(),
{
    if ps.len() == 0 {
        let e: Seq<char> = seq![];
        crate::text::lemma_run_len(e, in_class(CharClass::WhiteSpace), 0);
        crate::text::lemma_run_len(e.skip(0), in_class(CharClass::KeyChar), 0);
    } else if ps.len() == 1 {
        assert(kv_quotable(ps[0]));
        let e: Seq<char> = seq![];
        lemma_kv_render_first(ps[0], e);
        assert(kv_render(ps[0]) + e =~= kv_render(ps[0]));
        crate::text::lemma_run_len(e, in_class(CharClass::WhiteSpace), 0);
        crate::text::lemma_run_len(e.skip(0), in_class(CharClass::KeyChar), 0);
        assert(seq![ps[0]] =~= ps);
    } else {
        let rest = ps.drop_first();
        assert forall|i: int| 0 <= i < rest.len() implies #[trigger] kv_quotable(rest[i]) by {
            assert(rest[i] == ps[i + 1]);
            assert(kv_quotable(ps[i + 1]));
        }
        lemma_parse_kv_round_trip(rest);
        assert(kv_quotable(ps[0]));
        assert(kv_quotable(rest[0]));
        let x = kv_join(rest);
        assert(x.len() > 0 && x[0] == rest[0].0[0]) by {
            if rest.len() == 1 {
                assert(x == kv_render(rest[0]));
            } else {
                assert(x == kv_render(rest[0]) + seq![' '] + kv_join(rest.drop_first()));
            }
        }
        assert(in_class(CharClass::KeyChar)(rest[0].0[0]));
        lemma_kv_space_before(x);
        lemma_kv_render_first(ps[0], seq![' '] + x);
        assert(kv_render(ps[0]) + seq![' '] + x =~= kv_render(ps[0]) + (seq![' '] + x));
        assert(seq![ps[0]] + rest =~= ps);
    }
}


/// Why a script was rejected.
#[derive(Clone, Debug, PartialEq, Eq)]
pub enum ScriptError {
    /// The first line is not `---`.
    MissingFrontmatter,
    /// No closing `---` after the frontmatter.
    UnterminatedFrontmatter,
    /// A numeric frontmatter key (`fps`, `width`, …) holds no number.
    InvalidMeta { key: String },
    /// An attribute is absent.
    MissingAttr { key: String },
    /// An attribute holds no number.
    NotANumber { key: String },
    /// A `[SCENE:]` without `template=`.
    MissingTemplate { scene: String },
    /// A `[SCENE:]` without a numeric `duration=`.
    MissingDuration { scene: String },
    /// A `[DATA:]` before any `[SCENE:]`.
    DataBeforeScene,
    /// A `[CLIP:]` before any `[SCENE:]`.
    ClipBeforeScene,
    /// The body holds no `[SCENE:]` at all.
    NoScenes,
}

pub enum ScriptErrorModel {
    MissingFrontmatter,
    UnterminatedFrontmatter,
    InvalidMeta { key: Seq<char> },
    MissingAttr { key: Seq<char> },
    NotANumber { key: Seq<char> },
    MissingTemplate { scene: Seq<char> },
    MissingDuration { scene: Seq<char> },
    DataBeforeScene,
    ClipBeforeScene,
    NoScenes,
}

impl View for ScriptError {
    type V = ScriptErrorModel;

    open spec fn view(&self) -> ScriptErrorModel {
        match self {
            ScriptError::MissingFrontmatter => ScriptErrorModel::MissingFrontmatter,
            ScriptError::UnterminatedFrontmatter => ScriptErrorModel::UnterminatedFrontmatter,
            ScriptError::InvalidMeta { key } => ScriptErrorModel::InvalidMeta { key: key@ },
            ScriptError::MissingAttr { key } => ScriptErrorModel::MissingAttr { key: key@ },
            ScriptError::NotANumber { key } => ScriptErrorModel::NotANumber { key: key@ },
            ScriptError::MissingTemplate { scene } => ScriptErrorModel::MissingTemplate {
                scene: scene@,
            },
            ScriptError::MissingDuration { scene } => ScriptErrorModel::MissingDuration {
                scene: scene@,
            },
            ScriptError::DataBeforeScene => ScriptErrorModel::DataBeforeScene,
            ScriptError::ClipBeforeScene => ScriptErrorModel::ClipBeforeScene,
            ScriptError::NoScenes => ScriptErrorModel::NoScenes,
        }
    }
}

pub open spec fn script_message(e: ScriptErrorModel) -> Seq<char> {
    match e {
        ScriptErrorModel::MissingFrontmatter => "script.md must start with `---` frontmatter"@,
        ScriptErrorModel::UnterminatedFrontmatter => "unterminated frontmatter"@,
        ScriptErrorModel::InvalidMeta { key } => key,
        ScriptErrorModel::MissingAttr { key } => "missing attr "@ + key + "="@,
        ScriptErrorModel::NotANumber { key } => "attr "@ + key + "= not a number"@,
        ScriptErrorModel::MissingTemplate { scene } => "scene `"@ + scene + "` missing template="@,
        ScriptErrorModel::MissingDuration { scene } => "scene `"@ + scene + "` missing duration="@,
        ScriptErrorModel::DataBeforeScene => "[DATA:] before any [SCENE:]"@,
        ScriptErrorModel::ClipBeforeScene => "[CHUNK:] before any [SCENE:]"@,
        ScriptErrorModel::NoScenes => "script.md contains no [SCENE:] markers"@,
    }
}

impl ScriptError {
    /// The error's message.
    pub fn message(&self) -> (m: String)
        ensures
            m@ == script_message(self@),
    {
        match self {
            ScriptError::MissingFrontmatter => owned("script.md must start with `---` frontmatter"),
            ScriptError::UnterminatedFrontmatter => owned("unterminated frontmatter"),
            ScriptError::InvalidMeta { key } => owned(key.as_str()),
            ScriptError::MissingAttr { key } => {
                let mut m = owned("missing attr ");
                crate::text::push_str(&mut m, key.as_str());
                crate::text::push_str(&mut m, "=");
                m
            },
            ScriptError::NotANumber { key } => {
                let mut m = owned("attr ");
                crate::text::push_str(&mut m, key.as_str());
                crate::text::push_str(&mut m, "= not a number");
                m
            },
            ScriptError::MissingTemplate { scene } => {
                let mut m = owned("scene `");
                crate::text::push_str(&mut m, scene.as_str());
                crate::text::push_str(&mut m, "` missing template=");
                m
            },
            ScriptError::MissingDuration { scene } => {
                let mut m = owned("scene `");
                crate::text::push_str(&mut m, scene.as_str());
                crate::text::push_str(&mut m, "` missing duration=");
                m
            },
            ScriptError::DataBeforeScene => owned("[DATA:] before any [SCENE:]"),
            ScriptError::ClipBeforeScene => owned("[CHUNK:] before any [SCENE:]"),
            ScriptError::NoScenes => owned("script.md contains no [SCENE:] markers"),
        }
    }
}

pub open spec fn marker_prefix(kind: Seq<char>) -> Seq<char> {
    seq!['['] + kind + seq![':']
}

pub open spec fn bar_pos(s: Seq<char>) -> nat {
    run_len(s, in_class(CharClass::NonBar))
}

/// `[KIND: name | k=v …]` → the name and the attribute pairs. A `[DATA: …]`
/// marker has no name: its whole body is attributes (so a `|` inside a
/// quoted value survives).
pub open spec fn parse_marker_spec(line: Seq<char>, kind: Seq<char>) -> Option<
    (Seq<char>, Seq<(Seq<char>, Seq<char>)>),
> {
    let p = marker_prefix(kind);
    if !(starts_with(line, p) && line.len() > 0 && line.last() == ']') {
        None
    } else {
        let inner = line.subrange(p.len() as int, line.len() - 1);
        if kind == "DATA"@ {
            Some((seq![], kv_tokens(trim(inner))))
        } else if bar_pos(inner) < inner.len() {
            Some(
                (
                    trim(inner.take(bar_pos(inner) as int)),
                    kv_tokens(trim(inner.skip(bar_pos(inner) + 1int))),
                ),
            )
        } else {
            Some((trim(inner), seq![]))
        }
    }
}

pub open spec fn marker_view(m: Option<(String, Vec<(String, String)>)>) -> Option<
    (Seq<char>, Seq<(Seq<char>, Seq<char>)>),
> {
    match m {
        Some((n, a)) => Some((n@, pairs_view(a@))),
        None => None,
    }
}

/// [`parse_marker`] on the span `cs[lo..hi]`.
pub fn marker_span(cs: &Vec<char>, lo: usize, hi: usize, kind: &str) -> (r: Option<
    (String, Vec<(String, String)>),
>)
    requires
        lo <= hi <= cs@.len(),
    ensures
        marker_view(r) == parse_marker_spec(cs@.subrange(lo as int, hi as int), kind@),
{
    let ghost line = cs@.subrange(lo as int, hi as int);
    let kc = chars_of(kind);
    let mut prefix: Vec<char> = Vec::new();
    prefix.push('[');
    let mut i: usize = 0;
    while i < kc.len()
        invariant
            i <= kc@.len(),
            prefix@ == seq!['['] + kc@.take(i as int),
        decreases kc@.len() - i,
    {
        prefix.push(kc[i]);
        i = i + 1;
        assert(prefix@ =~= seq!['['] + kc@.take(i as int));
    }
    prefix.push(':');
    assert(prefix@ =~= marker_prefix(kind@));
    let starts = crate::text::span_starts_with(cs, lo, hi, &prefix);
    if !(starts && hi > lo && cs[hi - 1] == ']') {
        assert(line.len() > 0 ==> line.last() == cs@[hi - 1]);
        return None;
    }
    let plen = prefix.len();
    assert(line.take(plen as int)[plen - 1] == ':');
    let a = lo + plen;
    let b = hi - 1;
    assert(line.subrange(plen as int, line.len() - 1) =~= cs@.subrange(a as int, b as int));
    if text_eq(kind, "DATA") {
        let (x, y) = trim_span(cs, a, b);
        let attrs = kv_span(cs, x, y);
        let name = String::new();
        return Some((name, attrs));
    }
    let bar = run_end(cs, a, b, CharClass::NonBar);
    let ghost inner = cs@.subrange(a as int, b as int);
    if bar < b {
        let (x, y) = trim_span(cs, a, bar);
        let name = string_of(cs, x, y);
        let (u, v) = trim_span(cs, bar + 1, b);
        let attrs = kv_span(cs, u, v);
        assert(inner.take(bar_pos(inner) as int) =~= cs@.subrange(a as int, bar as int));
        assert(inner.skip(bar_pos(inner) + 1int) =~= cs@.subrange(bar + 1, b as int));
        Some((name, attrs))
    } else {
        let (x, y) = trim_span(cs, a, b);
        let name = string_of(cs, x, y);
        let attrs: Vec<(String, String)> = Vec::new();
        assert(pairs_view(attrs@) =~= Seq::<(Seq<char>, Seq<char>)>::empty());
        Some((name, attrs))
    }
}

/// Parse `[KIND: name | k=v k="quoted v" ...]` into its name and attributes.
pub fn parse_marker(line: &str, kind: &str) -> (r: Option<(String, Vec<(String, String)>)>)
    ensures
        marker_view(r) == parse_marker_spec(line@, kind@),
{
    let cs = chars_of(line);
    assert(cs@.subrange(0, cs@.len() as int) =~= line@);
    marker_span(&cs, 0, cs.len(), kind)
}

/// The value of the first attribute named `key`.
pub open spec fn attr_lookup(attrs: Seq<(Seq<char>, Seq<char>)>, key: Seq<char>) -> Option<
    Seq<char>,
>
    decreases attrs.len(),
{
    if attrs.len() == 0 {
        None
    } else if attrs[0].0 == key {
        Some(attrs[0].1)
    } else {
        attr_lookup(attrs.drop_first(), key)
    }
}

fn attr_find(attrs: &Vec<(String, String)>, key: &str) -> (r: Option<usize>)
    ensures
        match r {
            Some(i) => i < attrs@.len() && attr_lookup(pairs_view(attrs@), key@) == Some(
                attrs@[i as int].1@,
            ),
            None => attr_lookup(pairs_view(attrs@), key@) is None,
        },
{
    let ghost all = pairs_view(attrs@);
    let mut i: usize = 0;
    assert(all.skip(0) =~= all);
    while i < attrs.len()
        invariant
            i <= attrs@.len(),
            all == pairs_view(attrs@),
            attr_lookup(all, key@) == attr_lookup(all.skip(i as int), key@),
        decreases attrs@.len() - i,
    {
        assert(all.skip(i as int)[0] == (attrs@[i as int].0@, attrs@[i as int].1@));
        if text_eq(attrs[i].0.as_str(), key) {
            return Some(i);
        }
        assert(all.skip(i as int).drop_first() =~= all.skip(i + 1));
        i = i + 1;
    }
    assert(all.skip(i as int) =~= Seq::<(Seq<char>, Seq<char>)>::empty());
    None
}

/// The value of attribute `key` (the first one, when it repeats).
pub fn attr_str(attrs: &Vec<(String, String)>, key: &str) -> (r: Result<String, ScriptError>)
    ensures
        match attr_lookup(pairs_view(attrs@), key@) {
            Some(v) => r matches Ok(s) && s@ == v,
            None => r matches Err(e) && e@ == (ScriptErrorModel::MissingAttr { key: key@ }),
        },
{
    match attr_find(attrs, key) {
        Some(i) => Ok(attrs[i].1.clone()),
        None => Err(ScriptError::MissingAttr { key: owned(key) }),
    }
}

/// The value of attribute `key`, which must be a number (`f64` syntax).
pub fn attr_number(attrs: &Vec<(String, String)>, key: &str) -> (r: Result<String, ScriptError>)
    ensures
        match attr_lookup(pairs_view(attrs@), key@) {
            Some(v) => if is_float_literal(v) {
                r matches Ok(s) && s@ == v
            } else {
                r matches Err(e) && e@ == (ScriptErrorModel::NotANumber { key: key@ })
            },
            None => r matches Err(e) && e@ == (ScriptErrorModel::MissingAttr { key: key@ }),
        },
{
    let v = attr_str(attrs, key)?;
    let vc = chars_of(v.as_str());
    assert(vc@.subrange(0, vc@.len() as int) =~= vc@);
    if is_float_literal_span(&vc, 0, vc.len()) {
        Ok(v)
    } else {
        Err(ScriptError::NotANumber { key: owned(key) })
    }
}


/// Append `cs[lo..hi]` to `out`.
pub fn push_span(out: &mut String, cs: &Vec<char>, lo: usize, hi: usize)
    requires
        lo <= hi <= cs@.len(),
    ensures
        final(out)@ == old(out)@ + cs@.subrange(lo as int, hi as int),
{
    let ghost start = out@;
    let mut i = lo;
    while i < hi
        invariant
            lo <= i <= hi <= cs@.len(),
            out@ == start + cs@.subrange(lo as int, i as int),
        decreases hi - i,
    {
        out.push(cs[i]);
        i = i + 1;
        assert(out@ =~= start + cs@.subrange(lo as int, i as int));
    }
}

pub open spec fn fence() -> Seq<char> {
    seq!['-', '-', '-']
}

/// A frontmatter delimiter line: `---`, give or take surrounding white space.
pub open spec fn is_fence(l: Seq<char>) -> bool {
    trim(l) == fence()
}

/// Index of the first fence line at or after `i`.
pub open spec fn fence_from(ls: Seq<Seq<char>>, i: int) -> Option<int>
    decreases ls.len() - i,
{
    if i < 0 || i >= ls.len() {
        None
    } else if is_fence(ls[i]) {
        Some(i)
    } else {
        fence_from(ls, i + 1)
    }
}

/// Every line followed by `'\n'`.
pub open spec fn terminated(ls: Seq<Seq<char>>) -> Seq<char>
    decreases ls.len(),
{
    if ls.len() == 0 {
        seq![]
    } else {
        terminated(ls.drop_last()) + ls.last().push('\n')
    }
}

/// The lines joined with `sep` between them (`[&str]::join`).
pub open spec fn join_with(ls: Seq<Seq<char>>, sep: char) -> Seq<char>
    decreases ls.len(),
{
    if ls.len() == 0 {
        seq![]
    } else if ls.len() == 1 {
        ls[0]
    } else {
        join_with(ls.drop_last(), sep).push(sep) + ls.last()
    }
}

/// Frontmatter (each line newline-terminated) and body (lines joined by
/// `'\n'`) of a script whose first line is `---`.
pub open spec fn split_frontmatter_spec(src: Seq<char>) -> Result<
    (Seq<char>, Seq<char>),
    ScriptErrorModel,
> {
    let ls = lines(src);
    if ls.len() == 0 || !is_fence(ls[0]) {
        Err(ScriptErrorModel::MissingFrontmatter)
    } else {
        match fence_from(ls, 1) {
            None => Err(ScriptErrorModel::UnterminatedFrontmatter),
            Some(j) => Ok((terminated(ls.subrange(1, j)), join_with(ls.skip(j + 1), '\n'))),
        }
    }
}

fn is_fence_span(cs: &Vec<char>, lo: usize, hi: usize) -> (b: bool)
    requires
        lo <= hi <= cs@.len(),
    ensures
        b == is_fence(cs@.subrange(lo as int, hi as int)),
{
    let (x, y) = trim_span(cs, lo, hi);
    let f = vec!['-', '-', '-'];
    assert(f@ =~= fence());
    let b = y - x == 3 && matches_at(cs, x, y, &f);
    assert(y - x == 3 ==> cs@.subrange(x as int, x + 3) =~= cs@.subrange(x as int, y as int));
    b
}

pub open spec fn pair_result_view(r: Result<(String, String), ScriptError>) -> Result<
    (Seq<char>, Seq<char>),
    ScriptErrorModel,
> {
    match r {
        Ok((a, b)) => Ok((a@, b@)),
        Err(e) => Err(e@),
    }
}

/// Cut `script.md` into its frontmatter and its body.
pub fn split_frontmatter(src: &str) -> (r: Result<(String, String), ScriptError>)
    ensures
        pair_result_view(r) == split_frontmatter_spec(src@),
{
    let cs = chars_of(src);
    let spans = line_spans(&cs);
    let ghost ls = span_texts(cs@, spans@);
    assert(ls == lines(src@));
    let n = spans.len();
    if n == 0 {
        return Err(ScriptError::MissingFrontmatter);
    }
    assert(ls[0] == cs@.subrange(spans@[0].0 as int, spans@[0].1 as int));
    if !is_fence_span(&cs, spans[0].0, spans[0].1) {
        return Err(ScriptError::MissingFrontmatter);
    }
    let mut front = String::new();
    let mut j: usize = 1;
    assert(ls.subrange(1, 1) =~= Seq::<Seq<char>>::empty());
    while j < n
        invariant
            1 <= j <= n,
            n == spans@.len(),
            spans_within(cs@, spans@),
            ls == span_texts(cs@, spans@),
            ls.len() == n,
            ls == lines(src@),
            is_fence(ls[0]),
            fence_from(ls, 1) == fence_from(ls, j as int),
            front@ == terminated(ls.subrange(1, j as int)),
        decreases n - j,
    {
        let (lo, hi) = spans[j];
        assert(spans@[j as int].0 <= spans@[j as int].1 <= cs@.len());
        assert(ls[j as int] == cs@.subrange(lo as int, hi as int));
        if is_fence_span(&cs, lo, hi) {
            let mut body = String::new();
            let mut k = j + 1;
            assert(ls.skip(j + 1).subrange(0, 0) =~= Seq::<Seq<char>>::empty());
            while k < n
                invariant
                    j < k <= n,
                    n == spans@.len(),
                    spans_within(cs@, spans@),
                    ls == span_texts(cs@, spans@),
                    ls.len() == n,
                    ls == lines(src@),
                    is_fence(ls[j as int]),
                    fence_from(ls, 1) == fence_from(ls, j as int),
                    front@ == terminated(ls.subrange(1, j as int)),
                    body@ == join_with(ls.subrange(j + 1, k as int), '\n'),
                decreases n - k,
            {
                let (a, b) = spans[k];
                assert(spans@[k as int].0 <= spans@[k as int].1 <= cs@.len());
                assert(ls[k as int] == cs@.subrange(a as int, b as int));
                let ghost before = body@;
                if k > j + 1 {
                    body.push('\n');
                }
                push_span(&mut body, &cs, a, b);
                assert(ls.subrange(j + 1, k + 1).drop_last() =~= ls.subrange(j + 1, k as int));
                assert(body@ =~= join_with(ls.subrange(j + 1, k + 1), '\n'));
                k = k + 1;
            }
            assert(ls.subrange(j + 1, n as int) =~= ls.skip(j + 1));
            return Ok((front, body));
        }
        push_span(&mut front, &cs, lo, hi);
        front.push('\n');
        assert(ls.subrange(1, j + 1).drop_last() =~= ls.subrange(1, j as int));
        assert(front@ =~= terminated(ls.subrange(1, j + 1)));
        j = j + 1;
    }
    Err(ScriptError::UnterminatedFrontmatter)
}


/// Episode metadata from the frontmatter. Voice settings and the music gain
/// are decimal literals in `f64` syntax.
#[derive(Debug)]
pub struct Meta {
    pub title: String,
    pub fps: u32,
    pub width: u32,
    pub height: u32,
    pub voice_id: Option<String>,
    pub model_id: String,
    /// ElevenLabs voice_settings — low stability reads livelier, less robotic.
    pub voice_stability: String,
    pub voice_similarity: String,
    pub voice_style: String,
    pub music: Option<String>,
    pub music_gain_db: String,
    /// TTS backend requested by the script (`tts: piper|elevenlabs`).
    pub tts: Option<String>,
    /// Template packs the script opts into (`packs: ../a, ../b`), as written.
    pub packs: Option<String>,
}

pub struct MetaModel {
    pub title: Seq<char>,
    pub fps: u32,
    pub width: u32,
    pub height: u32,
    pub voice_id: Option<Seq<char>>,
    pub model_id: Seq<char>,
    pub voice_stability: Seq<char>,
    pub voice_similarity: Seq<char>,
    pub voice_style: Seq<char>,
    pub music: Option<Seq<char>>,
    pub music_gain_db: Seq<char>,
    pub tts: Option<Seq<char>>,
    pub packs: Option<Seq<char>>,
}

pub open spec fn opt_view(o: Option<String>) -> Option<Seq<char>> {
    match o {
        Some(s) => Some(s@),
        None => None,
    }
}

impl View for Meta {
    type V = MetaModel;

    open spec fn view(&self) -> MetaModel {
        MetaModel {
            title: self.title@,
            fps: self.fps,
            width: self.width,
            height: self.height,
            voice_id: opt_view(self.voice_id),
            model_id: self.model_id@,
            voice_stability: self.voice_stability@,
            voice_similarity: self.voice_similarity@,
            voice_style: self.voice_style@,
            music: opt_view(self.music),
            music_gain_db: self.music_gain_db@,
            tts: opt_view(self.tts),
            packs: opt_view(self.packs),
        }
    }
}

/// What a frontmatter without any recognised key yields.
pub open spec fn default_meta() -> MetaModel {
    MetaModel {
        title: seq![],
        fps: 30,
        width: 1080,
        height: 1920,
        voice_id: None,
        model_id: "eleven_multilingual_v2"@,
        voice_stability: "0.4"@,
        voice_similarity: "0.8"@,
        voice_style: "0.45"@,
        music: None,
        music_gain_db: "-20.0"@,
        tts: None,
        packs: None,
    }
}

pub open spec fn colon_pos(s: Seq<char>) -> nat {
    run_len(s, in_class(CharClass::NonColon))
}

pub open spec fn u32_meta(m: MetaModel, k: Seq<char>, v: Seq<char>) -> Result<u32, ScriptErrorModel> {
    match parse_u32_spec(v) {
        Some(n) => Ok(n),
        None => Err(ScriptErrorModel::InvalidMeta { key: k }),
    }
}

/// Where a trailing `# note` begins in a frontmatter value, scanning from
/// `i` (inside double quotes when `quoted`): at the first `#` that follows
/// white space outside quotes; the whole text when there is none.
pub open spec fn note_start_from(r: Seq<char>, i: int, quoted: bool) -> int
    decreases r.len() - i,
{
    if i < 0 || i >= r.len() {
        r.len() as int
    } else if r[i] == '"' {
        note_start_from(r, i + 1, !quoted)
    } else if r[i] == '#' && !quoted && i > 0 && is_white_space(r[i - 1]) {
        i
    } else {
        note_start_from(r, i + 1, quoted)
    }
}

/// A frontmatter value without its trailing `# note` (an annotation, as in
/// `voice_id: pNInz6obpgDQGcFmaJgB   # "Adam" preset`).
pub open spec fn without_note(r: Seq<char>) -> Seq<char> {
    r.take(note_start_from(r, 0, false))
}

proof fn lemma_note_start_without_hash(r: Seq<char>, i: int, quoted: bool)
    requires
        0 <= i <= r.len(),
        forall|k: int| 0 <= k < r.len() ==> #[trigger] r[k] != '#',
    ensures
        note_start_from(r, i, quoted) == r.len(),
    decreases r.len() - i,
{
    if i < r.len() {
        if r[i] == '"' {
            lemma_note_start_without_hash(r, i + 1, !quoted);
        } else {
            lemma_note_start_without_hash(r, i + 1, quoted);
        }
    }
}

/// Only a `#` starts a note: a frontmatter value without one is kept whole.
pub proof fn lemma_value_without_hash_is_kept(r: Seq<char>)
    requires
        forall|k: int| 0 <= k < r.len() ==> #[trigger] r[k] != '#',
    ensures
        without_note(r) == r,
{
    lemma_note_start_without_hash(r, 0, false);
    assert(r.take(r.len() as int) =~= r);
}

proof fn lemma_trim_unpadded(s: Seq<char>)
    requires
        s.len() > 0,
        !is_white_space(s[0]),
        !is_white_space(s.last()),
    ensures
        trim(s) == s,
{
}

/// The parts `meta_step` reads from a line `key: v`.
proof fn lemma_meta_line(key: Seq<char>, v: Seq<char>)
    requires
        key.len() > 0,
        forall|i: int| 0 <= i < key.len() ==> #[trigger] key[i] != ':' && !is_white_space(key[i]),
        v.len() > 0,
        !is_white_space(v[0]),
        !is_white_space(v.last()),
        forall|i: int| 0 <= i < v.len() ==> #[trigger] v[i] != '#',
    ensures
        ({
            let line = key + seq![':', ' '] + v;
            &&& colon_pos(line) == key.len()
            &&& colon_pos(line) < line.len()
            &&& trim(line.take(key.len() as int)) == key
            &&& trim(without_note(line.skip(key.len() + 1int))) == v
        }),
{
    let line = key + seq![':', ' '] + v;
    let k = key.len() as int;
    assert forall|i: int| 0 <= i < k implies #[trigger] in_class(CharClass::NonColon)(line[i]) by {
        assert(line[i] == key[i]);
    }
    assert(line[k] == ':');
    crate::text::lemma_run_len(line, in_class(CharClass::NonColon), k);
    assert(line.take(k) =~= key);
    lemma_trim_unpadded(key);
    let r = line.skip(k + 1);
    assert(r =~= seq![' '] + v);
    assert forall|i: int| 0 <= i < r.len() implies #[trigger] r[i] != '#' by {
        if i > 0 {
            assert(r[i] == v[i - 1]);
        }
    }
    lemma_value_without_hash_is_kept(r);
    assert(is_white_space(r[0]));
    assert(r.drop_first() =~= v);
    assert(trim_start(v) == v);
    assert(trim_start(r) == v);
    lemma_trim_unpadded(v);
}

/// The parts `meta_step` reads from a line `key: n`.
proof fn lemma_meta_number_line(key: Seq<char>, n: nat)
    requires
        key.len() > 0,
        forall|i: int| 0 <= i < key.len() ==> #[trigger] key[i] != ':' && !is_white_space(key[i]),
    ensures
        ({
            let line = key + seq![':', ' '] + decimal(n);
            &&& colon_pos(line) == key.len()
            &&& trim(line.take(key.len() as int)) == key
            &&& trim(without_note(line.skip(key.len() + 1int))) == decimal(n)
            &&& n <= u32::MAX ==> parse_u32_spec(decimal(n)) == Some(n as u32)
        }),
{
    crate::text::lemma_decimal_len(n);
    crate::text::lemma_all_digits_decimal(n);
    let d = decimal(n);
    assert(crate::text::is_digit(d[0]));
    assert(crate::text::is_digit(d.last()));
    assert forall|i: int| 0 <= i < d.len() implies #[trigger] d[i] != '#' by {
        assert(crate::text::is_digit(d[i]));
    }
    lemma_meta_line(key, d);
    assert(d[0] != '+');
}

/// The frame size and rate lines of the frontmatter each set their own
/// field: after any frontmatter that reads as `m`, a further line
/// `width: N`, `height: N` or `fps: N` (N a `u32`) gives `m` with just that
/// field set to N.
pub proof fn lemma_size_lines_set_their_own_field(ls: Seq<Seq<char>>, m: MetaModel, n: u32)
    requires
        meta_after(ls) == Ok::<MetaModel, ScriptErrorModel>(m),
    ensures
        meta_after(ls.push("width: "@ + decimal(n as nat))) == Ok::<MetaModel, ScriptErrorModel>(
            MetaModel { width: n, ..m },
        ),
        meta_after(ls.push("height: "@ + decimal(n as nat))) == Ok::<MetaModel, ScriptErrorModel>(
            MetaModel { height: n, ..m },
        ),
        meta_after(ls.push("fps: "@ + decimal(n as nat))) == Ok::<MetaModel, ScriptErrorModel>(
            MetaModel { fps: n, ..m },
        ),
{
    reveal_strlit("width: ");
    reveal_strlit("height: ");
    reveal_strlit("fps: ");
    reveal_strlit("width");
    reveal_strlit("height");
    reveal_strlit("fps");
    reveal_strlit("title");
    let d = decimal(n as nat);
    let w = "width"@;
    let h = "height"@;
    let f = "fps"@;
    assert forall|i: int| 0 <= i < w.len() implies #[trigger] w[i] != ':' && !is_white_space(w[i]) by {}
    assert forall|i: int| 0 <= i < h.len() implies #[trigger] h[i] != ':' && !is_white_space(h[i]) by {}
    assert forall|i: int| 0 <= i < f.len() implies #[trigger] f[i] != ':' && !is_white_space(f[i]) by {}
    lemma_meta_number_line(w, n as nat);
    lemma_meta_number_line(h, n as nat);
    lemma_meta_number_line(f, n as nat);
    assert("width: "@ + d =~= w + seq![':', ' '] + d);
    assert("height: "@ + d =~= h + seq![':', ' '] + d);
    assert("fps: "@ + d =~= f + seq![':', ' '] + d);
    assert(ls.push("width: "@ + d).drop_last() =~= ls);
    assert(ls.push("height: "@ + d).drop_last() =~= ls);
    assert(ls.push("fps: "@ + d).drop_last() =~= ls);
    assert(w != "title"@ && w != f);
    assert(h != "title"@ && h != f && h != w);
    assert(f != "title"@);
}

/// The text-valued keys of the frontmatter each set their own field: after
/// any frontmatter that reads as `m`, a further line `title: v`,
/// `voice_id: v`, `model_id: v`, `music: v`, `tts: v` or `packs: v` (v
/// without `#` or white space at its ends) gives `m` with just that field
/// set to v.
pub proof fn lemma_text_lines_set_their_own_field(ls: Seq<Seq<char>>, m: MetaModel, v: Seq<char>)
    requires
        meta_after(ls) == Ok::<MetaModel, ScriptErrorModel>(m),
        v.len() > 0,
        !is_white_space(v[0]),
        !is_white_space(v.last()),
        forall|i: int| 0 <= i < v.len() ==> #[trigger] v[i] != '#',
    ensures
        meta_after(ls.push("title: "@ + v)) == Ok::<MetaModel, ScriptErrorModel>(
            MetaModel { title: v, ..m },
        ),
        meta_after(ls.push("voice_id: "@ + v)) == Ok::<MetaModel, ScriptErrorModel>(
            MetaModel { voice_id: Some(v), ..m },
        ),
        meta_after(ls.push("model_id: "@ + v)) == Ok::<MetaModel, ScriptErrorModel>(
            MetaModel { model_id: v, ..m },
        ),
        meta_after(ls.push("music: "@ + v)) == Ok::<MetaModel, ScriptErrorModel>(
            MetaModel { music: Some(v), ..m },
        ),
        meta_after(ls.push("tts: "@ + v)) == Ok::<MetaModel, ScriptErrorModel>(
            MetaModel { tts: Some(v), ..m },
        ),
        meta_after(ls.push("packs: "@ + v)) == Ok::<MetaModel, ScriptErrorModel>(
            MetaModel { packs: Some(v), ..m },
        ),
{
    reveal_strlit("title");
    reveal_strlit("fps");
    reveal_strlit("width");
    reveal_strlit("height");
    reveal_strlit("voice_id");
    reveal_strlit("model_id");
    reveal_strlit("voice_stability");
    reveal_strlit("voice_similarity");
    reveal_strlit("voice_style");
    reveal_strlit("music");
    reveal_strlit("music_gain_db");
    reveal_strlit("tts");
    reveal_strlit("packs");
    reveal_strlit("title: ");
    reveal_strlit("voice_id: ");
    reveal_strlit("model_id: ");
    reveal_strlit("music: ");
    reveal_strlit("tts: ");
    reveal_strlit("packs: ");
    let ks = seq!["title"@, "voice_id"@, "model_id"@, "music"@, "tts"@, "packs"@];
    let ps = seq!["title: "@, "voice_id: "@, "model_id: "@, "music: "@, "tts: "@, "packs: "@];
    assert forall|j: int| 0 <= j < ks.len() implies {
        &&& ks[j].len() > 0
        &&& forall|i: int| 0 <= i < ks[j].len() ==> #[trigger] ks[j][i] != ':' && !is_white_space(ks[j][i])
        &&& ps[j] + v =~= ks[j] + seq![':', ' '] + v
        &&& ls.push(ps[j] + v).drop_last() =~= ls
    } by {}
    lemma_meta_line(ks[0], v);
    lemma_meta_line(ks[1], v);
    lemma_meta_line(ks[2], v);
    lemma_meta_line(ks[3], v);
    lemma_meta_line(ks[4], v);
    lemma_meta_line(ks[5], v);
    assert(ps[0] == "title: "@ && ks[0] == "title"@);
    assert(ps[1] == "voice_id: "@ && ks[1] == "voice_id"@);
    assert(ps[2] == "model_id: "@ && ks[2] == "model_id"@);
    assert(ps[3] == "music: "@ && ks[3] == "music"@);
    assert(ps[4] == "tts: "@ && ks[4] == "tts"@);
    assert(ps[5] == "packs: "@ && ks[5] == "packs"@);
}

/// Frontmatter lines without a `:` change nothing.
pub proof fn lemma_lines_without_colon_change_nothing(m: MetaModel, line: Seq<char>)
    requires
        forall|i: int| 0 <= i < line.len() ==> #[trigger] line[i] != ':',
    ensures
        meta_step(m, line) == Ok::<MetaModel, ScriptErrorModel>(m),
{
    assert forall|i: int| 0 <= i < line.len() implies #[trigger] in_class(CharClass::NonColon)(line[i]) by {}
    crate::text::lemma_run_len(line, in_class(CharClass::NonColon), line.len() as int);
}

/// The end of `cs[lo..hi]` once its trailing `# note` is cut off.
fn note_end(cs: &Vec<char>, lo: usize, hi: usize) -> (n: usize)
    requires
        lo <= hi <= cs@.len(),
    ensures
        lo <= n <= hi,
        n - lo == note_start_from(cs@.subrange(lo as int, hi as int), 0, false),
{
    let ghost r = cs@.subrange(lo as int, hi as int);
    let mut j = lo;
    let mut quoted = false;
    while j < hi
        invariant
            lo <= j <= hi <= cs@.len(),
            r == cs@.subrange(lo as int, hi as int),
            note_start_from(r, 0, false) == note_start_from(r, j - lo, quoted),
        decreases hi - j,
    {
        let ch = cs[j];
        assert(r[j - lo] == ch);
        if ch == '"' {
            quoted = !quoted;
        } else if ch == '#' && !quoted && j > lo && is_white_space_char(cs[j - 1]) {
            assert(r[j - lo - 1] == cs@[j - 1]);
            return j;
        } else if ch == '#' && !quoted && j > lo {
            assert(r[j - lo - 1] == cs@[j - 1]);
        }
        j = j + 1;
    }
    j
}

/// One frontmatter line `key: value` (split at the first `:`, both sides
/// trimmed) applied to the metadata; lines without `:` and unknown keys
/// change nothing.
pub open spec fn meta_step(m: MetaModel, line: Seq<char>) -> Result<MetaModel, ScriptErrorModel> {
    let c = colon_pos(line);
    if c >= line.len() {
        Ok(m)
    } else {
        let k = trim(line.take(c as int));
        let v = trim(without_note(line.skip(c + 1int)));
        let bad = ScriptErrorModel::InvalidMeta { key: k };
        if k == "title"@ {
            Ok(MetaModel { title: v, ..m })
        } else if k == "fps"@ {
            match parse_u32_spec(v) {
                Some(n) => Ok(MetaModel { fps: n, ..m }),
                None => Err(bad),
            }
        } else if k == "width"@ {
            match parse_u32_spec(v) {
                Some(n) => Ok(MetaModel { width: n, ..m }),
                None => Err(bad),
            }
        } else if k == "height"@ {
            match parse_u32_spec(v) {
                Some(n) => Ok(MetaModel { height: n, ..m }),
                None => Err(bad),
            }
        } else if k == "voice_id"@ {
            Ok(MetaModel { voice_id: Some(v), ..m })
        } else if k == "model_id"@ {
            Ok(MetaModel { model_id: v, ..m })
        } else if k == "voice_stability"@ {
            if is_float_literal(v) {
                Ok(MetaModel { voice_stability: v, ..m })
            } else {
                Err(bad)
            }
        } else if k == "voice_similarity"@ {
            if is_float_literal(v) {
                Ok(MetaModel { voice_similarity: v, ..m })
            } else {
                Err(bad)
            }
        } else if k == "voice_style"@ {
            if is_float_literal(v) {
                Ok(MetaModel { voice_style: v, ..m })
            } else {
                Err(bad)
            }
        } else if k == "music"@ {
            Ok(MetaModel { music: Some(v), ..m })
        } else if k == "music_gain_db"@ {
            if is_float_literal(v) {
                Ok(MetaModel { music_gain_db: v, ..m })
            } else {
                Err(bad)
            }
        } else if k == "tts"@ {
            Ok(MetaModel { tts: Some(v), ..m })
        } else if k == "packs"@ {
            Ok(MetaModel { packs: Some(v), ..m })
        } else {
            Ok(m)
        }
    }
}

/// The metadata after the given frontmatter lines, or the first error.
pub open spec fn meta_after(ls: Seq<Seq<char>>) -> Result<MetaModel, ScriptErrorModel>
    decreases ls.len(),
{
    if ls.len() == 0 {
        Ok(default_meta())
    } else {
        match meta_after(ls.drop_last()) {
            Ok(m) => meta_step(m, ls.last()),
            Err(e) => Err(e),
        }
    }
}

pub open spec fn parse_meta_spec(front: Seq<char>) -> Result<MetaModel, ScriptErrorModel> {
    meta_after(lines(front))
}

pub open spec fn meta_result_view(r: Result<Meta, ScriptError>) -> Result<MetaModel, ScriptErrorModel> {
    match r {
        Ok(m) => Ok(m@),
        Err(e) => Err(e@),
    }
}

fn default_meta_exec() -> (m: Meta)
    ensures
        m@ == default_meta(),
{
    Meta {
        title: String::new(),
        fps: 30,
        width: 1080,
        height: 1920,
        voice_id: None,
        model_id: owned("eleven_multilingual_v2"),
        voice_stability: owned("0.4"),
        voice_similarity: owned("0.8"),
        voice_style: owned("0.45"),
        music: None,
        music_gain_db: owned("-20.0"),
        tts: None,
        packs: None,
    }
}

fn meta_u32(cs: &Vec<char>, lo: usize, hi: usize, key: String) -> (r: Result<u32, ScriptError>)
    requires
        lo <= hi <= cs@.len(),
    ensures
        match parse_u32_spec(cs@.subrange(lo as int, hi as int)) {
            Some(n) => r == Ok::<u32, ScriptError>(n),
            None => r matches Err(e) && e@ == (ScriptErrorModel::InvalidMeta { key: key@ }),
        },
{
    match parse_u32(cs, lo, hi) {
        Some(n) => Ok(n),
        None => Err(ScriptError::InvalidMeta { key }),
    }
}

fn meta_float(cs: &Vec<char>, lo: usize, hi: usize, key: String) -> (r: Result<String, ScriptError>)
    requires
        lo <= hi <= cs@.len(),
    ensures
        if is_float_literal(cs@.subrange(lo as int, hi as int)) {
            r matches Ok(v) && v@ == cs@.subrange(lo as int, hi as int)
        } else {
            r matches Err(e) && e@ == (ScriptErrorModel::InvalidMeta { key: key@ })
        },
{
    if is_float_literal_span(cs, lo, hi) {
        Ok(string_of(cs, lo, hi))
    } else {
        Err(ScriptError::InvalidMeta { key })
    }
}

/// Apply the frontmatter line `cs[lo..hi]` to `m`.
fn apply_meta_line(m: &mut Meta, cs: &Vec<char>, lo: usize, hi: usize) -> (r: Result<(), ScriptError>)
    requires
        lo <= hi <= cs@.len(),
    ensures
        match meta_step(old(m)@, cs@.subrange(lo as int, hi as int)) {
            Ok(x) => r is Ok && final(m)@ == x,
            Err(e) => r matches Err(f) && f@ == e,
        },
{
    let ghost line = cs@.subrange(lo as int, hi as int);
    let c = run_end(cs, lo, hi, CharClass::NonColon);
    if c == hi {
        return Ok(());
    }
    let (ka, kb) = trim_span(cs, lo, c);
    let n = note_end(cs, c + 1, hi);
    let (va, vb) = trim_span(cs, c + 1, n);
    assert(line.take(colon_pos(line) as int) =~= cs@.subrange(lo as int, c as int));
    assert(line.skip(colon_pos(line) + 1int) =~= cs@.subrange(c + 1, hi as int));
    assert(without_note(cs@.subrange(c + 1, hi as int)) =~= cs@.subrange(c + 1, n as int));
    let k = string_of(cs, ka, kb);
    let ks = k.as_str();
    if text_eq(ks, "title") {
        m.title = string_of(cs, va, vb);
    } else if text_eq(ks, "fps") {
        m.fps = meta_u32(cs, va, vb, k.clone())?;
    } else if text_eq(ks, "width") {
        m.width = meta_u32(cs, va, vb, k.clone())?;
    } else if text_eq(ks, "height") {
        m.height = meta_u32(cs, va, vb, k.clone())?;
    } else if text_eq(ks, "voice_id") {
        m.voice_id = Some(string_of(cs, va, vb));
    } else if text_eq(ks, "model_id") {
        m.model_id = string_of(cs, va, vb);
    } else if text_eq(ks, "voice_stability") {
        m.voice_stability = meta_float(cs, va, vb, k.clone())?;
    } else if text_eq(ks, "voice_similarity") {
        m.voice_similarity = meta_float(cs, va, vb, k.clone())?;
    } else if text_eq(ks, "voice_style") {
        m.voice_style = meta_float(cs, va, vb, k.clone())?;
    } else if text_eq(ks, "music") {
        m.music = Some(string_of(cs, va, vb));
    } else if text_eq(ks, "music_gain_db") {
        m.music_gain_db = meta_float(cs, va, vb, k.clone())?;
    } else if text_eq(ks, "tts") {
        m.tts = Some(string_of(cs, va, vb));
    } else if text_eq(ks, "packs") {
        m.packs = Some(string_of(cs, va, vb));
    }
    Ok(())
}

proof fn lemma_meta_error_persists(ls: Seq<Seq<char>>, k: int)
    requires
        0 <= k <= ls.len(),
        meta_after(ls.take(k)) is Err,
    ensures
        meta_after(ls) == meta_after(ls.take(k)),
    decreases ls.len() - k,
{
    if k < ls.len() {
        assert(ls.take(k + 1).drop_last() =~= ls.take(k));
        lemma_meta_error_persists(ls, k + 1);
    } else {
        assert(ls.take(k) =~= ls);
    }
}

/// Read the frontmatter's `key: value` lines into [`Meta`].
pub fn parse_meta(front: &str) -> (r: Result<Meta, ScriptError>)
    ensures
        meta_result_view(r) == parse_meta_spec(front@),
{
    let cs = chars_of(front);
    let spans = line_spans(&cs);
    let ghost ls = span_texts(cs@, spans@);
    let mut m = default_meta_exec();
    let mut i: usize = 0;
    assert(ls.take(0) =~= Seq::<Seq<char>>::empty());
    while i < spans.len()
        invariant
            i <= spans@.len(),
            spans_within(cs@, spans@),
            ls == span_texts(cs@, spans@),
            ls == lines(front@),
            meta_after(ls.take(i as int)) == Ok::<MetaModel, ScriptErrorModel>(m@),
        decreases spans@.len() - i,
    {
        let (lo, hi) = spans[i];
        assert(spans@[i as int].0 <= spans@[i as int].1 <= cs@.len());
        assert(ls[i as int] == cs@.subrange(lo as int, hi as int));
        assert(ls.take(i + 1).drop_last() =~= ls.take(i as int));
        match apply_meta_line(&mut m, &cs, lo, hi) {
            Ok(()) => {},
            Err(e) => {
                proof {
                    lemma_meta_error_persists(ls, i + 1);
                }
                return Err(e);
            },
        }
        i = i + 1;
    }
    assert(ls.take(i as int) =~= ls);
    Ok(m)
}


/// A `[DATA:]` value: numbers (`f64` syntax, finite) and `true`/`false`
/// are typed, everything else is text.
#[derive(Clone, Debug, PartialEq, Eq)]
pub enum DataValue {
    /// A decimal literal such as `1200` or `-0.5e3` that parses to a finite
    /// `f64`, as written.
    Number(String),
    Bool(bool),
    Text(String),
}

pub enum DataValueModel {
    Number(Seq<char>),
    Bool(bool),
    Text(Seq<char>),
}

impl View for DataValue {
    type V = DataValueModel;

    open spec fn view(&self) -> DataValueModel {
        match self {
            DataValue::Number(s) => DataValueModel::Number(s@),
            DataValue::Bool(b) => DataValueModel::Bool(*b),
            DataValue::Text(s) => DataValueModel::Text(s@),
        }
    }
}

/// How a raw attribute value is typed: decimal literals that parse to a
/// finite `f64` become numbers, `true`/`false` booleans, everything else
/// (including `inf`, `nan` and literals such as `1e400` that overflow) text.
pub open spec fn to_value_spec(v: Seq<char>) -> DataValueModel {
    if crate::text::is_finite_number_literal(v) {
        DataValueModel::Number(v)
    } else if v == "true"@ {
        DataValueModel::Bool(true)
    } else if v == "false"@ {
        DataValueModel::Bool(false)
    } else {
        DataValueModel::Text(v)
    }
}

/// Type a raw attribute value (see [`to_value_spec`]).
pub fn to_value(v: &str) -> (r: DataValue)
    ensures
        r@ == to_value_spec(v@),
{
    let cs = chars_of(v);
    let n = cs.len();
    let start = if n > 0 && (cs[0] == '+' || cs[0] == '-') {
        1
    } else {
        0
    };
    assert(crate::text::unsigned_part(v@) =~= cs@.subrange(start as int, n as int));
    if crate::text::is_decimal_number_span(&cs, start, n) && !crate::text::overflows_f64_span(
        &cs,
        start,
        n,
    ) {
        DataValue::Number(owned(v))
    } else if text_eq(v, "true") {
        DataValue::Bool(true)
    } else if text_eq(v, "false") {
        DataValue::Bool(false)
    } else {
        DataValue::Text(owned(v))
    }
}

pub open spec fn entries_map(s: Seq<(String, DataValue)>) -> Map<Seq<char>, DataValueModel>
    decreases s.len(),
{
    if s.len() == 0 {
        Map::empty()
    } else {
        entries_map(s.drop_last()).insert(s.last().0@, s.last().1@)
    }
}

pub open spec fn keys_distinct(s: Seq<(String, DataValue)>) -> bool {
    forall|i: int, j: int| 0 <= i < j < s.len() ==> (#[trigger] s[i]).0@ != (#[trigger] s[j]).0@
}

pub(crate) proof fn lemma_entries_get(s: Seq<(String, DataValue)>, i: int)
    requires
        keys_distinct(s),
        0 <= i < s.len(),
    ensures
        entries_map(s).contains_key(s[i].0@),
        entries_map(s)[s[i].0@] == s[i].1@,
    decreases s.len(),
{
    if i < s.len() - 1 {
        lemma_entries_get(s.drop_last(), i);
    }
}

pub(crate) proof fn lemma_entries_absent(s: Seq<(String, DataValue)>, k: Seq<char>)
    requires
        forall|j: int| 0 <= j < s.len() ==> (#[trigger] s[j]).0@ != k,
    ensures
        !entries_map(s).contains_key(k),
    decreases s.len(),
{
    if s.len() > 0 {
        lemma_entries_absent(s.drop_last(), k);
    }
}

proof fn lemma_entries_update(s: Seq<(String, DataValue)>, i: int, x: (String, DataValue))
    requires
        keys_distinct(s),
        0 <= i < s.len(),
        x.0@ == s[i].0@,
    ensures
        entries_map(s.update(i, x)) == entries_map(s).insert(x.0@, x.1@),
    decreases s.len(),
{
    let t = s.update(i, x);
    if i == s.len() - 1 {
        assert(t.drop_last() =~= s.drop_last());
        assert(entries_map(t) =~= entries_map(s).insert(x.0@, x.1@));
    } else {
        assert(t.drop_last() =~= s.drop_last().update(i, x));
        lemma_entries_update(s.drop_last(), i, x);
        assert(s.last().0@ != x.0@);
        assert(entries_map(t) =~= entries_map(s).insert(x.0@, x.1@));
    }
}

/// The data map of a scene: each key once, later values replacing earlier.
#[derive(Debug)]
pub struct SceneData {
    entries: Vec<(String, DataValue)>,
}

impl View for SceneData {
    type V = Map<Seq<char>, DataValueModel>;

    closed spec fn view(&self) -> Map<Seq<char>, DataValueModel> {
        entries_map(self.entries@)
    }
}

impl SceneData {
    #[verifier::type_invariant]
    spec fn wf(self) -> bool {
        keys_distinct(self.entries@)
    }

    pub fn new() -> (d: SceneData)
        ensures
            d@ == Map::<Seq<char>, DataValueModel>::empty(),
    {
        SceneData { entries: Vec::new() }
    }

    fn find(&self, key: &str) -> (r: Option<usize>)
        ensures
            match r {
                Some(i) => i < self.entries@.len() && self.entries@[i as int].0@ == key@,
                None => forall|j: int|
                    0 <= j < self.entries@.len() ==> (#[trigger] self.entries@[j]).0@ != key@,
            },
    {
        let mut i: usize = 0;
        while i < self.entries.len()
            invariant
                i <= self.entries@.len(),
                forall|j: int| 0 <= j < i ==> (#[trigger] self.entries@[j]).0@ != key@,
            decreases self.entries@.len() - i,
        {
            if text_eq(self.entries[i].0.as_str(), key) {
                return Some(i);
            }
            i = i + 1;
        }
        None
    }

    /// Set `key` to `value`, replacing any earlier value.
    pub fn insert(&mut self, key: String, value: DataValue)
        ensures
            final(self)@ == old(self)@.insert(key@, value@),
    {
        proof {
            use_type_invariant(&*self);
        }
        let found = self.find(key.as_str());
        let mut entries: Vec<(String, DataValue)> = Vec::new();
        std::mem::swap(&mut entries, &mut self.entries);
        let ghost before = entries@;
        match found {
            Some(i) => {
                proof {
                    lemma_entries_update(entries@, i as int, (key, value));
                }
                entries.set(i, (key, value));
                assert forall|a: int, b: int| 0 <= a < b < entries@.len() implies (
                #[trigger] entries@[a]).0@ != (#[trigger] entries@[b]).0@ by {
                    assert(entries@[a].0@ == before[a].0@);
                    assert(entries@[b].0@ == before[b].0@);
                }
            },
            None => {
                entries.push((key, value));
                proof {
                    assert(entries@.drop_last() =~= before);
                }
            },
        }
        std::mem::swap(&mut entries, &mut self.entries);
    }

    /// The value stored under `key`.
    pub fn get(&self, key: &str) -> (r: Option<&DataValue>)
        ensures
            match r {
                Some(v) => self@.contains_key(key@) && self@[key@] == v@,
                None => !self@.contains_key(key@),
            },
    {
        proof {
            use_type_invariant(self);
        }
        match self.find(key) {
            Some(i) => {
                proof {
                    lemma_entries_get(self.entries@, i as int);
                }
                Some(&self.entries[i].1)
            },
            None => {
                proof {
                    lemma_entries_absent(self.entries@, key@);
                }
                None
            },
        }
    }

    /// All entries, each key once.
    pub fn entries(&self) -> (r: &Vec<(String, DataValue)>)
        ensures
            entries_map(r@) == self@,
            keys_distinct(r@),
    {
        proof {
            use_type_invariant(self);
        }
        &self.entries
    }
}

/// One narration clip of a scene.
#[derive(Debug)]
pub struct Chunk {
    pub name: String,
    pub text: String,
    /// Offset from scene start, seconds (decimal literal). None = after previous clip.
    pub at: Option<String>,
    /// Playback speed factor (decimal literal, `1.0` unless given).
    pub tempo: String,
}

pub struct ChunkModel {
    pub name: Seq<char>,
    pub text: Seq<char>,
    pub at: Option<Seq<char>>,
    pub tempo: Seq<char>,
}

impl View for Chunk {
    type V = ChunkModel;

    open spec fn view(&self) -> ChunkModel {
        ChunkModel { name: self.name@, text: self.text@, at: opt_view(self.at), tempo: self.tempo@ }
    }
}

/// One scene of the timeline.
#[derive(Debug)]
pub struct Scene {
    pub name: String,
    pub template: String,
    /// Seconds (decimal literal).
    pub duration: String,
    pub data: SceneData,
    pub chunks: Vec<Chunk>,
}

pub struct SceneModel {
    pub name: Seq<char>,
    pub template: Seq<char>,
    pub duration: Seq<char>,
    pub data: Map<Seq<char>, DataValueModel>,
    pub chunks: Seq<ChunkModel>,
}

pub open spec fn chunks_view(v: Seq<Chunk>) -> Seq<ChunkModel> {
    v.map_values(|c: Chunk| c@)
}

impl View for Scene {
    type V = SceneModel;

    open spec fn view(&self) -> SceneModel {
        SceneModel {
            name: self.name@,
            template: self.template@,
            duration: self.duration@,
            data: self.data@,
            chunks: chunks_view(self.chunks@),
        }
    }
}

pub open spec fn scenes_view(v: Seq<Scene>) -> Seq<SceneModel> {
    v.map_values(|s: Scene| s@)
}

pub open spec fn strings_view(v: Seq<String>) -> Seq<Seq<char>> {
    v.map_values(|s: String| s@)
}


/// Where the line scanner stands: scenes so far, narration lines waiting
/// for their clip, and whether an HTML comment is open.
pub struct ScanState {
    pub scenes: Seq<SceneModel>,
    pub buf: Seq<Seq<char>>,
    pub in_comment: bool,
}

/// The waiting narration lines become the text of the last clip of the last
/// scene, joined by spaces and trimmed, unless that clip already has text.
pub open spec fn flush_spec(scenes: Seq<SceneModel>, buf: Seq<Seq<char>>) -> Seq<SceneModel> {
    if scenes.len() > 0 && scenes.last().chunks.len() > 0 && scenes.last().chunks.last().text.len()
        == 0 {
        let sc = scenes.last();
        let ch = sc.chunks.last();
        scenes.update(
            scenes.len() - 1,
            SceneModel {
                chunks: sc.chunks.update(
                    sc.chunks.len() - 1,
                    ChunkModel { text: trim(join_with(buf, ' ')), ..ch },
                ),
                ..sc
            },
        )
    } else {
        scenes
    }
}

/// `d` with the attribute pairs inserted left to right (typed with
/// [`to_value_spec`]); `template` and `duration` are skipped when
/// `skip_timing` holds.
pub open spec fn data_with(
    d: Map<Seq<char>, DataValueModel>,
    attrs: Seq<(Seq<char>, Seq<char>)>,
    skip_timing: bool,
) -> Map<Seq<char>, DataValueModel>
    decreases attrs.len(),
{
    if attrs.len() == 0 {
        d
    } else {
        let d2 = data_with(d, attrs.drop_last(), skip_timing);
        let k = attrs.last().0;
        if skip_timing && (k == "template"@ || k == "duration"@) {
            d2
        } else {
            d2.insert(k, to_value_spec(attrs.last().1))
        }
    }
}

/// The numeric value of attribute `key`, if it is present and a number.
pub open spec fn float_attr(attrs: Seq<(Seq<char>, Seq<char>)>, key: Seq<char>) -> Option<
    Seq<char>,
> {
    match attr_lookup(attrs, key) {
        Some(v) => if is_float_literal(v) {
            Some(v)
        } else {
            None
        },
        None => None,
    }
}

/// A clip marker: `[CLIP: …]`, or its older spelling `[CHUNK: …]`.
pub open spec fn clip_marker_spec(t: Seq<char>) -> Option<(Seq<char>, Seq<(Seq<char>, Seq<char>)>)> {
    match parse_marker_spec(t, "CHUNK"@) {
        Some(m) => Some(m),
        None => parse_marker_spec(t, "CLIP"@),
    }
}

pub open spec fn comment_open() -> Seq<char> {
    seq!['<', '!', '-', '-']
}

pub open spec fn comment_close() -> Seq<char> {
    seq!['-', '-', '>']
}

/// A trimmed body line as the scanner reads it: a `[…]` marker may carry a
/// trailing ` # note` (an annotation, as in
/// `[DATA: src=clip.mp4]   # keeps native audio`), which is dropped when
/// what stays before it still ends in `]`; other lines are kept whole.
pub open spec fn marker_text(t: Seq<char>) -> Seq<char> {
    let m = trim(without_note(t));
    if t.len() > 0 && t[0] == '[' && m.len() > 0 && m.last() == ']' {
        m
    } else {
        t
    }
}

/// One body line (trimmed first) applied to the scanner: comments are
/// skipped, markers open scenes, add data or open clips, unknown `[…]`
/// markers and `#` headings are ignored, and any other non-blank line is
/// narration for the current clip. A marker's trailing note is dropped
/// first (see [`marker_text`]).
pub open spec fn scan_step(st: ScanState, raw: Seq<char>) -> Result<ScanState, ScriptErrorModel> {
    let t = marker_text(trim(raw));
    if st.in_comment || starts_with(t, comment_open()) {
        Ok(ScanState { in_comment: !contains_seq(t, comment_close()), ..st })
    } else {
        match parse_marker_spec(t, "SCENE"@) {
            Some((name, attrs)) => {
                let scenes = flush_spec(st.scenes, st.buf);
                match attr_lookup(attrs, "template"@) {
                    None => Err(ScriptErrorModel::MissingTemplate { scene: name }),
                    Some(template) => match float_attr(attrs, "duration"@) {
                        None => Err(ScriptErrorModel::MissingDuration { scene: name }),
                        Some(d) => Ok(
                            ScanState {
                                scenes: scenes.push(
                                    SceneModel {
                                        name,
                                        template,
                                        duration: d,
                                        data: data_with(Map::empty(), attrs, true),
                                        chunks: seq![],
                                    },
                                ),
                                buf: seq![],
                                in_comment: false,
                            },
                        ),
                    },
                }
            },
            None => match parse_marker_spec(t, "DATA"@) {
                Some((_, attrs)) => {
                    if st.scenes.len() == 0 {
                        Err(ScriptErrorModel::DataBeforeScene)
                    } else {
                        let last = st.scenes.last();
                        Ok(
                            ScanState {
                                scenes: st.scenes.update(
                                    st.scenes.len() - 1,
                                    SceneModel { data: data_with(last.data, attrs, false), ..last },
                                ),
                                ..st
                            },
                        )
                    }
                },
                None => match clip_marker_spec(t) {
                    Some((name, attrs)) => {
                        let scenes = flush_spec(st.scenes, st.buf);
                        if scenes.len() == 0 {
                            Err(ScriptErrorModel::ClipBeforeScene)
                        } else {
                            let last = scenes.last();
                            let clip = ChunkModel {
                                name,
                                text: seq![],
                                at: float_attr(attrs, "at"@),
                                tempo: match float_attr(attrs, "tempo"@) {
                                    Some(x) => x,
                                    None => "1.0"@,
                                },
                            };
                            Ok(
                                ScanState {
                                    scenes: scenes.update(
                                        scenes.len() - 1,
                                        SceneModel { chunks: last.chunks.push(clip), ..last },
                                    ),
                                    buf: seq![],
                                    in_comment: false,
                                },
                            )
                        }
                    },
                    None => if t.len() > 0 && t[0] == '[' && t.last() == ']' {
                        Ok(st)
                    } else if t.len() > 0 && t[0] != '#' {
                        Ok(ScanState { buf: st.buf.push(t), ..st })
                    } else {
                        Ok(st)
                    },
                },
            },
        }
    }
}

/// The scanner after the given lines, or the first error.
pub open spec fn scan_after(ls: Seq<Seq<char>>) -> Result<ScanState, ScriptErrorModel>
    decreases ls.len(),
{
    if ls.len() == 0 {
        Ok(ScanState { scenes: seq![], buf: seq![], in_comment: false })
    } else {
        match scan_after(ls.drop_last()) {
            Ok(st) => scan_step(st, ls.last()),
            Err(e) => Err(e),
        }
    }
}

/// The scenes of a script body: every line scanned, the last clip's text
/// flushed, and at least one scene required.
pub open spec fn parse_scenes_spec(body: Seq<char>) -> Result<Seq<SceneModel>, ScriptErrorModel> {
    match scan_after(lines(body)) {
        Err(e) => Err(e),
        Ok(st) => {
            let scenes = flush_spec(st.scenes, st.buf);
            if scenes.len() == 0 {
                Err(ScriptErrorModel::NoScenes)
            } else {
                Ok(scenes)
            }
        },
    }
}


/// Every timing of a scene is text that `f64::from_str` accepts: its
/// duration, each clip's tempo and, where given, each clip's start.
pub open spec fn scene_timings_parse(s: SceneModel) -> bool {
    &&& is_float_literal(s.duration)
    &&& forall|j: int|
        0 <= j < s.chunks.len() ==> {
            &&& is_float_literal(#[trigger] s.chunks[j].tempo)
            &&& s.chunks[j].at matches Some(a) ==> is_float_literal(a)
        }
}

pub open spec fn timings_parse(scenes: Seq<SceneModel>) -> bool {
    forall|i: int| 0 <= i < scenes.len() ==> scene_timings_parse(#[trigger] scenes[i])
}

proof fn lemma_default_tempo_parses()
    ensures
        is_float_literal("1.0"@),
{
    reveal_strlit("1.0");
    let t: Seq<char> = "1.0"@;
    assert(crate::text::unsigned_part(t) == t);
    crate::text::lemma_run_len(t, |c: char| crate::text::is_digit(c), 1);
    assert(t.skip(1).drop_first() =~= seq!['0']);
    crate::text::lemma_run_len(seq!['0'], |c: char| crate::text::is_digit(c), 1);
    assert(t.skip(1).skip(2) =~= Seq::<char>::empty());
}

proof fn lemma_flush_keeps_timings(scenes: Seq<SceneModel>, buf: Seq<Seq<char>>)
    requires
        timings_parse(scenes),
    ensures
        timings_parse(flush_spec(scenes, buf)),
        flush_spec(scenes, buf).len() == scenes.len(),
{
    let f = flush_spec(scenes, buf);
    assert forall|i: int| 0 <= i < f.len() implies scene_timings_parse(#[trigger] f[i]) by {
        assert(scene_timings_parse(scenes[i]));
        assert forall|j: int| 0 <= j < f[i].chunks.len() implies f[i].chunks[j].tempo
            == scenes[i].chunks[j].tempo && f[i].chunks[j].at == scenes[i].chunks[j].at by {}
    }
}

proof fn lemma_step_keeps_timings(st: ScanState, raw: Seq<char>)
    requires
        timings_parse(st.scenes),
    ensures
        scan_step(st, raw) matches Ok(st2) ==> timings_parse(st2.scenes),
{
    let t = marker_text(trim(raw));
    if st.in_comment || starts_with(t, comment_open()) {
    } else {
        lemma_flush_keeps_timings(st.scenes, st.buf);
        let fl = flush_spec(st.scenes, st.buf);
        match parse_marker_spec(t, "SCENE"@) {
            Some((name, attrs)) => {
                if let Ok(st2) = scan_step(st, raw) {
                    assert forall|i: int| 0 <= i < st2.scenes.len() implies scene_timings_parse(
                        #[trigger] st2.scenes[i],
                    ) by {
                        if i < fl.len() {
                            assert(st2.scenes[i] == fl[i]);
                        }
                    }
                }
            },
            None => match parse_marker_spec(t, "DATA"@) {
                Some((_, attrs)) => {
                    if let Ok(st2) = scan_step(st, raw) {
                        assert forall|i: int|
                            0 <= i < st2.scenes.len() implies scene_timings_parse(
                            #[trigger] st2.scenes[i],
                        ) by {
                            assert(scene_timings_parse(st.scenes[i]));
                            assert(st2.scenes[i].duration == st.scenes[i].duration);
                            assert(st2.scenes[i].chunks == st.scenes[i].chunks);
                        }
                    }
                },
                None => match clip_marker_spec(t) {
                    Some((name, attrs)) => {
                        lemma_default_tempo_parses();
                        if let Ok(st2) = scan_step(st, raw) {
                            assert forall|i: int|
                                0 <= i < st2.scenes.len() implies scene_timings_parse(
                                #[trigger] st2.scenes[i],
                            ) by {
                                assert(scene_timings_parse(fl[i]));
                                if i == fl.len() - 1 {
                                    let s2 = st2.scenes[i];
                                    assert forall|j: int| 0 <= j < s2.chunks.len() implies {
                                        &&& is_float_literal(#[trigger] s2.chunks[j].tempo)
                                        &&& s2.chunks[j].at matches Some(a) ==> is_float_literal(a)
                                    } by {
                                        if j < fl[i].chunks.len() {
                                            assert(s2.chunks[j] == fl[i].chunks[j]);
                                        }
                                    }
                                } else {
                                    assert(st2.scenes[i] == fl[i]);
                                }
                            }
                        }
                    },
                    None => {},
                },
            },
        }
    }
}

proof fn lemma_scan_keeps_timings(ls: Seq<Seq<char>>)
    ensures
        scan_after(ls) matches Ok(st) ==> timings_parse(st.scenes),
    decreases ls.len(),
{
    if ls.len() > 0 {
        lemma_scan_keeps_timings(ls.drop_last());
        if let Ok(st) = scan_after(ls.drop_last()) {
            lemma_step_keeps_timings(st, ls.last());
        }
    }
}

/// A parsed script's timings all parse as `f64`: every scene duration,
/// every clip tempo and every clip start that is given.
pub proof fn lemma_parsed_timings_parse(body: Seq<char>)
    ensures
        parse_scenes_spec(body) matches Ok(scenes) ==> timings_parse(scenes),
{
    lemma_scan_keeps_timings(lines(body));
    if let Ok(st) = scan_after(lines(body)) {
        lemma_flush_keeps_timings(st.scenes, st.buf);
    }
}

struct Scan {
    scenes: Vec<Scene>,
    buf: Vec<String>,
    in_comment: bool,
}

spec fn scan_view(st: &Scan) -> ScanState {
    ScanState {
        scenes: scenes_view(st.scenes@),
        buf: strings_view(st.buf@),
        in_comment: st.in_comment,
    }
}

/// The narration lines joined by single spaces, then trimmed.
fn join_trim(buf: &Vec<String>) -> (r: String)
    ensures
        r@ == trim(join_with(strings_view(buf@), ' ')),
{
    let ghost words = strings_view(buf@);
    let mut joined = String::new();
    let mut i: usize = 0;
    assert(words.take(0) =~= Seq::<Seq<char>>::empty());
    while i < buf.len()
        invariant
            i <= buf@.len(),
            words == strings_view(buf@),
            joined@ == join_with(words.take(i as int), ' '),
        decreases buf@.len() - i,
    {
        if i > 0 {
            joined.push(' ');
        }
        let cs = chars_of(buf[i].as_str());
        push_span(&mut joined, &cs, 0, cs.len());
        assert(cs@.subrange(0, cs@.len() as int) =~= words[i as int]);
        assert(words.take(i + 1).drop_last() =~= words.take(i as int));
        assert(joined@ =~= join_with(words.take(i + 1), ' '));
        i = i + 1;
    }
    assert(words.take(i as int) =~= words);
    let cs = chars_of(joined.as_str());
    let (a, b) = trim_span(&cs, 0, cs.len());
    assert(cs@.subrange(0, cs@.len() as int) =~= joined@);
    string_of(&cs, a, b)
}

/// Hand the waiting narration to the last clip (see [`flush_spec`]).
fn flush(st: &mut Scan)
    ensures
        scan_view(final(st)) == (ScanState {
            scenes: flush_spec(scan_view(old(st)).scenes, scan_view(old(st)).buf),
            buf: seq![],
            in_comment: old(st).in_comment,
        }),
{
    let n = st.scenes.len();
    if n > 0 {
        let m = st.scenes[n - 1].chunks.len();
        assert(scenes_view(st.scenes@).last() == st.scenes@[n - 1]@);
        if m > 0 {
            assert(chunks_view(st.scenes@[n - 1].chunks@).last() == st.scenes@[n - 1].chunks@[m
                - 1]@);
        }
        if m > 0 && st.scenes[n - 1].chunks[m - 1].text.as_str().is_empty() {
            let text = join_trim(&st.buf);
            let ghost old_scenes = st.scenes@;
            let mut sc = st.scenes.pop().unwrap();
            let ghost old_chunks = sc.chunks@;
            let mut ch = sc.chunks.pop().unwrap();
            ch.text = text;
            sc.chunks.push(ch);
            assert(chunks_view(sc.chunks@) =~= chunks_view(old_chunks).update(m - 1, ch@));
            st.scenes.push(sc);
            assert(scenes_view(st.scenes@) =~= scenes_view(old_scenes).update(n - 1, sc@));
        }
    }
    st.buf = Vec::new();
    assert(strings_view(st.buf@) =~= Seq::<Seq<char>>::empty());
}

/// Insert the attribute pairs into `d` (see [`data_with`]).
fn insert_attrs(d: &mut SceneData, attrs: &Vec<(String, String)>, skip_timing: bool)
    ensures
        final(d)@ == data_with(old(d)@, pairs_view(attrs@), skip_timing),
{
    let ghost d0 = d@;
    let ghost pv = pairs_view(attrs@);
    let mut i: usize = 0;
    assert(pv.take(0) =~= Seq::<(Seq<char>, Seq<char>)>::empty());
    while i < attrs.len()
        invariant
            i <= attrs@.len(),
            pv == pairs_view(attrs@),
            d@ == data_with(d0, pv.take(i as int), skip_timing),
        decreases attrs@.len() - i,
    {
        let k = &attrs[i].0;
        assert(pv.take(i + 1).drop_last() =~= pv.take(i as int));
        assert(pv.take(i + 1).last() == (attrs@[i as int].0@, attrs@[i as int].1@));
        let skip = skip_timing && (text_eq(k.as_str(), "template") || text_eq(
            k.as_str(),
            "duration",
        ));
        if !skip {
            d.insert(k.clone(), to_value(attrs[i].1.as_str()));
        }
        i = i + 1;
    }
    assert(pv.take(i as int) =~= pv);
}

fn number_attr_opt(attrs: &Vec<(String, String)>, key: &str) -> (r: Option<String>)
    ensures
        opt_view(r) == float_attr(pairs_view(attrs@), key@),
{
    match attr_number(attrs, key) {
        Ok(v) => Some(v),
        Err(_) => None,
    }
}

/// Scan one body line (see [`scan_step`]).
fn scan_line(st: &mut Scan, cs: &Vec<char>, lo: usize, hi: usize) -> (r: Result<(), ScriptError>)
    requires
        lo <= hi <= cs@.len(),
    ensures
        match scan_step(scan_view(old(st)), cs@.subrange(lo as int, hi as int)) {
            Ok(x) => r is Ok && scan_view(final(st)) == x,
            Err(e) => r matches Err(f) && f@ == e,
        },
{
    let (a0, b0) = trim_span(cs, lo, hi);
    let ghost t0 = cs@.subrange(a0 as int, b0 as int);
    let (mut a, mut b) = (a0, b0);
    if b0 > a0 && cs[a0] == '[' {
        let n = note_end(cs, a0, b0);
        assert(without_note(t0) =~= cs@.subrange(a0 as int, n as int));
        let (x, y) = trim_span(cs, a0, n);
        if y > x && cs[y - 1] == ']' {
            assert(cs@.subrange(x as int, y as int).last() == cs@[y - 1]);
            a = x;
            b = y;
        } else {
            assert(cs@.subrange(x as int, y as int).len() > 0 ==> cs@.subrange(x as int, y as int).last() == cs@[y - 1]);
        }
    }
    assert(t0.len() > 0 ==> t0[0] == cs@[a0 as int]);
    assert(cs@.subrange(a as int, b as int) == marker_text(t0));
    let open = vec!['<', '!', '-', '-'];
    let close = vec!['-', '-', '>'];
    assert(open@ =~= comment_open());
    assert(close@ =~= comment_close());
    if st.in_comment || span_starts_with(cs, a, b, &open) {
        st.in_comment = !span_contains(cs, a, b, &close);
        return Ok(());
    }
    match marker_span(cs, a, b, "SCENE") {
        Some((name, attrs)) => {
            flush(st);
            let template = match attr_str(&attrs, "template") {
                Ok(t) => t,
                Err(_) => {
                    return Err(ScriptError::MissingTemplate { scene: name });
                },
            };
            let duration = match attr_number(&attrs, "duration") {
                Ok(d) => d,
                Err(_) => {
                    return Err(ScriptError::MissingDuration { scene: name });
                },
            };
            let mut data = SceneData::new();
            insert_attrs(&mut data, &attrs, true);
            let ghost before = st.scenes@;
            let scene = Scene { name, template, duration, data, chunks: Vec::new() };
            assert(chunks_view(scene.chunks@) =~= Seq::<ChunkModel>::empty());
            st.scenes.push(scene);
            assert(scenes_view(st.scenes@) =~= scenes_view(before).push(scene@));
            return Ok(());
        },
        None => {},
    }
    match marker_span(cs, a, b, "DATA") {
        Some((_, attrs)) => {
            if st.scenes.len() == 0 {
                return Err(ScriptError::DataBeforeScene);
            }
            let ghost before = st.scenes@;
            let mut sc = st.scenes.pop().unwrap();
            insert_attrs(&mut sc.data, &attrs, false);
            st.scenes.push(sc);
            assert(scenes_view(st.scenes@) =~= scenes_view(before).update(
                before.len() - 1,
                sc@,
            ));
            return Ok(());
        },
        None => {},
    }
    let clip = match marker_span(cs, a, b, "CHUNK") {
        Some(m) => Some(m),
        None => marker_span(cs, a, b, "CLIP"),
    };
    match clip {
        Some((name, attrs)) => {
            flush(st);
            if st.scenes.len() == 0 {
                return Err(ScriptError::ClipBeforeScene);
            }
            let at = number_attr_opt(&attrs, "at");
            let tempo = match number_attr_opt(&attrs, "tempo") {
                Some(t) => t,
                None => owned("1.0"),
            };
            let ghost before = st.scenes@;
            let mut sc = st.scenes.pop().unwrap();
            let ghost old_chunks = sc.chunks@;
            let chunk = Chunk { name, text: String::new(), at, tempo };
            sc.chunks.push(chunk);
            assert(chunks_view(sc.chunks@) =~= chunks_view(old_chunks).push(chunk@));
            st.scenes.push(sc);
            assert(scenes_view(st.scenes@) =~= scenes_view(before).update(
                before.len() - 1,
                sc@,
            ));
            return Ok(());
        },
        None => {},
    }
    let ghost t = cs@.subrange(a as int, b as int);
    if b > a {
        assert(t[0] == cs@[a as int]);
        assert(t.last() == cs@[b - 1]);
    }
    if b > a && cs[a] == '[' && cs[b - 1] == ']' {
        return Ok(());
    }
    if b > a && cs[a] != '#' {
        let ghost before = st.buf@;
        let line = string_of(cs, a, b);
        st.buf.push(line);
        assert(strings_view(st.buf@) =~= strings_view(before).push(t));
    }
    Ok(())
}

/// A `#` heading is never narration: a line whose trimmed text starts with
/// `#` leaves the scanner as it was (unless it closes an open comment with
/// `-->`), so no clip's text, scene or data changes.
pub proof fn lemma_heading_line_is_ignored(st: ScanState, raw: Seq<char>)
    requires
        trim(raw).len() > 0,
        trim(raw)[0] == '#',
        !contains_seq(trim(raw), comment_close()),
    ensures
        scan_step(st, raw) == Ok::<ScanState, ScriptErrorModel>(st),
{
    let t0 = trim(raw);
    assert(marker_text(t0) == t0);
    assert(!starts_with(t0, comment_open())) by {
        if starts_with(t0, comment_open()) {
            assert(t0.take(4)[0] == t0[0]);
        }
    }
    assert forall|kind: Seq<char>| !starts_with(t0, #[trigger] marker_prefix(kind)) by {
        if starts_with(t0, marker_prefix(kind)) {
            assert(t0.take(marker_prefix(kind).len() as int)[0] == t0[0]);
        }
    }
    assert(parse_marker_spec(t0, "SCENE"@) is None);
    assert(parse_marker_spec(t0, "DATA"@) is None);
    assert(parse_marker_spec(t0, "CHUNK"@) is None);
    assert(parse_marker_spec(t0, "CLIP"@) is None);
    if st.in_comment {
        assert(ScanState { in_comment: !contains_seq(t0, comment_close()), ..st } == st);
    }
}

/// Any other non-blank line outside a comment is narration: its trimmed
/// text joins the lines waiting for the current clip, and nothing else
/// changes.
pub proof fn lemma_prose_line_is_narration(st: ScanState, raw: Seq<char>)
    requires
        !st.in_comment,
        trim(raw).len() > 0,
        trim(raw)[0] != '#',
        trim(raw)[0] != '[',
        trim(raw)[0] != '<',
    ensures
        scan_step(st, raw) == Ok::<ScanState, ScriptErrorModel>(
            ScanState { buf: st.buf.push(trim(raw)), ..st },
        ),
{
    let t0 = trim(raw);
    assert(marker_text(t0) == t0);
    assert(!starts_with(t0, comment_open())) by {
        if starts_with(t0, comment_open()) {
            assert(t0.take(4)[0] == t0[0]);
        }
    }
    assert forall|kind: Seq<char>| !starts_with(t0, #[trigger] marker_prefix(kind)) by {
        if starts_with(t0, marker_prefix(kind)) {
            assert(t0.take(marker_prefix(kind).len() as int)[0] == t0[0]);
        }
    }
    assert(parse_marker_spec(t0, "SCENE"@) is None);
    assert(parse_marker_spec(t0, "DATA"@) is None);
    assert(parse_marker_spec(t0, "CHUNK"@) is None);
    assert(parse_marker_spec(t0, "CLIP"@) is None);
}

/// A `[…]` line that is none of the known markers (`[SCENE:`, `[DATA:`,
/// `[CLIP:`, `[CHUNK:`) is ignored outside a comment: not narrated, and
/// nothing changes.
pub proof fn lemma_unknown_marker_is_ignored(st: ScanState, raw: Seq<char>)
    requires
        !st.in_comment,
        trim(raw).len() > 0,
        trim(raw)[0] == '[',
        trim(raw).last() == ']',
        forall|i: int| 0 <= i < trim(raw).len() ==> #[trigger] trim(raw)[i] != '#',
        !starts_with(trim(raw), marker_prefix("SCENE"@)),
        !starts_with(trim(raw), marker_prefix("DATA"@)),
        !starts_with(trim(raw), marker_prefix("CLIP"@)),
        !starts_with(trim(raw), marker_prefix("CHUNK"@)),
    ensures
        scan_step(st, raw) == Ok::<ScanState, ScriptErrorModel>(st),
{
    let t0 = trim(raw);
    lemma_value_without_hash_is_kept(t0);
    assert(is_white_space(t0[0]) == false);
    lemma_trim_unpadded(t0);
    assert(marker_text(t0) == t0);
    assert(!starts_with(t0, comment_open())) by {
        if starts_with(t0, comment_open()) {
            assert(t0.take(4)[0] == t0[0]);
        }
    }
}

/// Inserting a `#` heading line anywhere into a body's lines (outside a
/// comment it would close) changes nothing the scanner produces.
pub proof fn lemma_heading_insertion_changes_nothing(
    before: Seq<Seq<char>>,
    heading: Seq<char>,
    after: Seq<Seq<char>>,
)
    requires
        trim(heading).len() > 0,
        trim(heading)[0] == '#',
        !contains_seq(trim(heading), comment_close()),
    ensures
        scan_after(before.push(heading) + after) == scan_after(before + after),
    decreases after.len(),
{
    if after.len() == 0 {
        assert(before.push(heading) + after =~= before.push(heading));
        assert(before + after =~= before);
        assert(before.push(heading).drop_last() =~= before);
        match scan_after(before) {
            Ok(st) => lemma_heading_line_is_ignored(st, heading),
            Err(_) => {},
        }
    } else {
        lemma_heading_insertion_changes_nothing(before, heading, after.drop_last());
        assert((before.push(heading) + after).drop_last() =~= before.push(heading)
            + after.drop_last());
        assert((before + after).drop_last() =~= before + after.drop_last());
    }
}

proof fn lemma_scan_error_persists(ls: Seq<Seq<char>>, k: int)
    requires
        0 <= k <= ls.len(),
        scan_after(ls.take(k)) is Err,
    ensures
        scan_after(ls) == scan_after(ls.take(k)),
    decreases ls.len() - k,
{
    if k < ls.len() {
        assert(ls.take(k + 1).drop_last() =~= ls.take(k));
        lemma_scan_error_persists(ls, k + 1);
    } else {
        assert(ls.take(k) =~= ls);
    }
}

/// Parse the script body into scenes.
pub fn parse_scenes(body: &str) -> (r: Result<Vec<Scene>, ScriptError>)
    ensures
        match parse_scenes_spec(body@) {
            Ok(v) => r matches Ok(s) && scenes_view(s@) == v,
            Err(e) => r matches Err(f) && f@ == e,
        },
{
    let cs = chars_of(body);
    let spans = line_spans(&cs);
    let ghost ls = span_texts(cs@, spans@);
    let mut st = Scan { scenes: Vec::new(), buf: Vec::new(), in_comment: false };
    assert(scenes_view(st.scenes@) =~= Seq::<SceneModel>::empty());
    assert(strings_view(st.buf@) =~= Seq::<Seq<char>>::empty());
    let mut i: usize = 0;
    assert(ls.take(0) =~= Seq::<Seq<char>>::empty());
    while i < spans.len()
        invariant
            i <= spans@.len(),
            spans_within(cs@, spans@),
            ls == span_texts(cs@, spans@),
            ls == lines(body@),
            scan_after(ls.take(i as int)) == Ok::<ScanState, ScriptErrorModel>(scan_view(&st)),
        decreases spans@.len() - i,
    {
        let (lo, hi) = spans[i];
        assert(spans@[i as int].0 <= spans@[i as int].1 <= cs@.len());
        assert(ls[i as int] == cs@.subrange(lo as int, hi as int));
        assert(ls.take(i + 1).drop_last() =~= ls.take(i as int));
        match scan_line(&mut st, &cs, lo, hi) {
            Ok(()) => {},
            Err(e) => {
                proof {
                    lemma_scan_error_persists(ls, i + 1);
                }
                return Err(e);
            },
        }
        i = i + 1;
    }
    assert(ls.take(i as int) =~= ls);
    flush(&mut st);
    if st.scenes.len() == 0 {
        return Err(ScriptError::NoScenes);
    }
    Ok(st.scenes)
}


impl Scene {
    /// Does this scene play a source clip instead of a web template?
    pub fn is_video_clip(&self) -> (b: bool)
        ensures
            b == (self.template@ == "video-clip"@),
    {
        text_eq(self.template.as_str(), "video-clip")
    }

    /// The text value of data key `key` (None for absent, numeric or boolean values).
    pub fn data_str(&self, key: &str) -> (r: Option<&str>)
        ensures
            match r {
                Some(t) => self.data@.contains_key(key@) && self.data@[key@]
                    == DataValueModel::Text(t@),
                None => !(self.data@.contains_key(key@) && self.data@[key@] is Text),
            },
    {
        match self.data.get(key) {
            Some(DataValue::Text(t)) => Some(t.as_str()),
            _ => None,
        }
    }

    /// The numeric literal of data key `key` (None unless the value is a number).
    pub fn data_number(&self, key: &str) -> (r: Option<&str>)
        ensures
            match r {
                Some(t) => self.data@.contains_key(key@) && self.data@[key@]
                    == DataValueModel::Number(t@),
                None => !(self.data@.contains_key(key@) && self.data@[key@] is Number),
            },
    {
        match self.data.get(key) {
            Some(DataValue::Number(t)) => Some(t.as_str()),
            _ => None,
        }
    }
}

/// A parsed `script.md`: metadata and scenes.
#[derive(Debug)]
pub struct Script {
    pub meta: Meta,
    pub scenes: Vec<Scene>,
}

/// Frontmatter split off, metadata read, body scanned; the first error wins.
pub open spec fn parse_script_spec(src: Seq<char>) -> Result<
    (MetaModel, Seq<SceneModel>),
    ScriptErrorModel,
> {
    match split_frontmatter_spec(src) {
        Err(e) => Err(e),
        Ok((front, body)) => match parse_meta_spec(front) {
            Err(e) => Err(e),
            Ok(m) => match parse_scenes_spec(body) {
                Err(e) => Err(e),
                Ok(sc) => Ok((m, sc)),
            },
        },
    }
}

/// Parse a whole `script.md`.
pub fn parse_script(src: &str) -> (r: Result<Script, ScriptError>)
    ensures
        match parse_script_spec(src@) {
            Ok((m, sc)) => r matches Ok(s) && s.meta@ == m && scenes_view(s.scenes@) == sc,
            Err(e) => r matches Err(f) && f@ == e,
        },
{
    let (front, body) = split_frontmatter(src)?;
    let meta = parse_meta(front.as_str())?;
    let scenes = parse_scenes(body.as_str())?;
    Ok(Script { meta, scenes })
}

/// `build/scenes/NN_<name>.mp4`: where scene `idx` renders to, relative to
/// the episode root (`NN` is `idx` zero-padded to two digits).
pub fn scene_video_path(idx: usize, name: &str) -> (p: String)
    ensures
        p@ == "build/scenes/"@ + crate::text::zero_pad(crate::text::decimal(idx as nat), 2) + "_"@
            + name@ + ".mp4"@,
{
    let mut p = owned("build/scenes/");
    if idx < 10 {
        p.push('0');
    }
    let ghost before = p@;
    crate::text::push_decimal(&mut p, idx as u64);
    proof {
        crate::text::lemma_decimal_len(idx as nat);
        if idx < 10 {
            assert(seq!['0'] + crate::text::decimal(idx as nat) =~= crate::text::zero_pad(
                crate::text::decimal(idx as nat),
                2,
            ));
        } else {
            assert(crate::text::decimal(idx as nat) =~= crate::text::zero_pad(
                crate::text::decimal(idx as nat),
                2,
            ));
        }
    }
    p.push('_');
    let nc = chars_of(name);
    push_span(&mut p, &nc, 0, nc.len());
    let ext = chars_of(".mp4");
    push_span(&mut p, &ext, 0, ext.len());
    assert(nc@.subrange(0, nc@.len() as int) =~= name@);
    assert(ext@.subrange(0, ext@.len() as int) =~= ".mp4"@);
    proof {
        reveal_strlit("_");
    }
    assert(p@ =~= "build/scenes/"@ + crate::text::zero_pad(crate::text::decimal(idx as nat), 2)
        + "_"@ + name@ + ".mp4"@);
    p
}

} // verus!
