//! The text that the ffmpeg layer builds and reads: drawtext captions,
//! concat lists, extraction arguments, and the scene-cut timestamps in
//! ffmpeg's `showinfo` log.

pub mod assemble;

use vstd::prelude::*;
use crate::script::{owned, push_span};
use crate::text::{
    chars_of, contains_seq, decimal, find_first, is_float_literal, is_float_literal_span, line_spans,
    lines, match_from, push_decimal, push_str, span_contains, span_texts, spans_within, string_of,
};

verus! {

broadcast use vstd::string::group_string_axioms;

/// One caption character as ffmpeg's drawtext filter needs it: `\`, `'`
/// and `:` are backslash-escaped.
pub open spec fn drawtext_char(c: char) -> Seq<char> {
    if c == '\\' {
        seq!['\\', '\\']
    } else if c == '\'' {
        seq!['\\', '\'']
    } else if c == ':' {
        seq!['\\', ':']
    } else {
        seq![c]
    }
}

pub open spec fn drawtext_escape_spec(s: Seq<char>) -> Seq<char>
    decreases s.len(),
{
    if s.len() == 0 {
        seq![]
    } else {
        drawtext_escape_spec(s.drop_last()) + drawtext_char(s.last())
    }
}

/// How drawtext reads escaped text: a backslash takes the next character
/// literally.
pub open spec fn drawtext_unescape(t: Seq<char>) -> Seq<char>
    decreases t.len(),
{
    if t.len() == 0 {
        seq![]
    } else if t[0] == '\\' && t.len() >= 2 {
        seq![t[1]] + drawtext_unescape(t.skip(2))
    } else {
        seq![t[0]] + drawtext_unescape(t.skip(1))
    }
}

proof fn lemma_escape_front(c: char, r: Seq<char>)
    ensures
        drawtext_escape_spec(seq![c] + r) == drawtext_char(c) + drawtext_escape_spec(r),
    decreases r.len(),
{
    if r.len() == 0 {
        assert(seq![c] + r =~= seq![c]);
        assert(seq![c].drop_last() =~= Seq::<char>::empty());
        assert(drawtext_escape_spec(Seq::<char>::empty()) == Seq::<char>::empty());
        assert(drawtext_escape_spec(seq![c]) =~= Seq::<char>::empty() + drawtext_char(c));
    } else {
        lemma_escape_front(c, r.drop_last());
        assert((seq![c] + r).drop_last() =~= seq![c] + r.drop_last());
        assert((seq![c] + r).last() == r.last());
    }
}

proof fn lemma_unescape_char(c: char, rest: Seq<char>)
    ensures
        drawtext_unescape(drawtext_char(c) + rest) == seq![c] + drawtext_unescape(rest),
{
    let t = drawtext_char(c) + rest;
    if c == '\\' || c == '\'' || c == ':' {
        assert(t[0] == '\\' && t[1] == c);
        assert(t.skip(2) =~= rest);
    } else {
        assert(t[0] == c);
        assert(t.skip(1) =~= rest);
    }
}

/// Escaping loses nothing: drawtext reads an escaped caption line back as
/// the line itself.
pub proof fn lemma_drawtext_escape_reads_back(s: Seq<char>)
    ensures
        drawtext_unescape(drawtext_escape_spec(s)) == s,
    decreases s.len(),
{
    if s.len() > 0 {
        let c = s[0];
        let r = s.skip(1);
        assert(s =~= seq![c] + r);
        lemma_escape_front(c, r);
        lemma_unescape_char(c, drawtext_escape_spec(r));
        lemma_drawtext_escape_reads_back(r);
    }
}

/// Escape one caption line for `drawtext=text='…'`.
pub fn drawtext_escape(line: &str) -> (r: String)
    ensures
        r@ == drawtext_escape_spec(line@),
{
    let cs = chars_of(line);
    let mut r = String::new();
    let mut i: usize = 0;
    assert(cs@.take(0) =~= Seq::<char>::empty());
    while i < cs.len()
        invariant
            i <= cs@.len(),
            cs@ == line@,
            r@ == drawtext_escape_spec(cs@.take(i as int)),
        decreases cs@.len() - i,
    {
        let c = cs[i];
        if c == '\\' {
            r.push('\\');
            r.push('\\');
        } else if c == '\'' {
            r.push('\\');
            r.push('\'');
        } else if c == ':' {
            r.push('\\');
            r.push(':');
        } else {
            r.push(c);
        }
        assert(cs@.take(i + 1).drop_last() =~= cs@.take(i as int));
        i = i + 1;
        assert(r@ =~= drawtext_escape_spec(cs@.take(i as int)));
    }
    assert(cs@.take(i as int) =~= cs@);
    r
}

/// `str::split('|')`: the pieces between bars, including empty ones.
pub open spec fn split_bars(s: Seq<char>) -> Seq<Seq<char>>
    decreases s.len(),
{
    if s.len() == 0 {
        seq![seq![]]
    } else {
        let pieces = split_bars(s.drop_last());
        if s.last() == '|' {
            pieces.push(seq![])
        } else {
            pieces.update(pieces.len() - 1, pieces.last().push(s.last()))
        }
    }
}

proof fn lemma_split_bars_nonempty(s: Seq<char>)
    ensures
        split_bars(s).len() >= 1,
    decreases s.len(),
{
    if s.len() > 0 {
        lemma_split_bars_nonempty(s.drop_last());
    }
}

/// The pieces joined back together with `|` between them.
pub open spec fn join_bars(ps: Seq<Seq<char>>) -> Seq<char>
    decreases ps.len(),
{
    if ps.len() <= 1 {
        if ps.len() == 1 {
            ps[0]
        } else {
            seq![]
        }
    } else {
        join_bars(ps.drop_last()) + seq!['|'] + ps.last()
    }
}

/// Splitting a caption into lines loses nothing: joining the lines with
/// `|` gives the caption back.
pub proof fn lemma_caption_lines_rejoin(s: Seq<char>)
    ensures
        join_bars(split_bars(s)) == s,
    decreases s.len(),
{
    if s.len() > 0 {
        let pre = s.drop_last();
        lemma_caption_lines_rejoin(pre);
        lemma_split_bars_nonempty(pre);
        let ps = split_bars(pre);
        if s.last() == '|' {
            assert(split_bars(s) == ps.push(seq![]));
            assert(ps.push(seq![]).drop_last() =~= ps);
            assert(s =~= pre + seq!['|'] + Seq::<char>::empty());
        } else {
            let x = ps.last().push(s.last());
            let qs = ps.update(ps.len() - 1, x);
            assert(split_bars(s) == qs);
            if ps.len() == 1 {
                assert(join_bars(ps) == ps[0]);
                assert(s =~= pre.push(s.last()));
            } else {
                assert(qs.drop_last() =~= ps.drop_last());
                assert(join_bars(ps) == join_bars(ps.drop_last()) + seq!['|'] + ps.last());
                assert(s =~= (join_bars(ps.drop_last()) + seq!['|'] + ps.last()).push(s.last()));
                assert(join_bars(qs) =~= join_bars(ps.drop_last()) + seq!['|'] + x);
            }
        }
    }
}

/// The lines of a `caption=` value, which separates them with `|`.
pub fn caption_lines(caption: &str) -> (ls: Vec<String>)
    ensures
        ls@.map_values(|s: String| s@) == split_bars(caption@),
{
    let cs = chars_of(caption);
    let mut ls: Vec<String> = Vec::new();
    let mut cur = String::new();
    let mut i: usize = 0;
    assert(cs@.take(0) =~= Seq::<char>::empty());
    assert(split_bars(Seq::<char>::empty()) =~= seq![Seq::<char>::empty()]);
    while i < cs.len()
        invariant
            i <= cs@.len(),
            cs@ == caption@,
            ls@.map_values(|s: String| s@).push(cur@) == split_bars(cs@.take(i as int)),
        decreases cs@.len() - i,
    {
        let ghost prev = split_bars(cs@.take(i as int));
        assert(cs@.take(i + 1).drop_last() =~= cs@.take(i as int));
        proof {
            lemma_split_bars_nonempty(cs@.take(i as int));
        }
        let ghost before = ls@;
        if cs[i] == '|' {
            let done = cur;
            ls.push(done);
            cur = String::new();
            assert(ls@.map_values(|s: String| s@).push(cur@) =~= prev.push(seq![]));
        } else {
            cur.push(cs[i]);
            assert(ls@.map_values(|s: String| s@).push(cur@) =~= prev.update(
                prev.len() - 1,
                prev.last().push(cs@[i as int]),
            ));
        }
        i = i + 1;
    }
    assert(cs@.take(i as int) =~= cs@);
    let ghost before = ls@;
    ls.push(cur);
    assert(ls@.map_values(|s: String| s@) =~= before.map_values(|s: String| s@).push(cur@));
    ls
}

/// `file '<path>'` lines for ffmpeg's concat demuxer.
pub open spec fn concat_list_spec(paths: Seq<Seq<char>>) -> Seq<char>
    decreases paths.len(),
{
    if paths.len() == 0 {
        seq![]
    } else {
        concat_list_spec(paths.drop_last()) + "file '"@ + paths.last() + "'\n"@
    }
}

/// The concat list for the rendered scene videos, in order.
pub fn concat_list(paths: &Vec<String>) -> (r: String)
    ensures
        r@ == concat_list_spec(paths@.map_values(|s: String| s@)),
{
    let ghost pv = paths@.map_values(|s: String| s@);
    let mut r = String::new();
    let mut i: usize = 0;
    assert(pv.take(0) =~= Seq::<Seq<char>>::empty());
    while i < paths.len()
        invariant
            i <= paths@.len(),
            pv == paths@.map_values(|s: String| s@),
            r@ == concat_list_spec(pv.take(i as int)),
        decreases paths@.len() - i,
    {
        push_str(&mut r, "file '");
        push_str(&mut r, paths[i].as_str());
        push_str(&mut r, "'\n");
        assert(pv.take(i + 1).drop_last() =~= pv.take(i as int));
        i = i + 1;
    }
    assert(pv.take(i as int) =~= pv);
    r
}

/// The ffmpeg arguments that extract a video's audio track to mp3 (for STT).
pub fn extract_audio_args(video: &str, out: &str) -> (args: Vec<String>)
    ensures
        args@.map_values(|s: String| s@) == seq![
            "-i"@,
            video@,
            "-vn"@,
            "-acodec"@,
            "libmp3lame"@,
            "-q:a"@,
            "2"@,
            out@,
        ],
{
    let mut args: Vec<String> = Vec::new();
    args.push(owned("-i"));
    args.push(owned(video));
    args.push(owned("-vn"));
    args.push(owned("-acodec"));
    args.push(owned("libmp3lame"));
    args.push(owned("-q:a"));
    args.push(owned("2"));
    args.push(owned(out));
    assert(args@.map_values(|s: String| s@) =~= seq![
        "-i"@,
        video@,
        "-vn"@,
        "-acodec"@,
        "libmp3lame"@,
        "-q:a"@,
        "2"@,
        out@,
    ]);
    args
}

pub open spec fn time_char(c: char) -> bool {
    ('0' <= c && c <= '9') || c == '.'
}

pub open spec fn time_run(s: Seq<char>) -> nat
    decreases s.len(),
{
    if s.len() > 0 && time_char(s[0]) {
        1 + time_run(s.drop_first())
    } else {
        0
    }
}

/// The timestamp a `showinfo` log line reports: the digits and dots right
/// after its first `pts_time:`, when they form a number.
pub open spec fn cut_time_of(l: Seq<char>) -> Option<Seq<char>> {
    if contains_seq(l, "showinfo"@) {
        match match_from(l, "pts_time:"@, 0) {
            Some(i) => {
                let rest = l.skip(i + 9);
                let t = rest.take(time_run(rest) as int);
                if is_float_literal(t) {
                    Some(t)
                } else {
                    None
                }
            },
            None => None,
        }
    } else {
        None
    }
}

/// The scene-cut timestamps of a whole log, in order.
pub open spec fn cut_times_spec(ls: Seq<Seq<char>>) -> Seq<Seq<char>>
    decreases ls.len(),
{
    if ls.len() == 0 {
        seq![]
    } else {
        match cut_time_of(ls.last()) {
            Some(t) => cut_times_spec(ls.drop_last()).push(t),
            None => cut_times_spec(ls.drop_last()),
        }
    }
}

fn time_run_end(cs: &Vec<char>, i: usize, hi: usize) -> (r: usize)
    requires
        i <= hi <= cs@.len(),
    ensures
        i <= r <= hi,
        r - i == time_run(cs@.subrange(i as int, hi as int)),
{
    let mut j = i;
    while j < hi && (('0' <= cs[j] && cs[j] <= '9') || cs[j] == '.')
        invariant
            i <= j <= hi <= cs@.len(),
            time_run(cs@.subrange(i as int, hi as int)) == (j - i) + time_run(
                cs@.subrange(j as int, hi as int),
            ),
        decreases hi - j,
    {
        assert(cs@.subrange(j as int, hi as int).drop_first() =~= cs@.subrange(j + 1, hi as int));
        j = j + 1;
    }
    j
}

/// The scene-cut timestamps (seconds, as decimal literals) that ffmpeg's
/// `select=gt(scene,…),showinfo` filter logged on stderr.
pub fn scene_cut_times(log: &str) -> (r: Vec<String>)
    ensures
        r@.map_values(|s: String| s@) == cut_times_spec(lines(log@)),
{
    let cs = chars_of(log);
    let spans = line_spans(&cs);
    let ghost ls = span_texts(cs@, spans@);
    let marker = chars_of("showinfo");
    let pts = chars_of("pts_time:");
    assert(pts@.len() == 9) by {
        reveal_strlit("pts_time:");
    }
    let mut out: Vec<String> = Vec::new();
    let mut k: usize = 0;
    assert(ls.take(0) =~= Seq::<Seq<char>>::empty());
    while k < spans.len()
        invariant
            k <= spans@.len(),
            spans_within(cs@, spans@),
            ls == span_texts(cs@, spans@),
            ls == lines(log@),
            marker@ == "showinfo"@,
            pts@ == "pts_time:"@,
            pts@.len() == 9,
            out@.map_values(|s: String| s@) == cut_times_spec(ls.take(k as int)),
        decreases spans@.len() - k,
    {
        let (lo, hi) = spans[k];
        assert(spans@[k as int].0 <= spans@[k as int].1 <= cs@.len());
        let ghost l = cs@.subrange(lo as int, hi as int);
        assert(ls[k as int] == l);
        assert(ls.take(k + 1).drop_last() =~= ls.take(k as int));
        let ghost before = out@;
        if span_contains(&cs, lo, hi, &marker) {
            match find_first(&cs, lo, hi, &pts) {
                Some(at) => {
                    let start = lo + at + 9;
                    let end = time_run_end(&cs, start, hi);
                    assert(l.skip(at + 9) =~= cs@.subrange(start as int, hi as int));
                    assert(l.skip(at + 9).take((end - start) as int) =~= cs@.subrange(
                        start as int,
                        end as int,
                    ));
                    if is_float_literal_span(&cs, start, end) {
                        out.push(string_of(&cs, start, end));
                        assert(out@.map_values(|s: String| s@) =~= before.map_values(
                            |s: String| s@,
                        ).push(cs@.subrange(start as int, end as int)));
                    }
                },
                None => {},
            }
        }
        k = k + 1;
    }
    assert(ls.take(k as int) =~= ls);
    out
}

/// The filter that fits a clip to the frame: scaled up to cover it, cropped
/// to it, resampled to the frame rate, square pixels.
pub fn cover_filter(width: u32, height: u32, fps: u32) -> (r: String)
    ensures
        r@ == "scale="@ + decimal(width as nat) + ":"@ + decimal(height as nat)
            + ":force_original_aspect_ratio=increase,crop="@ + decimal(width as nat) + ":"@
            + decimal(height as nat) + ",fps="@ + decimal(fps as nat) + ",setsar=1"@,
{
    let mut r = owned("scale=");
    push_decimal(&mut r, width as u64);
    push_str(&mut r, ":");
    push_decimal(&mut r, height as u64);
    push_str(&mut r, ":force_original_aspect_ratio=increase,crop=");
    push_decimal(&mut r, width as u64);
    push_str(&mut r, ":");
    push_decimal(&mut r, height as u64);
    push_str(&mut r, ",fps=");
    push_decimal(&mut r, fps as u64);
    push_str(&mut r, ",setsar=1");
    r
}

} // verus!
