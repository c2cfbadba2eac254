//! Local whisper.cpp: whether it can run, and the reshaping of its
//! segment output into the transcript shape
//! `{"text": …, "words": [{"type": "word", "text", "start", "end"}, …]}`.

use vstd::prelude::*;
use crate::script::owned;
use crate::text::{chars_of, push_str, string_of, trim, trim_span};
use crate::voice::{VoiceError, VoiceErrorModel};

verus! {

broadcast use vstd::string::group_string_axioms;

/// The whisper model path from `WHISPER_MODEL`: it must be set and exist.
pub fn model(model_var: Option<&str>, exists: bool) -> (r: Result<String, VoiceError>)
    ensures
        match model_var {
            None => r matches Err(e) && e@ is WhisperModelUnset,
            Some(p) => if exists {
                r matches Ok(q) && q@ == p@
            } else {
                r matches Err(e) && e@ == (VoiceErrorModel::WhisperModelMissing { path: p@ })
            },
        },
{
    match model_var {
        None => Err(VoiceError::WhisperModelUnset),
        Some(p) => if exists {
            Ok(owned(p))
        } else {
            Err(VoiceError::WhisperModelMissing { path: owned(p) })
        },
    }
}

/// Is local whisper usable: a model that exists and a binary that is found?
pub fn available(model_var: Option<&str>, model_exists: bool, bin_found: bool) -> (b: bool)
    ensures
        b == (model_var is Some && model_exists && bin_found),
{
    model(model_var, model_exists).is_ok() && bin_found
}

/// A transcript in the crate's shape, with word timing left to the caller:
/// each word names the segment whose offsets it carries.
#[derive(Debug)]
pub struct Transcript {
    pub text: String,
    /// (segment index, word text), in order.
    pub words: Vec<(usize, String)>,
}

pub open spec fn concat_all(segs: Seq<Seq<char>>) -> Seq<char>
    decreases segs.len(),
{
    if segs.len() == 0 {
        seq![]
    } else {
        concat_all(segs.drop_last()) + segs.last()
    }
}

/// The words of whisper's segments: every segment whose trimmed text is not
/// empty, trimmed, with its index.
pub open spec fn segment_words(segs: Seq<Seq<char>>) -> Seq<(usize, Seq<char>)>
    decreases segs.len(),
{
    if segs.len() == 0 {
        seq![]
    } else if trim(segs.last()).len() == 0 {
        segment_words(segs.drop_last())
    } else {
        segment_words(segs.drop_last()).push(((segs.len() - 1) as usize, trim(segs.last())))
    }
}

pub open spec fn words_view(w: Seq<(usize, String)>) -> Seq<(usize, Seq<char>)> {
    w.map_values(|p: (usize, String)| (p.0, p.1@))
}

/// whisper.cpp segments (their `text`, `""` when absent) → transcript: the
/// texts concatenated and trimmed, one word per non-blank segment.
pub fn normalize(segments: &Vec<String>) -> (t: Transcript)
    ensures
        t.text@ == trim(concat_all(segments@.map_values(|s: String| s@))),
        words_view(t.words@) == segment_words(segments@.map_values(|s: String| s@)),
{
    let ghost segs = segments@.map_values(|s: String| s@);
    let mut all = String::new();
    let mut words: Vec<(usize, String)> = Vec::new();
    let mut i: usize = 0;
    assert(segs.take(0) =~= Seq::<Seq<char>>::empty());
    assert(words_view(words@) =~= Seq::<(usize, Seq<char>)>::empty());
    while i < segments.len()
        invariant
            i <= segments@.len(),
            segs == segments@.map_values(|s: String| s@),
            all@ == concat_all(segs.take(i as int)),
            words_view(words@) == segment_words(segs.take(i as int)),
        decreases segments@.len() - i,
    {
        let seg = segments[i].as_str();
        push_str(&mut all, seg);
        let cs = chars_of(seg);
        let (a, b) = trim_span(&cs, 0, cs.len());
        assert(cs@.subrange(0, cs@.len() as int) =~= segs[i as int]);
        assert(segs.take(i + 1).drop_last() =~= segs.take(i as int));
        assert(segs.take(i + 1).last() == segs[i as int]);
        if b > a {
            let ghost before = words@;
            words.push((i, string_of(&cs, a, b)));
            assert(words_view(words@) =~= words_view(before).push(
                (i, cs@.subrange(a as int, b as int)),
            ));
        }
        i = i + 1;
    }
    assert(segs.take(i as int) =~= segs);
    let ac = chars_of(all.as_str());
    let (a, b) = trim_span(&ac, 0, ac.len());
    assert(ac@.subrange(0, ac@.len() as int) =~= all@);
    Transcript { text: string_of(&ac, a, b), words }
}

} // verus!
