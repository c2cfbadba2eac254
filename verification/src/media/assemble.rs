//! Final assembly: the audio mix graph that lays narration clips (at their
//! absolute offsets), the native audio of video-clip scenes and the music
//! bed under the concatenated scene videos, and the ffmpeg invocation that
//! renders it.

use vstd::prelude::*;
use crate::script::{owned, text_eq, DataValue, DataValueModel, Scene};
use crate::text::{decimal, push_decimal, push_str};

verus! {

broadcast use vstd::string::group_string_axioms;

/// Why assembly cannot start.
#[derive(Debug, PartialEq, Eq)]
pub enum AssembleError {
    /// A scene has not been rendered yet.
    MissingScene { path: String },
    /// A clip has no synthesized narration in the manifest.
    NoClip { scene: String, clip: String },
}

pub enum AssembleErrorModel {
    MissingScene { path: Seq<char> },
    NoClip { scene: Seq<char>, clip: Seq<char> },
}

impl View for AssembleError {
    type V = AssembleErrorModel;

    open spec fn view(&self) -> AssembleErrorModel {
        match self {
            AssembleError::MissingScene { path } => AssembleErrorModel::MissingScene {
                path: path@,
            },
            AssembleError::NoClip { scene, clip } => AssembleErrorModel::NoClip {
                scene: scene@,
                clip: clip@,
            },
        }
    }
}

pub open spec fn assemble_message(e: AssembleErrorModel) -> Seq<char> {
    match e {
        AssembleErrorModel::MissingScene { path } => "missing "@ + path
            + " \u{2014} run `videoeditor render` first"@,
        AssembleErrorModel::NoClip { scene, clip } => "no TTS clip for "@ + scene + "/"@ + clip
            + " \u{2014} run `videoeditor tts`"@,
    }
}

impl AssembleError {
    /// The error's message.
    pub fn message(&self) -> (m: String)
        ensures
            m@ == assemble_message(self@),
    {
        match self {
            AssembleError::MissingScene { path } => {
                let mut m = owned("missing ");
                push_str(&mut m, path.as_str());
                push_str(&mut m, " \u{2014} run `videoeditor render` first");
                m
            },
            AssembleError::NoClip { scene, clip } => {
                let mut m = owned("no TTS clip for ");
                push_str(&mut m, scene.as_str());
                push_str(&mut m, "/");
                push_str(&mut m, clip.as_str());
                push_str(&mut m, " \u{2014} run `videoeditor tts`");
                m
            },
        }
    }
}

/// The narration of clip `clip` of scene `scene`: the first manifest entry
/// (given as its scene and clip names) that matches both.
pub fn manifest_entry(manifest: &Vec<(String, String)>, scene: &str, clip: &str) -> (r: Result<
    usize,
    AssembleError,
>)
    ensures
        match r {
            Ok(k) => k < manifest@.len() && manifest@[k as int].0@ == scene@ && manifest@[k as int].1@
                == clip@ && forall|j: int|
                0 <= j < k ==> !(#[trigger] manifest@[j].0@ == scene@ && manifest@[j].1@ == clip@),
            Err(e) => e@ == (AssembleErrorModel::NoClip { scene: scene@, clip: clip@ })
                && forall|j: int|
                0 <= j < manifest@.len() ==> !(#[trigger] manifest@[j].0@ == scene@
                    && manifest@[j].1@ == clip@),
        },
{
    let mut k: usize = 0;
    while k < manifest.len()
        invariant
            k <= manifest@.len(),
            forall|j: int|
                0 <= j < k ==> !(#[trigger] manifest@[j].0@ == scene@ && manifest@[j].1@ == clip@),
        decreases manifest@.len() - k,
    {
        if text_eq(manifest[k].0.as_str(), scene) && text_eq(manifest[k].1.as_str(), clip) {
            return Ok(k);
        }
        k = k + 1;
    }
    Err(AssembleError::NoClip { scene: owned(scene), clip: owned(clip) })
}

/// One audio input of the mix. Times are given as the decimal text the
/// mix graph carries.
pub enum AudioTrack {
    /// A narration clip delayed to its absolute start; `tempo` is the
    /// `atempo` factor where the clip is not played at normal speed.
    Narration { tempo: Option<String>, delay_ms: i64 },
    /// The native audio of a video-clip scene: its source trimmed to
    /// `from..to` seconds, delayed to the scene's start.
    ClipAudio { from: String, to: String, delay_ms: i64 },
    /// The music bed, looped, cut to `length` seconds, at `gain_db`.
    Music { length: String, gain_db: String },
}

pub enum AudioTrackModel {
    Narration { tempo: Option<Seq<char>>, delay_ms: i64 },
    ClipAudio { from: Seq<char>, to: Seq<char>, delay_ms: i64 },
    Music { length: Seq<char>, gain_db: Seq<char> },
}

impl View for AudioTrack {
    type V = AudioTrackModel;

    open spec fn view(&self) -> AudioTrackModel {
        match self {
            AudioTrack::Narration { tempo, delay_ms } => AudioTrackModel::Narration {
                tempo: match tempo {
                    Some(t) => Some(t@),
                    None => None,
                },
                delay_ms: *delay_ms,
            },
            AudioTrack::ClipAudio { from, to, delay_ms } => AudioTrackModel::ClipAudio {
                from: from@,
                to: to@,
                delay_ms: *delay_ms,
            },
            AudioTrack::Music { length, gain_db } => AudioTrackModel::Music {
                length: length@,
                gain_db: gain_db@,
            },
        }
    }
}

/// Decimal text of an integer, with a leading `-` when negative.
pub open spec fn signed_decimal(n: int) -> Seq<char> {
    if n < 0 {
        seq!['-'] + decimal((-n) as nat)
    } else {
        decimal(n as nat)
    }
}

fn push_signed(out: &mut String, n: i64)
    ensures
        final(out)@ == old(out)@ + signed_decimal(n as int),
{
    if n < 0 {
        out.push('-');
        let m: u64 = ((-(n + 1)) as u64) + 1;
        assert(m == -n);
        let ghost mid = out@;
        push_decimal(out, m);
        assert(final(out)@ =~= old(out)@ + signed_decimal(n as int));
    } else {
        push_decimal(out, n as u64);
    }
}

/// Every track's audio is brought to one format before mixing.
pub open spec fn norm() -> Seq<char> {
    "aresample=44100,aformat=sample_fmts=fltp:channel_layouts=stereo"@
}

/// The label of the track read from input `idx`.
pub open spec fn track_label(idx: nat, t: AudioTrackModel) -> Seq<char> {
    match t {
        AudioTrackModel::Narration { .. } => seq!['n'] + decimal(idx),
        AudioTrackModel::ClipAudio { .. } => seq!['c'] + decimal(idx),
        AudioTrackModel::Music { .. } => seq!['m'] + decimal(idx),
    }
}

pub open spec fn tempo_prefix(tempo: Option<Seq<char>>) -> Seq<char> {
    match tempo {
        Some(x) => "atempo="@ + x + ","@,
        None => seq![],
    }
}

/// What a track's chain does to its audio.
pub open spec fn track_body(t: AudioTrackModel) -> Seq<char> {
    match t {
        AudioTrackModel::Narration { tempo, delay_ms } => tempo_prefix(tempo) + norm() + ",adelay="@
            + signed_decimal(delay_ms as int) + ":all=1"@,
        AudioTrackModel::ClipAudio { from, to, delay_ms } => "atrim="@ + from + ":"@ + to
            + ",asetpts=PTS-STARTPTS,"@ + norm() + ",adelay="@ + signed_decimal(delay_ms as int)
            + ":all=1"@,
        AudioTrackModel::Music { length, gain_db } => norm()
            + ",aloop=loop=-1:size=2000000,atrim=0:"@ + length + ",volume="@ + gain_db + "dB"@,
    }
}

/// The filter chain of the track read from input `idx`.
pub open spec fn track_chain(idx: nat, t: AudioTrackModel) -> Seq<char> {
    "["@ + decimal(idx) + ":a]"@ + track_body(t) + "["@ + track_label(idx, t) + "]"@
}

/// The chains of the first `n` tracks (inputs `1..=n`), joined by `;`.
pub open spec fn chains_upto(ts: Seq<AudioTrackModel>, n: nat) -> Seq<char>
    decreases n,
{
    if n == 0 {
        seq![]
    } else if n == 1 {
        track_chain(1, ts[0])
    } else {
        chains_upto(ts, (n - 1) as nat) + ";"@ + track_chain(n, ts[n - 1])
    }
}

/// `[label]` for each of the first `n` tracks, in order.
pub open spec fn mix_inputs_upto(ts: Seq<AudioTrackModel>, n: nat) -> Seq<char>
    decreases n,
{
    if n == 0 {
        seq![]
    } else {
        mix_inputs_upto(ts, (n - 1) as nat) + "["@ + track_label(n, ts[n - 1]) + "]"@
    }
}

/// The whole mix graph: every track's chain, then all of them mixed, cut to
/// the episode's length and padded with silence to it.
pub open spec fn mix_filter(ts: Seq<AudioTrackModel>, total: Seq<char>) -> Seq<char> {
    chains_upto(ts, ts.len()) + ";"@ + mix_inputs_upto(ts, ts.len()) + "amix=inputs="@ + decimal(
        ts.len(),
    ) + ":duration=longest:normalize=0,atrim=0:"@ + total + ",apad=whole_dur="@ + total
        + "[mix]"@
}

pub open spec fn input_args(paths: Seq<Seq<char>>) -> Seq<Seq<char>>
    decreases paths.len(),
{
    if paths.len() == 0 {
        seq![]
    } else {
        input_args(paths.drop_last()) + seq!["-i"@, paths.last()]
    }
}

pub open spec fn mix_args_spec(
    video: Seq<char>,
    tracks: Seq<(Seq<char>, AudioTrackModel)>,
    total: Seq<char>,
    out: Seq<char>,
) -> Seq<Seq<char>> {
    if tracks.len() == 0 {
        seq!["-i"@, video, "-c"@, "copy"@, "-an"@, out]
    } else {
        input_args(seq![video] + tracks.map_values(|t: (Seq<char>, AudioTrackModel)| t.0)) + seq![
            "-filter_complex"@,
            mix_filter(tracks.map_values(|t: (Seq<char>, AudioTrackModel)| t.1), total),
            "-map"@,
            "0:v"@,
            "-map"@,
            "[mix]"@,
            "-c:v"@,
            "copy"@,
            "-c:a"@,
            "aac"@,
            "-b:a"@,
            "192k"@,
            out,
        ]
    }
}

fn push_label(s: &mut String, idx: usize, t: &AudioTrack)
    ensures
        final(s)@ == old(s)@ + track_label(idx as nat, t@),
{
    match t {
        AudioTrack::Narration { .. } => s.push('n'),
        AudioTrack::ClipAudio { .. } => s.push('c'),
        AudioTrack::Music { .. } => s.push('m'),
    }
    push_decimal(s, idx as u64);
    assert(final(s)@ =~= old(s)@ + track_label(idx as nat, t@));
}

fn push_chain(s: &mut String, idx: usize, t: &AudioTrack)
    ensures
        final(s)@ == old(s)@ + track_chain(idx as nat, t@),
{
    let ghost start = s@;
    push_str(s, "[");
    push_decimal(s, idx as u64);
    push_str(s, ":a]");
    let ghost before_body = s@;
    match t {
        AudioTrack::Narration { tempo, delay_ms } => {
            match tempo {
                Some(x) => {
                    push_str(s, "atempo=");
                    push_str(s, x.as_str());
                    push_str(s, ",");
                },
                None => {},
            }
            push_str(s, "aresample=44100,aformat=sample_fmts=fltp:channel_layouts=stereo");
            push_str(s, ",adelay=");
            push_signed(s, *delay_ms);
            push_str(s, ":all=1");
        },
        AudioTrack::ClipAudio { from, to, delay_ms } => {
            push_str(s, "atrim=");
            push_str(s, from.as_str());
            push_str(s, ":");
            push_str(s, to.as_str());
            push_str(s, ",asetpts=PTS-STARTPTS,");
            push_str(s, "aresample=44100,aformat=sample_fmts=fltp:channel_layouts=stereo");
            push_str(s, ",adelay=");
            push_signed(s, *delay_ms);
            push_str(s, ":all=1");
        },
        AudioTrack::Music { length, gain_db } => {
            push_str(s, "aresample=44100,aformat=sample_fmts=fltp:channel_layouts=stereo");
            push_str(s, ",aloop=loop=-1:size=2000000,atrim=0:");
            push_str(s, length.as_str());
            push_str(s, ",volume=");
            push_str(s, gain_db.as_str());
            push_str(s, "dB");
        },
    }
    push_str(s, "[");
    push_label(s, idx, t);
    push_str(s, "]");
    assert(final(s)@ =~= old(s)@ + track_chain(idx as nat, t@));
}

/// The ffmpeg arguments that lay the audio `tracks` (each with the path it
/// is read from) under the concatenated `video` and write `out`; with no
/// track at all the video is copied without audio. `total` is the episode
/// length in seconds.
pub fn mix_args(video: &str, tracks: &Vec<(String, AudioTrack)>, total: &str, out: &str) -> (r:
    Vec<String>)
    requires
        tracks@.len() < usize::MAX,
    ensures
        r@.map_values(|s: String| s@) == mix_args_spec(
            video@,
            tracks@.map_values(|t: (String, AudioTrack)| (t.0@, t.1@)),
            total@,
            out@,
        ),
{
    let ghost tv = tracks@.map_values(|t: (String, AudioTrack)| (t.0@, t.1@));
    let ghost ts = tv.map_values(|t: (Seq<char>, AudioTrackModel)| t.1);
    let ghost ps = seq![video@] + tv.map_values(|t: (Seq<char>, AudioTrackModel)| t.0);
    let mut args: Vec<String> = Vec::new();
    if tracks.len() == 0 {
        args.push(owned("-i"));
        args.push(owned(video));
        args.push(owned("-c"));
        args.push(owned("copy"));
        args.push(owned("-an"));
        args.push(owned(out));
        assert(args@.map_values(|s: String| s@) =~= seq![
            "-i"@,
            video@,
            "-c"@,
            "copy"@,
            "-an"@,
            out@,
        ]);
        return args;
    }
    args.push(owned("-i"));
    args.push(owned(video));
    assert(ps.take(1) =~= seq![video@]);
    assert(input_args(ps.take(1)) =~= seq!["-i"@, video@]) by {
        assert(ps.take(1).drop_last() =~= Seq::<Seq<char>>::empty());
        assert(input_args(ps.take(1).drop_last()) =~= Seq::<Seq<char>>::empty());
        assert(ps.take(1).last() == video@);
    }
    assert(args@.map_values(|s: String| s@) =~= input_args(ps.take(1)));
    let mut chains = String::new();
    let mut labels = String::new();
    let mut k: usize = 0;
    while k < tracks.len()
        invariant
            k <= tracks@.len() < usize::MAX,
            tv == tracks@.map_values(|t: (String, AudioTrack)| (t.0@, t.1@)),
            ts == tv.map_values(|t: (Seq<char>, AudioTrackModel)| t.1),
            ps == seq![video@] + tv.map_values(|t: (Seq<char>, AudioTrackModel)| t.0),
            args@.map_values(|s: String| s@) == input_args(ps.take(k + 1)),
            chains@ == chains_upto(ts, k as nat),
            labels@ == mix_inputs_upto(ts, k as nat),
        decreases tracks@.len() - k,
    {
        let ghost before = args@.map_values(|s: String| s@);
        assert(ps.take(k + 2).drop_last() =~= ps.take(k + 1));
        assert(ps[k + 1] == tracks@[k as int].0@);
        args.push(owned("-i"));
        args.push(owned(tracks[k].0.as_str()));
        assert(args@.map_values(|s: String| s@) =~= before + seq!["-i"@, ps[k + 1]]);
        assert(ts[k as int] == tracks@[k as int].1@);
        if k > 0 {
            push_str(&mut chains, ";");
        }
        push_chain(&mut chains, k + 1, &tracks[k].1);
        push_str(&mut labels, "[");
        push_label(&mut labels, k + 1, &tracks[k].1);
        push_str(&mut labels, "]");
        k = k + 1;
    }
    assert(ps.take(k + 1) =~= ps);
    let mut filter = chains;
    push_str(&mut filter, ";");
    push_str(&mut filter, labels.as_str());
    push_str(&mut filter, "amix=inputs=");
    push_decimal(&mut filter, tracks.len() as u64);
    push_str(&mut filter, ":duration=longest:normalize=0,atrim=0:");
    push_str(&mut filter, total);
    push_str(&mut filter, ",apad=whole_dur=");
    push_str(&mut filter, total);
    push_str(&mut filter, "[mix]");
    assert(filter@ =~= mix_filter(ts, total@));
    let ghost before = args@.map_values(|s: String| s@);
    args.push(owned("-filter_complex"));
    args.push(filter);
    args.push(owned("-map"));
    args.push(owned("0:v"));
    args.push(owned("-map"));
    args.push(owned("[mix]"));
    args.push(owned("-c:v"));
    args.push(owned("copy"));
    args.push(owned("-c:a"));
    args.push(owned("aac"));
    args.push(owned("-b:a"));
    args.push(owned("192k"));
    args.push(owned(out));
    assert(args@.map_values(|s: String| s@) =~= before + seq![
        "-filter_complex"@,
        mix_filter(ts, total@),
        "-map"@,
        "0:v"@,
        "-map"@,
        "[mix]"@,
        "-c:v"@,
        "copy"@,
        "-c:a"@,
        "aac"@,
        "-b:a"@,
        "192k"@,
        out@,
    ]);
    args
}

/// Does the scene contribute its own audio to the mix: a video-clip scene
/// whose data does not say `audio=false`?
pub fn keeps_native_audio(scene: &Scene) -> (b: bool)
    ensures
        b == (scene@.template == "video-clip"@ && !(scene@.data.contains_key("audio"@)
            && scene@.data["audio"@] == DataValueModel::Bool(false))),
{
    if !scene.is_video_clip() {
        return false;
    }
    match scene.data.get("audio") {
        Some(DataValue::Bool(false)) => false,
        _ => true,
    }
}

} // verus!
