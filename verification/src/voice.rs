//! Voice I/O decisions: which TTS and STT backends a run resolves to,
//! which narration clips get (re)synthesized, and the Scribe upload body.

pub mod whisper;

use vstd::prelude::*;
use crate::script::{owned, text_eq, Meta, opt_view};
use crate::text::{chars_of, debug_quoted, debug_quoted_spec, push_str};

verus! {

broadcast use vstd::string::group_string_axioms;

#[derive(Clone, Copy, Debug, PartialEq, Eq, Structural)]
pub enum TtsBackend {
    Piper,
    ElevenLabs,
}

#[derive(Clone, Copy, Debug, PartialEq, Eq, Structural)]
pub enum SttBackend {
    Whisper,
    ElevenLabs,
}

/// Why a voice step refused to run.
#[derive(Debug, PartialEq, Eq)]
pub enum VoiceError {
    UnknownTtsBackend { name: String },
    UnknownSttBackend { name: String },
    /// A clip selected for synthesis has no narration text.
    EmptyClip { id: String },
    /// ElevenLabs TTS needs `voice_id:` in the frontmatter.
    MissingVoiceId,
    /// `WHISPER_MODEL` is unset.
    WhisperModelUnset,
    /// `WHISPER_MODEL` names a file that does not exist.
    WhisperModelMissing { path: String },
}

pub enum VoiceErrorModel {
    UnknownTtsBackend { name: Seq<char> },
    UnknownSttBackend { name: Seq<char> },
    EmptyClip { id: Seq<char> },
    MissingVoiceId,
    WhisperModelUnset,
    WhisperModelMissing { path: Seq<char> },
}

impl View for VoiceError {
    type V = VoiceErrorModel;

    open spec fn view(&self) -> VoiceErrorModel {
        match self {
            VoiceError::UnknownTtsBackend { name } => VoiceErrorModel::UnknownTtsBackend {
                name: name@,
            },
            VoiceError::UnknownSttBackend { name } => VoiceErrorModel::UnknownSttBackend {
                name: name@,
            },
            VoiceError::EmptyClip { id } => VoiceErrorModel::EmptyClip { id: id@ },
            VoiceError::MissingVoiceId => VoiceErrorModel::MissingVoiceId,
            VoiceError::WhisperModelUnset => VoiceErrorModel::WhisperModelUnset,
            VoiceError::WhisperModelMissing { path } => VoiceErrorModel::WhisperModelMissing {
                path: path@,
            },
        }
    }
}

pub open spec fn voice_message(e: VoiceErrorModel) -> Seq<char> {
    match e {
        VoiceErrorModel::UnknownTtsBackend { name } => "unknown TTS backend "@ + debug_quoted_spec(
            name,
        ) + " \u{2014} use \"piper\" or \"elevenlabs\""@,
        VoiceErrorModel::UnknownSttBackend { name } => "unknown STT backend "@ + debug_quoted_spec(
            name,
        ) + " \u{2014} use \"whisper\" or \"elevenlabs\""@,
        VoiceErrorModel::EmptyClip { id } => "clip "@ + id + " has no narration text"@,
        VoiceErrorModel::MissingVoiceId => "frontmatter needs voice_id: for ElevenLabs TTS"@,
        VoiceErrorModel::WhisperModelUnset => "set WHISPER_MODEL to a ggml whisper model (the nix install pins one; otherwise download one with whisper-cpp-download-ggml-model, or set VIDEOEDITOR_STT=elevenlabs)"@,
        VoiceErrorModel::WhisperModelMissing { path } => "WHISPER_MODEL points at "@ + path
            + " which does not exist"@,
    }
}

impl VoiceError {
    /// The error's message.
    pub fn message(&self) -> (m: String)
        ensures
            m@ == voice_message(self@),
    {
        match self {
            VoiceError::UnknownTtsBackend { name } => {
                let mut m = owned("unknown TTS backend ");
                push_str(&mut m, debug_quoted(name.as_str()).as_str());
                push_str(&mut m, " \u{2014} use \"piper\" or \"elevenlabs\"");
                m
            },
            VoiceError::UnknownSttBackend { name } => {
                let mut m = owned("unknown STT backend ");
                push_str(&mut m, debug_quoted(name.as_str()).as_str());
                push_str(&mut m, " \u{2014} use \"whisper\" or \"elevenlabs\"");
                m
            },
            VoiceError::EmptyClip { id } => {
                let mut m = owned("clip ");
                push_str(&mut m, id.as_str());
                push_str(&mut m, " has no narration text");
                m
            },
            VoiceError::MissingVoiceId => owned("frontmatter needs voice_id: for ElevenLabs TTS"),
            VoiceError::WhisperModelUnset => owned(
                "set WHISPER_MODEL to a ggml whisper model (the nix install pins one; otherwise download one with whisper-cpp-download-ggml-model, or set VIDEOEDITOR_STT=elevenlabs)",
            ),
            VoiceError::WhisperModelMissing { path } => {
                let mut m = owned("WHISPER_MODEL points at ");
                push_str(&mut m, path.as_str());
                push_str(&mut m, " which does not exist");
                m
            },
        }
    }
}

/// The TTS backend name in force: frontmatter `tts:`, else `VIDEOEDITOR_TTS`,
/// else `piper`.
pub open spec fn tts_name_spec(meta_tts: Option<Seq<char>>, env_tts: Option<Seq<char>>) -> Seq<char> {
    match meta_tts {
        Some(n) => n,
        None => match env_tts {
            Some(n) => n,
            None => "piper"@,
        },
    }
}

/// Resolve the TTS backend (`env_tts` is `VIDEOEDITOR_TTS`, when set and
/// valid Unicode).
pub fn tts_backend(meta: &Meta, env_tts: Option<&str>) -> (r: Result<TtsBackend, VoiceError>)
    ensures
        ({
            let name = tts_name_spec(
                opt_view(meta.tts),
                match env_tts {
                    Some(e) => Some(e@),
                    None => None,
                },
            );
            if name == "piper"@ {
                r == Ok::<TtsBackend, VoiceError>(TtsBackend::Piper)
            } else if name == "elevenlabs"@ {
                r == Ok::<TtsBackend, VoiceError>(TtsBackend::ElevenLabs)
            } else {
                r matches Err(e) && e@ == (VoiceErrorModel::UnknownTtsBackend { name })
            }
        }),
{
    let name: &str = match &meta.tts {
        Some(n) => n.as_str(),
        None => match env_tts {
            Some(e) => e,
            None => "piper",
        },
    };
    if text_eq(name, "piper") {
        Ok(TtsBackend::Piper)
    } else if text_eq(name, "elevenlabs") {
        Ok(TtsBackend::ElevenLabs)
    } else {
        Err(VoiceError::UnknownTtsBackend { name: owned(name) })
    }
}

/// The STT backend `VIDEOEDITOR_STT` asks for: unset (or not Unicode) and
/// `whisper` mean whisper, `elevenlabs` means Scribe.
pub open spec fn stt_backend_spec(env_stt: Option<Seq<char>>) -> Result<SttBackend, VoiceErrorModel> {
    match env_stt {
        None => Ok(SttBackend::Whisper),
        Some(n) => if n == "whisper"@ {
            Ok(SttBackend::Whisper)
        } else if n == "elevenlabs"@ {
            Ok(SttBackend::ElevenLabs)
        } else {
            Err(VoiceErrorModel::UnknownSttBackend { name: n })
        },
    }
}

pub open spec fn opt_str(o: Option<&str>) -> Option<Seq<char>> {
    match o {
        Some(s) => Some(s@),
        None => None,
    }
}

/// Resolve the STT backend from `VIDEOEDITOR_STT`.
pub fn stt_backend(env_stt: Option<&str>) -> (r: Result<SttBackend, VoiceError>)
    ensures
        match stt_backend_spec(opt_str(env_stt)) {
            Ok(b) => r == Ok::<SttBackend, VoiceError>(b),
            Err(e) => r matches Err(f) && f@ == e,
        },
{
    match env_stt {
        None => Ok(SttBackend::Whisper),
        Some(n) => if text_eq(n, "whisper") {
            Ok(SttBackend::Whisper)
        } else if text_eq(n, "elevenlabs") {
            Ok(SttBackend::ElevenLabs)
        } else {
            Err(VoiceError::UnknownSttBackend { name: owned(n) })
        },
    }
}

/// Human-readable name of the resolved STT backend (for progress lines).
pub fn stt_name(env_stt: Option<&str>) -> (s: &'static str)
    ensures
        s@ == match stt_backend_spec(opt_str(env_stt)) {
            Ok(SttBackend::Whisper) => "whisper"@,
            Ok(SttBackend::ElevenLabs) => "elevenlabs"@,
            Err(_) => "unknown"@,
        },
{
    match stt_backend(env_stt) {
        Ok(SttBackend::Whisper) => "whisper",
        Ok(SttBackend::ElevenLabs) => "elevenlabs",
        Err(_) => "unknown",
    }
}

/// Can transcription run right now? Whisper needs its model and binary,
/// Scribe an API key; an unknown backend never can.
pub fn stt_available(env_stt: Option<&str>, whisper_ready: bool, api_key_set: bool) -> (b: bool)
    ensures
        b == match stt_backend_spec(opt_str(env_stt)) {
            Ok(SttBackend::Whisper) => whisper_ready,
            Ok(SttBackend::ElevenLabs) => api_key_set,
            Err(_) => false,
        },
{
    match stt_backend(env_stt) {
        Ok(SttBackend::Whisper) => whisper_ready,
        Ok(SttBackend::ElevenLabs) => api_key_set,
        Err(_) => false,
    }
}

/// Should `tts` synthesize this clip? Only selected clips (no `--clip`, or
/// one naming its id or its name) that are missing, changed or forced. A
/// clip is changed when the text its audio was voiced from is on record
/// (`voiced`) and differs from its text now; audio with no such record (a
/// take recorded by hand) counts as current. A selected clip without text
/// is an error.
pub open spec fn synth_decision(
    only: Option<Seq<char>>,
    id: Seq<char>,
    name: Seq<char>,
    force: bool,
    present: bool,
    text: Seq<char>,
    voiced: Option<Seq<char>>,
) -> Result<bool, VoiceErrorModel> {
    let selected = match only {
        None => true,
        Some(c) => c == id || c == name,
    };
    let changed = present && (voiced matches Some(v) && v != text);
    if selected && (force || changed || !present) {
        if text.len() == 0 {
            Err(VoiceErrorModel::EmptyClip { id })
        } else {
            Ok(true)
        }
    } else {
        Ok(false)
    }
}

/// See [`synth_decision`].
pub fn should_synthesize(
    only: Option<&str>,
    id: &str,
    name: &str,
    force: bool,
    present: bool,
    text: &str,
    voiced: Option<&str>,
) -> (r: Result<bool, VoiceError>)
    ensures
        match synth_decision(opt_str(only), id@, name@, force, present, text@, opt_str(voiced)) {
            Ok(b) => r == Ok::<bool, VoiceError>(b),
            Err(e) => r matches Err(f) && f@ == e,
        },
{
    let selected = match only {
        None => true,
        Some(c) => text_eq(c, id) || text_eq(c, name),
    };
    let changed = present && match voiced {
        Some(v) => !text_eq(v, text),
        None => false,
    };
    if selected && (force || changed || !present) {
        if chars_of(text).len() == 0 {
            Err(VoiceError::EmptyClip { id: owned(id) })
        } else {
            Ok(true)
        }
    } else {
        Ok(false)
    }
}

/// `tts` re-voices exactly the missing and the changed clips: with no
/// `--clip` filter and no `--force`, a clip with text is synthesized when
/// its audio is missing or was voiced from other text, and kept otherwise.
pub proof fn lemma_tts_revoices_missing_and_changed(
    id: Seq<char>,
    name: Seq<char>,
    present: bool,
    text: Seq<char>,
    voiced: Option<Seq<char>>,
)
    requires
        text.len() > 0,
    ensures
        synth_decision(None, id, name, false, present, text, voiced) == Ok::<bool, VoiceErrorModel>(
            !present || (voiced matches Some(v) && v != text),
        ),
{
}

/// A `--clip` filter only narrows which clips are looked at: a clip that the
/// filter names (by id or by name), or every clip when there is no filter, is
/// synthesized exactly when its audio is missing or was voiced from other
/// text, and always with `--force`; a clip the filter does not name is never
/// synthesized.
pub proof fn lemma_clip_filter_only_selects(
    only: Option<Seq<char>>,
    id: Seq<char>,
    name: Seq<char>,
    force: bool,
    present: bool,
    text: Seq<char>,
    voiced: Option<Seq<char>>,
)
    requires
        text.len() > 0,
    ensures
        (only is None || only == Some(id) || only == Some(name)) ==> synth_decision(
            only,
            id,
            name,
            force,
            present,
            text,
            voiced,
        ) == Ok::<bool, VoiceErrorModel>(
            force || !present || (voiced matches Some(v) && v != text),
        ),
        (only matches Some(c) && c != id && c != name) ==> synth_decision(
            only,
            id,
            name,
            force,
            present,
            text,
            voiced,
        ) == Ok::<bool, VoiceErrorModel>(false),
{
}

/// A clip that would be synthesized but has no text is an error naming the
/// clip's id, never a silent skip.
pub proof fn lemma_empty_clip_is_reported(
    only: Option<Seq<char>>,
    id: Seq<char>,
    name: Seq<char>,
    force: bool,
    present: bool,
    voiced: Option<Seq<char>>,
)
    requires
        only is None || only == Some(id) || only == Some(name),
        force || !present || (voiced matches Some(v) && v != Seq::<char>::empty()),
    ensures
        synth_decision(only, id, name, force, present, seq![], voiced) == Err::<
            bool,
            VoiceErrorModel,
        >(VoiceErrorModel::EmptyClip { id }),
{
}

/// The ElevenLabs text-to-speech URL for the script's voice (mp3, 44.1 kHz,
/// 128 kbps); the frontmatter must name a voice.
pub fn synth_url(voice_id: Option<&str>) -> (r: Result<String, VoiceError>)
    ensures
        match voice_id {
            None => r matches Err(e) && e@ is MissingVoiceId,
            Some(v) => r matches Ok(u) && u@ == "https://api.elevenlabs.io/v1/text-to-speech/"@
                + v@ + "?output_format=mp3_44100_128"@,
        },
{
    match voice_id {
        None => Err(VoiceError::MissingVoiceId),
        Some(v) => {
            let mut u = owned("https://api.elevenlabs.io/v1/text-to-speech/");
            push_str(&mut u, v);
            push_str(&mut u, "?output_format=mp3_44100_128");
            Ok(u)
        },
    }
}

pub open spec fn scribe_boundary() -> Seq<char> {
    "----videoeditorboundary7d1c9a2f"@
}

/// One text field of a multipart form.
pub open spec fn form_field(name: Seq<char>, value: Seq<char>) -> Seq<char> {
    "--"@ + scribe_boundary() + "\r\nContent-Disposition: form-data; name=\""@ + name + "\"\r\n\r\n"@
        + value + "\r\n"@
}

/// Everything before the audio bytes of a Scribe upload: the model and
/// granularity fields, then the header of the file part.
pub open spec fn scribe_head() -> Seq<char> {
    form_field("model_id"@, "scribe_v1"@) + form_field("timestamps_granularity"@, "word"@) + "--"@
        + scribe_boundary()
        + "\r\nContent-Disposition: form-data; name=\"file\"; filename=\"audio.mp3\"\r\nContent-Type: audio/mpeg\r\n\r\n"@
}

/// Everything after the audio bytes: the closing boundary.
pub open spec fn scribe_tail() -> Seq<char> {
    "\r\n--"@ + scribe_boundary() + "--\r\n"@
}

fn push_field(out: &mut String, name: &str, value: &str)
    ensures
        final(out)@ == old(out)@ + form_field(name@, value@),
{
    push_str(out, "--");
    push_str(out, "----videoeditorboundary7d1c9a2f");
    push_str(out, "\r\nContent-Disposition: form-data; name=\"");
    push_str(out, name);
    push_str(out, "\"\r\n\r\n");
    push_str(out, value);
    push_str(out, "\r\n");
}

fn push_bytes(out: &mut Vec<u8>, bytes: &[u8])
    ensures
        final(out)@ == old(out)@ + bytes@,
{
    let ghost start = out@;
    let mut i: usize = 0;
    while i < bytes.len()
        invariant
            i <= bytes@.len(),
            out@ == start + bytes@.take(i as int),
        decreases bytes@.len() - i,
    {
        out.push(bytes[i]);
        i = i + 1;
        assert(out@ =~= start + bytes@.take(i as int));
    }
    assert(bytes@.take(i as int) =~= bytes@);
}

/// The multipart body of a Scribe transcription request for `audio`.
pub fn scribe_body(audio: &[u8]) -> (body: Vec<u8>)
    ensures
        body@ == vstd::utf8::encode_utf8(scribe_head()) + audio@ + vstd::utf8::encode_utf8(
            scribe_tail(),
        ),
{
    let mut head = String::new();
    push_field(&mut head, "model_id", "scribe_v1");
    push_field(&mut head, "timestamps_granularity", "word");
    push_str(&mut head, "--");
    push_str(&mut head, "----videoeditorboundary7d1c9a2f");
    push_str(
        &mut head,
        "\r\nContent-Disposition: form-data; name=\"file\"; filename=\"audio.mp3\"\r\nContent-Type: audio/mpeg\r\n\r\n",
    );
    let mut tail = owned("\r\n--");
    push_str(&mut tail, "----videoeditorboundary7d1c9a2f");
    push_str(&mut tail, "--\r\n");
    let mut body: Vec<u8> = Vec::new();
    push_bytes(&mut body, head.as_str().as_bytes());
    push_bytes(&mut body, audio);
    push_bytes(&mut body, tail.as_str().as_bytes());
    body
}

/// The `content-type` of a Scribe upload.
pub fn scribe_content_type() -> (s: String)
    ensures
        s@ == "multipart/form-data; boundary="@ + scribe_boundary(),
{
    let mut s = owned("multipart/form-data; boundary=");
    push_str(&mut s, "----videoeditorboundary7d1c9a2f");
    s
}

} // verus!
