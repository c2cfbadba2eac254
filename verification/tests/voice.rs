use videoeditor::script::parse_meta;
use videoeditor::voice::whisper::{available, model, normalize};
use videoeditor::voice::{
    scribe_body, scribe_content_type, should_synthesize, stt_available, stt_backend, stt_name,
    synth_url, tts_backend, SttBackend, TtsBackend, VoiceError,
};

#[test]
fn normalizes_whisper_json_to_transcript_shape() {
    // whisper.cpp segments: (offsets.from, offsets.to, text)
    let segments = [(0.0, 60.0, ""), (60.0, 220.0, " The"), (220.0, 560.0, " quick")];
    let texts: Vec<String> = segments.iter().map(|s| s.2.to_string()).collect();
    let t = normalize(&texts);
    assert_eq!(t.text, "The quick");
    assert_eq!(t.words.len(), 2); // empty segment dropped
    assert_eq!(t.words[0].1, "The");
    let (seg0, _) = &t.words[0];
    assert_eq!(segments[*seg0].0 / 1000.0, 0.06);
    let (seg1, _) = &t.words[1];
    assert_eq!(segments[*seg1].1 / 1000.0, 0.56);
}

#[test]
fn words_keep_their_segment_and_are_trimmed() {
    let t = normalize(&vec!["  Hello ".into(), "   ".into(), "world".into()]);
    assert_eq!(t.text, "Hello    world");
    assert_eq!(t.words, vec![(0, "Hello".to_string()), (2, "world".to_string())]);
}

#[test]
fn tts_backend_prefers_the_frontmatter() {
    let plain = parse_meta("title: T").unwrap();
    let eleven = parse_meta("tts: elevenlabs").unwrap();
    let odd = parse_meta("tts: espeak").unwrap();
    assert_eq!(tts_backend(&plain, None).unwrap(), TtsBackend::Piper);
    assert_eq!(tts_backend(&plain, Some("elevenlabs")).unwrap(), TtsBackend::ElevenLabs);
    assert_eq!(tts_backend(&eleven, Some("piper")).unwrap(), TtsBackend::ElevenLabs);
    assert_eq!(
        tts_backend(&odd, None).unwrap_err(),
        VoiceError::UnknownTtsBackend { name: "espeak".into() }
    );
}

#[test]
fn stt_backend_defaults_to_whisper() {
    assert_eq!(stt_backend(None).unwrap(), SttBackend::Whisper);
    assert_eq!(stt_backend(Some("whisper")).unwrap(), SttBackend::Whisper);
    assert_eq!(stt_backend(Some("elevenlabs")).unwrap(), SttBackend::ElevenLabs);
    assert_eq!(
        stt_backend(Some("vosk")).unwrap_err(),
        VoiceError::UnknownSttBackend { name: "vosk".into() }
    );
    assert_eq!(stt_name(None), "whisper");
    assert_eq!(stt_name(Some("elevenlabs")), "elevenlabs");
    assert_eq!(stt_name(Some("vosk")), "unknown");
}

#[test]
fn stt_availability_follows_the_backend() {
    assert!(stt_available(None, true, false));
    assert!(!stt_available(None, false, true));
    assert!(stt_available(Some("elevenlabs"), false, true));
    assert!(!stt_available(Some("elevenlabs"), true, false));
    assert!(!stt_available(Some("vosk"), true, true));
}

#[test]
fn whisper_needs_a_model_and_a_binary() {
    assert_eq!(model(None, false).unwrap_err(), VoiceError::WhisperModelUnset);
    assert_eq!(
        model(Some("/m/ggml.bin"), false).unwrap_err(),
        VoiceError::WhisperModelMissing { path: "/m/ggml.bin".into() }
    );
    assert_eq!(model(Some("/m/ggml.bin"), true).unwrap(), "/m/ggml.bin");
    assert!(available(Some("/m/ggml.bin"), true, true));
    assert!(!available(Some("/m/ggml.bin"), true, false));
    assert!(!available(None, true, true));
}

#[test]
fn synthesis_skips_existing_clips_unless_forced() {
    assert_eq!(should_synthesize(None, "a__b", "b", false, false, "Hi.", None).unwrap(), true);
    assert_eq!(should_synthesize(None, "a__b", "b", false, true, "Hi.", None).unwrap(), false);
    assert_eq!(should_synthesize(None, "a__b", "b", true, true, "Hi.", None).unwrap(), true);
    assert_eq!(should_synthesize(Some("b"), "a__b", "b", true, true, "Hi.", None).unwrap(), true);
    assert_eq!(should_synthesize(Some("a__b"), "a__b", "b", true, true, "Hi.", None).unwrap(), true);
    assert_eq!(should_synthesize(Some("c"), "a__b", "b", true, false, "Hi.", None).unwrap(), false);
    assert_eq!(
        should_synthesize(None, "a__b", "b", false, false, "", None).unwrap_err(),
        VoiceError::EmptyClip { id: "a__b".into() }
    );
    assert_eq!(should_synthesize(Some("c"), "a__b", "b", false, false, "", None).unwrap(), false);
}

#[test]
fn changed_clips_are_revoiced() {
    // voiced from other text: re-voice
    assert_eq!(
        should_synthesize(None, "a__b", "b", false, true, "New line.", Some("Old line.")).unwrap(),
        true
    );
    // voiced from this very text: keep
    assert_eq!(
        should_synthesize(None, "a__b", "b", false, true, "Same.", Some("Same.")).unwrap(),
        false
    );
    // no record of what the audio says (a hand-recorded take): keep
    assert_eq!(should_synthesize(None, "a__b", "b", false, true, "Same.", None).unwrap(), false);
    // a filter still limits re-voicing to the named clip
    assert_eq!(
        should_synthesize(Some("c"), "a__b", "b", false, true, "New.", Some("Old.")).unwrap(),
        false
    );
}

#[test]
fn elevenlabs_needs_a_voice() {
    assert_eq!(synth_url(None).unwrap_err(), VoiceError::MissingVoiceId);
    assert_eq!(
        synth_url(Some("pNInz6obpgDQGcFmaJgB")).unwrap(),
        "https://api.elevenlabs.io/v1/text-to-speech/pNInz6obpgDQGcFmaJgB?output_format=mp3_44100_128"
    );
}

#[test]
fn scribe_upload_is_a_multipart_form() {
    let body = scribe_body(b"MP3");
    let text = String::from_utf8_lossy(&body).to_string();
    let b = "----videoeditorboundary7d1c9a2f";
    assert_eq!(
        text,
        format!(
            "--{b}\r\nContent-Disposition: form-data; name=\"model_id\"\r\n\r\nscribe_v1\r\n\
             --{b}\r\nContent-Disposition: form-data; name=\"timestamps_granularity\"\r\n\r\nword\r\n\
             --{b}\r\nContent-Disposition: form-data; name=\"file\"; filename=\"audio.mp3\"\r\nContent-Type: audio/mpeg\r\n\r\n\
             MP3\r\n--{b}--\r\n"
        )
    );
    assert_eq!(scribe_content_type(), format!("multipart/form-data; boundary={b}"));
}

#[test]
fn voice_errors_explain_themselves() {
    assert_eq!(
        VoiceError::UnknownTtsBackend { name: "espeak".into() }.message(),
        "unknown TTS backend \"espeak\" \u{2014} use \"piper\" or \"elevenlabs\""
    );
    assert_eq!(
        VoiceError::UnknownSttBackend { name: "vosk".into() }.message(),
        "unknown STT backend \"vosk\" \u{2014} use \"whisper\" or \"elevenlabs\""
    );
    assert_eq!(VoiceError::EmptyClip { id: "a__b".into() }.message(), "clip a__b has no narration text");
    assert_eq!(VoiceError::MissingVoiceId.message(), "frontmatter needs voice_id: for ElevenLabs TTS");
    assert!(VoiceError::WhisperModelUnset.message().starts_with("set WHISPER_MODEL"));
    assert_eq!(
        VoiceError::WhisperModelMissing { path: "/m".into() }.message(),
        "WHISPER_MODEL points at /m which does not exist"
    );
}
