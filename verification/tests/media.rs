use videoeditor::media::assemble::{
    keeps_native_audio, manifest_entry, mix_args, AssembleError, AudioTrack,
};
use videoeditor::media::{
    caption_lines, concat_list, cover_filter, drawtext_escape, extract_audio_args,
    scene_cut_times,
};
use videoeditor::script::parse_scenes;

#[test]
fn captions_are_escaped_for_drawtext() {
    assert_eq!(drawtext_escape(r"PSA: it's C:\dir"), r"PSA\: it\'s C\:\\dir");
    assert_eq!(drawtext_escape("plain"), "plain");
}

#[test]
fn captions_split_on_bars() {
    assert_eq!(caption_lines("PSA for JS devs:|use ===|"), vec!["PSA for JS devs:", "use ===", ""]);
    assert_eq!(caption_lines(""), vec![""]);
    assert_eq!(caption_lines("one"), vec!["one"]);
}

#[test]
fn concat_lists_quote_each_scene() {
    assert_eq!(
        concat_list(&vec!["/ep/build/scenes/00_a.mp4".into(), "/ep/build/scenes/01_b.mp4".into()]),
        "file '/ep/build/scenes/00_a.mp4'\nfile '/ep/build/scenes/01_b.mp4'\n"
    );
    assert_eq!(concat_list(&vec![]), "");
}

#[test]
fn audio_extraction_arguments() {
    assert_eq!(
        extract_audio_args("in.mp4", "out.mp3"),
        vec!["-i", "in.mp4", "-vn", "-acodec", "libmp3lame", "-q:a", "2", "out.mp3"]
    );
}

#[test]
fn scene_cuts_are_read_from_showinfo_lines() {
    let log = "ffmpeg version 7\n\
        [Parsed_showinfo_1 @ 0x1] n:   0 pts:  12800 pts_time:1.0 duration: 512\n\
        [Parsed_showinfo_1 @ 0x1] n:   1 pts:  40960 pts_time:3.2 pos: 9\r\n\
        pts_time:9.9 without the filter name\n\
        [Parsed_showinfo_1 @ 0x1] config in time_base: 1/12800\n";
    assert_eq!(scene_cut_times(log), vec!["1.0", "3.2"]);
    assert_eq!(scene_cut_times(""), Vec::<String>::new());
}

#[test]
fn clips_are_scaled_to_cover_the_frame() {
    assert_eq!(
        cover_filter(1080, 1920, 30),
        "scale=1080:1920:force_original_aspect_ratio=increase,crop=1080:1920,fps=30,setsar=1"
    );
}

#[test]
fn narration_is_looked_up_by_scene_and_clip() {
    let manifest = vec![
        ("intro".to_string(), "hook".to_string()),
        ("intro".to_string(), "body".to_string()),
        ("intro".to_string(), "body".to_string()),
    ];
    assert_eq!(manifest_entry(&manifest, "intro", "body").unwrap(), 1);
    let e = manifest_entry(&manifest, "outro", "hook").unwrap_err();
    assert_eq!(e, AssembleError::NoClip { scene: "outro".into(), clip: "hook".into() });
    assert_eq!(e.message(), "no TTS clip for outro/hook \u{2014} run `videoeditor tts`");
    assert_eq!(
        AssembleError::MissingScene { path: "build/scenes/00_a.mp4".into() }.message(),
        "missing build/scenes/00_a.mp4 \u{2014} run `videoeditor render` first"
    );
}

#[test]
fn without_audio_the_video_is_copied_silent() {
    assert_eq!(
        mix_args("v.mp4", &vec![], "10.7", "final.mp4"),
        vec!["-i", "v.mp4", "-c", "copy", "-an", "final.mp4"]
    );
}

#[test]
fn the_mix_graph_lays_every_track_under_the_video() {
    let tracks = vec![
        ("n1.mp3".to_string(), AudioTrack::Narration { tempo: None, delay_ms: 150 }),
        (
            "n2.mp3".to_string(),
            AudioTrack::Narration { tempo: Some("1.05".into()), delay_ms: 2300 },
        ),
        (
            "clip.mp4".to_string(),
            AudioTrack::ClipAudio { from: "0".into(), to: "2.2".into(), delay_ms: 8500 },
        ),
        (
            "bed.mp3".to_string(),
            AudioTrack::Music { length: "10.7".into(), gain_db: "-20".into() },
        ),
    ];
    let norm = "aresample=44100,aformat=sample_fmts=fltp:channel_layouts=stereo";
    let filter = format!(
        "[1:a]{norm},adelay=150:all=1[n1];\
         [2:a]atempo=1.05,{norm},adelay=2300:all=1[n2];\
         [3:a]atrim=0:2.2,asetpts=PTS-STARTPTS,{norm},adelay=8500:all=1[c3];\
         [4:a]{norm},aloop=loop=-1:size=2000000,atrim=0:10.7,volume=-20dB[m4];\
         [n1][n2][c3][m4]amix=inputs=4:duration=longest:normalize=0,atrim=0:10.7,apad=whole_dur=10.7[mix]"
    );
    let args = mix_args("v.mp4", &tracks, "10.7", "final.mp4");
    assert_eq!(
        args,
        vec![
            "-i", "v.mp4", "-i", "n1.mp3", "-i", "n2.mp3", "-i", "clip.mp4", "-i", "bed.mp3",
            "-filter_complex", &filter, "-map", "0:v", "-map", "[mix]", "-c:v", "copy", "-c:a",
            "aac", "-b:a", "192k", "final.mp4",
        ]
    );
}

#[test]
fn negative_delays_keep_their_sign() {
    let tracks =
        vec![("n.mp3".to_string(), AudioTrack::Narration { tempo: None, delay_ms: -40 })];
    let args = mix_args("v.mp4", &tracks, "1", "o.mp4");
    assert!(args[5].contains("adelay=-40:all=1[n1]"));
}

#[test]
fn only_video_clips_with_audio_contribute_sound() {
    let scenes = parse_scenes(
        "[SCENE: a | template=video-clip duration=1]\n[DATA: src=a.mp4]\n\
         [SCENE: b | template=video-clip duration=1]\n[DATA: src=b.mp4 audio=false]\n\
         [SCENE: c | template=title-card duration=1]\n",
    )
    .unwrap();
    assert!(keeps_native_audio(&scenes[0]));
    assert!(!keeps_native_audio(&scenes[1]));
    assert!(!keeps_native_audio(&scenes[2]));
}

#[test]
fn caption_lines_rejoin_to_the_caption() {
    for caption in ["PSA for JS devs:|use ===", "", "|", "a||b|", "no bars"] {
        assert_eq!(caption_lines(caption).join("|"), caption);
    }
}

fn drawtext_read(t: &str) -> String {
    let mut out = String::new();
    let mut it = t.chars();
    while let Some(c) = it.next() {
        if c == '\\' {
            match it.next() {
                Some(n) => out.push(n),
                None => out.push(c),
            }
        } else {
            out.push(c);
        }
    }
    out
}

#[test]
fn escaped_captions_read_back_as_written() {
    for line in [r"PSA: it's C:\dir", "plain", "", "\\", "'':::\\\\"] {
        assert_eq!(drawtext_read(&drawtext_escape(line)), line);
    }
}
