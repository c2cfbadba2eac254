use videoeditor::script::{
    parse_kv, parse_marker, parse_meta, parse_scenes, parse_script, scene_video_path,
    split_frontmatter, to_value, DataValue, Scene, ScriptError,
};

const SCRIPT: &str = r#"---
title: Demo
fps: 30
voice_id: pNInz6obpgDQGcFmaJgB
music: assets/music/bed.mp3
---

# heading is ignored
<!-- authoring note, never narrated -->

[SCENE: title | template=title-card duration=2.1]
[DATA: title="X vs Y" title_at=1200]
[CHUNK: hook | at=0.15]
X versus Y for TOPIC.

[SCENE: good | template=code-meme duration=6.4]
[DATA: code=assets/code/good.rs bench="μ: 150µS|σ: 50µS" flat=true]
[CHUNK: explain | at=0.2 tempo=1.05]
First line.
Second line joins the same chunk.

[SCENE: outro | template=video-clip duration=2.2]
[DATA: src=assets/clips/punchline.mp4 seek=0 audio=false]
"#;

fn parse(script: &str) -> Vec<Scene> {
    let (_, body) = split_frontmatter(script).unwrap();
    parse_scenes(&body).unwrap()
}

fn number(s: &str) -> f64 {
    s.parse::<f64>().unwrap()
}

#[test]
fn parses_frontmatter_meta() {
    let (front, _) = split_frontmatter(SCRIPT).unwrap();
    let meta = parse_meta(&front).unwrap();
    assert_eq!(meta.title, "Demo");
    assert_eq!(meta.fps, 30);
    assert_eq!(meta.width, 1080);
    assert_eq!(meta.voice_id.as_deref(), Some("pNInz6obpgDQGcFmaJgB"));
    assert_eq!(meta.music.as_deref(), Some("assets/music/bed.mp3"));
}

#[test]
fn parses_scenes_chunks_and_data() {
    let scenes = parse(SCRIPT);
    assert_eq!(scenes.len(), 3);

    let title = &scenes[0];
    assert_eq!(title.template, "title-card");
    assert_eq!(title.data_str("title"), Some("X vs Y"));
    assert_eq!(title.data_number("title_at").map(number), Some(1200.0));
    assert_eq!(title.chunks[0].text, "X versus Y for TOPIC.");
    assert_eq!(title.chunks[0].at.as_deref().map(number), Some(0.15));

    let good = &scenes[1];
    // quoted value keeps its inner `|`
    assert_eq!(good.data_str("bench"), Some("μ: 150µS|σ: 50µS"));
    assert!(matches!(good.data.get("flat"), Some(DataValue::Bool(true))));
    assert_eq!(number(&good.chunks[0].tempo), 1.05);
    assert_eq!(good.chunks[0].text, "First line. Second line joins the same chunk.");

    let outro = &scenes[2];
    assert!(outro.is_video_clip());
    assert!(matches!(outro.data.get("audio"), Some(DataValue::Bool(false))));
    assert_eq!(outro.data_number("seek").map(number), Some(0.0));
}

#[test]
fn computes_scene_starts() {
    let scenes = parse(SCRIPT);
    let mut starts = Vec::new();
    let mut cursor = 0.0;
    for s in &scenes {
        starts.push(cursor);
        cursor += number(&s.duration);
    }
    assert_eq!(starts[1], 2.1);
    assert!((cursor - 10.7).abs() < 1e-9);
}

#[test]
fn rejects_script_without_scenes() {
    assert!(parse_scenes("just prose, no markers").is_err());
}

#[test]
fn rejects_missing_frontmatter() {
    assert!(split_frontmatter("no frontmatter here").is_err());
}

#[test]
fn missing_frontmatter_and_unterminated_frontmatter_are_told_apart() {
    assert_eq!(split_frontmatter("no frontmatter here").unwrap_err(), ScriptError::MissingFrontmatter);
    assert_eq!(
        split_frontmatter("---\ntitle: x\n").unwrap_err(),
        ScriptError::UnterminatedFrontmatter
    );
}

#[test]
fn frontmatter_and_body_are_split_at_the_closing_fence() {
    let (front, body) = split_frontmatter("---\ntitle: T\n---\n[SCENE: a | template=t duration=1]\n").unwrap();
    assert_eq!(front, "title: T\n");
    assert!(body.contains("[SCENE: a"));
    assert!(!body.contains("title"));
}

#[test]
fn meta_defaults_apply_where_keys_are_absent() {
    let meta = parse_meta("title: Only").unwrap();
    assert_eq!(meta.title, "Only");
    assert_eq!(meta.fps, 30);
    assert_eq!(meta.width, 1080);
    assert_eq!(meta.height, 1920);
    assert_eq!(meta.voice_id, None);
    assert_eq!(meta.music, None);
}

#[test]
fn non_numeric_meta_is_rejected() {
    assert_eq!(
        parse_meta("fps: fast").unwrap_err(),
        ScriptError::InvalidMeta { key: "fps".to_string() }
    );
}

#[test]
fn clip_markers_accept_both_spellings() {
    let scenes =
        parse_scenes("[SCENE: a | template=t duration=3]\n[CLIP: one]\nHello.\n[CHUNK: two]\nWorld.\n")
            .unwrap();
    assert_eq!(scenes[0].chunks.len(), 2);
    assert_eq!(scenes[0].chunks[0].name, "one");
    assert_eq!(scenes[0].chunks[0].text, "Hello.");
    assert_eq!(scenes[0].chunks[1].name, "two");
    assert_eq!(scenes[0].chunks[1].text, "World.");
    assert_eq!(scenes[0].chunks[1].tempo, "1.0");
    assert_eq!(scenes[0].chunks[1].at, None);
}

#[test]
fn scene_errors_name_what_is_missing() {
    assert_eq!(
        parse_scenes("[SCENE: a | duration=3]").unwrap_err(),
        ScriptError::MissingTemplate { scene: "a".to_string() }
    );
    assert_eq!(
        parse_scenes("[SCENE: a | template=t]").unwrap_err(),
        ScriptError::MissingDuration { scene: "a".to_string() }
    );
    assert_eq!(
        parse_scenes("[SCENE: a | template=t duration=soon]").unwrap_err(),
        ScriptError::MissingDuration { scene: "a".to_string() }
    );
    assert_eq!(parse_scenes("[DATA: x=1]").unwrap_err(), ScriptError::DataBeforeScene);
    assert_eq!(parse_scenes("[CLIP: c]").unwrap_err(), ScriptError::ClipBeforeScene);
    assert_eq!(parse_scenes("").unwrap_err(), ScriptError::NoScenes);
}

#[test]
fn comments_and_unknown_markers_are_not_narrated() {
    let scenes = parse_scenes(
        "[SCENE: a | template=t duration=1]\n[CLIP: c]\n<!-- note\nstill note -->\n[NOTE: x]\nSpoken.\n",
    )
    .unwrap();
    assert_eq!(scenes[0].chunks[0].text, "Spoken.");
}

#[test]
fn every_parsed_timing_parses_as_a_float() {
    let scenes = parse(SCRIPT);
    for s in &scenes {
        assert!(s.duration.parse::<f64>().is_ok());
        for c in &s.chunks {
            assert!(c.tempo.parse::<f64>().is_ok());
            if let Some(at) = &c.at {
                assert!(at.parse::<f64>().is_ok());
            }
        }
    }
}

#[test]
fn whole_script_parses() {
    let script = parse_script(SCRIPT).unwrap();
    assert_eq!(script.meta.title, "Demo");
    assert_eq!(script.scenes.len(), 3);
}

#[test]
fn values_are_typed() {
    assert!(matches!(to_value("1200"), DataValue::Number(n) if n == "1200"));
    assert!(matches!(to_value("-0.5e3"), DataValue::Number(n) if n == "-0.5e3"));
    assert!(matches!(to_value("true"), DataValue::Bool(true)));
    assert!(matches!(to_value("false"), DataValue::Bool(false)));
    assert!(matches!(to_value("inf"), DataValue::Text(t) if t == "inf"));
    assert!(matches!(to_value("1.2.3"), DataValue::Text(t) if t == "1.2.3"));
}

#[test]
fn key_value_pairs_keep_quoted_spaces() {
    let kv = parse_kv(r#"a=1 b="two words" c=x"#);
    assert_eq!(
        kv,
        vec![
            ("a".to_string(), "1".to_string()),
            ("b".to_string(), "two words".to_string()),
            ("c".to_string(), "x".to_string()),
        ]
    );
}

#[test]
fn markers_split_name_and_attributes() {
    let (name, attrs) = parse_marker("[SCENE: intro | template=t duration=2]", "SCENE").unwrap();
    assert_eq!(name, "intro");
    assert_eq!(attrs.len(), 2);
    assert!(parse_marker("[DATA: x=1]", "SCENE").is_none());
}

#[test]
fn scene_videos_are_numbered_two_digits() {
    assert_eq!(scene_video_path(3, "intro"), "build/scenes/03_intro.mp4");
    assert_eq!(scene_video_path(12, "outro"), "build/scenes/12_outro.mp4");
}

#[test]
fn script_errors_explain_themselves() {
    assert_eq!(ScriptError::MissingFrontmatter.message(), "script.md must start with `---` frontmatter");
    assert_eq!(ScriptError::UnterminatedFrontmatter.message(), "unterminated frontmatter");
    assert_eq!(ScriptError::InvalidMeta { key: "fps".into() }.message(), "fps");
    assert_eq!(ScriptError::MissingAttr { key: "src".into() }.message(), "missing attr src=");
    assert_eq!(ScriptError::NotANumber { key: "at".into() }.message(), "attr at= not a number");
    assert_eq!(
        ScriptError::MissingTemplate { scene: "a".into() }.message(),
        "scene `a` missing template="
    );
    assert_eq!(
        ScriptError::MissingDuration { scene: "a".into() }.message(),
        "scene `a` missing duration="
    );
    assert_eq!(ScriptError::DataBeforeScene.message(), "[DATA:] before any [SCENE:]");
    assert_eq!(ScriptError::ClipBeforeScene.message(), "[CHUNK:] before any [SCENE:]");
    assert_eq!(ScriptError::NoScenes.message(), "script.md contains no [SCENE:] markers");
}

#[test]
fn frontmatter_notes_are_annotations() {
    let meta = parse_meta(
        "voice_id: pNInz6obpgDQGcFmaJgB   # Adam preset\nmusic: assets/music/bed.mp3   # optional\n",
    )
    .unwrap();
    assert_eq!(meta.voice_id.as_deref(), Some("pNInz6obpgDQGcFmaJgB"));
    assert_eq!(meta.music.as_deref(), Some("assets/music/bed.mp3"));
}

#[test]
fn pack_list_note_is_dropped() {
    let meta =
        parse_meta("packs: ../creator-a, ../shared-lower-thirds   # comma-separated, episode-relative")
            .unwrap();
    assert_eq!(meta.packs.as_deref(), Some("../creator-a, ../shared-lower-thirds"));
}

#[test]
fn numeric_keys_accept_a_note() {
    let meta = parse_meta("fps: 24 # cinema\nwidth: 1920\t# landscape").unwrap();
    assert_eq!(meta.fps, 24);
    assert_eq!(meta.width, 1920);
}

#[test]
fn hash_inside_quotes_or_words_stays() {
    let meta = parse_meta("title: \"A # B\" # note\nvoice_id: abc#1\nmusic:#x").unwrap();
    assert_eq!(meta.title, "\"A # B\"");
    assert_eq!(meta.voice_id.as_deref(), Some("abc#1"));
    assert_eq!(meta.music.as_deref(), Some("#x"));
}

#[test]
fn quoted_pairs_read_back_unchanged() {
    let pairs = vec![
        ("title".to_string(), "X vs Y".to_string()),
        ("bench".to_string(), "μ: 150µS|σ: 50µS".to_string()),
        ("empty".to_string(), String::new()),
        ("at".to_string(), "5.8".to_string()),
    ];
    let joined = pairs
        .iter()
        .map(|(k, v)| format!("{k}=\"{v}\""))
        .collect::<Vec<_>>()
        .join(" ");
    assert_eq!(parse_kv(&joined), pairs);
}

#[test]
fn literals_that_overflow_f64_stay_text() {
    assert!(matches!(to_value("1e400"), DataValue::Text(t) if t == "1e400"));
    assert!(matches!(to_value("-1e400"), DataValue::Text(t) if t == "-1e400"));
    assert!(matches!(to_value("1.7976931348623157e308"), DataValue::Number(n) if n == "1.7976931348623157e308"));
    assert!(matches!(to_value("1.7976931348623158e308"), DataValue::Number(n) if n == "1.7976931348623158e308"));
    assert!(matches!(to_value("1.7976931348623159e308"), DataValue::Text(t) if t == "1.7976931348623159e308"));
    assert!(matches!(to_value("179769313486231580793728971405303415079934132710037826936173778980444968292764750946649017977587207096330286416692887910946555547851940402630657488671505820681908902000708383676273854845817711531764475730270069855571366959622842914819860834936475292719074168444365510704342711559699508093042880177904174497791"), DataValue::Number(n) if n == "179769313486231580793728971405303415079934132710037826936173778980444968292764750946649017977587207096330286416692887910946555547851940402630657488671505820681908902000708383676273854845817711531764475730270069855571366959622842914819860834936475292719074168444365510704342711559699508093042880177904174497791"));
    assert!(matches!(to_value("179769313486231580793728971405303415079934132710037826936173778980444968292764750946649017977587207096330286416692887910946555547851940402630657488671505820681908902000708383676273854845817711531764475730270069855571366959622842914819860834936475292719074168444365510704342711559699508093042880177904174497792"), DataValue::Text(t) if t == "179769313486231580793728971405303415079934132710037826936173778980444968292764750946649017977587207096330286416692887910946555547851940402630657488671505820681908902000708383676273854845817711531764475730270069855571366959622842914819860834936475292719074168444365510704342711559699508093042880177904174497792"));
    assert!(matches!(to_value("-179769313486231580793728971405303415079934132710037826936173778980444968292764750946649017977587207096330286416692887910946555547851940402630657488671505820681908902000708383676273854845817711531764475730270069855571366959622842914819860834936475292719074168444365510704342711559699508093042880177904174497792"), DataValue::Text(t) if t == "-179769313486231580793728971405303415079934132710037826936173778980444968292764750946649017977587207096330286416692887910946555547851940402630657488671505820681908902000708383676273854845817711531764475730270069855571366959622842914819860834936475292719074168444365510704342711559699508093042880177904174497792"));
    assert!(matches!(to_value("0e999999999999999999999999"), DataValue::Number(n) if n == "0e999999999999999999999999"));
    assert!(matches!(to_value("1e-400"), DataValue::Number(n) if n == "1e-400"));
    assert!(matches!(to_value("0.0001e309"), DataValue::Number(n) if n == "0.0001e309"));
    assert!(matches!(to_value("0.0001e313"), DataValue::Text(t) if t == "0.0001e313"));
    assert!(matches!(to_value("000.000179769313486231580793728971405303415079934132710037826936173778980444968292764750946649017977587207096330286416692887910946555547851940402630657488671505820681908902000708383676273854845817711531764475730270069855571366959622842914819860834936475292719074168444365510704342711559699508093042880177904174497792e312"), DataValue::Text(t) if t == "000.000179769313486231580793728971405303415079934132710037826936173778980444968292764750946649017977587207096330286416692887910946555547851940402630657488671505820681908902000708383676273854845817711531764475730270069855571366959622842914819860834936475292719074168444365510704342711559699508093042880177904174497792e312"));
    assert!(matches!(to_value("000.000179769313486231580793728971405303415079934132710037826936173778980444968292764750946649017977587207096330286416692887910946555547851940402630657488671505820681908902000708383676273854845817711531764475730270069855571366959622842914819860834936475292719074168444365510704342711559699508093042880177904174497791e312"), DataValue::Number(n) if n == "000.000179769313486231580793728971405303415079934132710037826936173778980444968292764750946649017977587207096330286416692887910946555547851940402630657488671505820681908902000708383676273854845817711531764475730270069855571366959622842914819860834936475292719074168444365510704342711559699508093042880177904174497791e312"));
}

#[test]
fn numbers_are_exactly_the_finite_f64_literals() {
    let near = "17976931348623158079372897140530341507993413271003782693617377898044496829276475094664901797758720709633028641669288791094655554785194040263065748867150582068190890200070838367627385484581771153176447573027006985557136695962284291481986083493647529271907416844436551070434271155969950809304288017790417449779";
    let mut literals: Vec<String> = vec![
        "0".into(), "-0".into(), "+7".into(), ".5".into(), "5.".into(), "1e308".into(),
        "1e309".into(), "-1e309".into(), "9e307".into(), "17.976931348623157e307".into(),
        "0.00000000017976931348623159e317".into(), "1E+400".into(), "1e-99999".into(),
        "0e99999".into(), "inf".into(), "NaN".into(), "-infinity".into(), "1_0".into(),
    ];
    for last in ['0', '1', '2', '5', '9'] {
        literals.push(format!("{near}{last}"));
        literals.push(format!("-{near}{last}.999"));
        literals.push(format!("0.{near}{last}e309"));
        literals.push(format!("{near}{last}e-1"));
    }
    for s in &literals {
        let finite = s.parse::<f64>().map(|x| x.is_finite()).unwrap_or(false);
        let is_number = matches!(to_value(s), DataValue::Number(_));
        assert_eq!(is_number, finite, "{s}");
    }
}

#[test]
fn marker_lines_may_carry_a_note() {
    let body = "[SCENE: outro | template=video-clip duration=2.2]   # last beat\n\
                [DATA: src=assets/clips/punchline.mp4 seek=0]   # keeps native audio; audio=false to mute\n\
                [CLIP: end | at=0.5]\t# placed by hand\n\
                Thanks for watching # really\n\
                [IMAGE: later] # ignored marker\n";
    let scenes = parse_scenes(body).unwrap();
    assert_eq!(scenes.len(), 1);
    assert_eq!(scenes[0].name, "outro");
    assert!(matches!(scenes[0].data.get("src"), Some(DataValue::Text(t)) if t == "assets/clips/punchline.mp4"));
    assert!(matches!(scenes[0].data.get("seek"), Some(DataValue::Number(n)) if n == "0"));
    assert_eq!(scenes[0].data.entries().len(), 2);
    assert_eq!(scenes[0].chunks.len(), 1);
    assert_eq!(scenes[0].chunks[0].at.as_deref(), Some("0.5"));
    assert_eq!(scenes[0].chunks[0].text, "Thanks for watching # really");
}

#[test]
fn a_hash_inside_a_marker_is_kept() {
    let scenes = parse_scenes(
        "[SCENE: Issue #4 | template=t duration=1]\n[DATA: bench=\"x # y\"] # note\n",
    )
    .unwrap();
    assert_eq!(scenes[0].name, "Issue #4");
    assert!(matches!(scenes[0].data.get("bench"), Some(DataValue::Text(t)) if t == "x # y"));
}
