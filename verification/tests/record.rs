use videoeditor::record::{
    clip_file, clip_id, find_clip, next_take_number, replaced_file_name, route, sanitize_id,
    take_file_name, take_number, take_upload_url, upload_extension, HttpMethod, RecordError, Route,
};
use videoeditor::script::{parse_scenes, Scene};

#[test]
fn sanitize_accepts_manifest_ids_only() {
    assert_eq!(sanitize_id("title__hook").unwrap(), "title__hook");
    assert_eq!(sanitize_id("pass2__pass2").unwrap(), "pass2__pass2");
    assert!(sanitize_id("").is_err());
    assert!(sanitize_id("../../etc/passwd").is_err());
    assert!(sanitize_id("a/b").is_err());
    assert!(sanitize_id("a b").is_err());
}

#[test]
fn take_numbers_start_at_one_and_increment() {
    let mut names: Vec<String> = Vec::new();
    assert_eq!(next_take_number(&names), 1);
    names.push("take_001.mp3".to_string());
    assert_eq!(next_take_number(&names), 2);
    names.push("replaced_007.mp3".to_string());
    assert_eq!(next_take_number(&names), 8);
}

#[test]
fn unrelated_files_do_not_count_as_takes() {
    let names: Vec<String> =
        vec!["notes.txt".into(), "take_x.mp3".into(), "take_012.wav".into(), "take_004.mp3".into()];
    assert_eq!(next_take_number(&names), 5);
    assert_eq!(take_number("take_007.mp3"), Some(7));
    assert_eq!(take_number("replaced_012.mp3"), Some(12));
    assert_eq!(take_number("take_.mp3"), None);
    assert_eq!(take_number("take_007.wav"), None);
}

#[test]
fn take_files_are_zero_padded_and_read_back() {
    assert_eq!(take_file_name(1), "take_001.mp3");
    assert_eq!(take_file_name(1234), "take_1234.mp3");
    assert_eq!(replaced_file_name(7), "replaced_007.mp3");
    for n in [0u32, 9, 10, 999, 1000, 4_000_000_000] {
        assert_eq!(take_number(&take_file_name(n)), Some(n));
        assert_eq!(take_number(&replaced_file_name(n)), Some(n));
    }
}

#[test]
fn a_new_take_never_reuses_a_number() {
    let mut names: Vec<String> = vec!["take_003.mp3".into(), "replaced_009.mp3".into()];
    for _ in 0..5 {
        let n = next_take_number(&names);
        let file = take_file_name(n);
        assert!(!names.contains(&file));
        names.push(file);
    }
}

#[test]
fn clip_ids_and_files() {
    assert_eq!(clip_id("title", "hook"), "title__hook");
    assert_eq!(clip_file("title__hook"), "audio/clips/title__hook.mp3");
}

#[test]
fn requests_are_routed() {
    assert_eq!(route(HttpMethod::Get, "/").unwrap(), Route::Index);
    assert_eq!(route(HttpMethod::Get, "/api/episode").unwrap(), Route::Episode);
    assert_eq!(
        route(HttpMethod::Get, "/audio/title__hook").unwrap(),
        Route::Audio { id: "title__hook".into() }
    );
    assert_eq!(
        route(HttpMethod::Post, "/api/take/title__hook").unwrap(),
        Route::Take { id: "title__hook".into() }
    );
    assert_eq!(route(HttpMethod::Post, "/").unwrap(), Route::NotFound);
    assert_eq!(route(HttpMethod::Get, "/api/take/title__hook").unwrap(), Route::NotFound);
    assert_eq!(route(HttpMethod::Other, "/").unwrap(), Route::NotFound);
    assert_eq!(
        route(HttpMethod::Get, "/audio/../secret").unwrap_err(),
        RecordError::InvalidClipId { raw: "../secret".into() }
    );
}

#[test]
fn upload_urls_route_back_to_their_clip() {
    for id in ["title__hook", "a-b__c_1"] {
        let url = take_upload_url(id);
        assert_eq!(url, format!("/api/take/{id}"));
        assert_eq!(route(HttpMethod::Post, &url).unwrap(), Route::Take { id: id.to_string() });
    }
}

fn scenes() -> Vec<Scene> {
    parse_scenes(
        "[SCENE: title | template=t duration=2]\n[CLIP: hook]\nHi.\n[SCENE: good | template=t duration=3]\n[CLIP: a]\nA.\n[CLIP: b]\nB.\n",
    )
    .unwrap()
}

#[test]
fn takes_find_their_clip() {
    let s = scenes();
    assert_eq!(find_clip(&s, "title__hook").unwrap(), (0, 0));
    assert_eq!(find_clip(&s, "good__b").unwrap(), (1, 1));
    assert_eq!(
        find_clip(&s, "good__c").unwrap_err(),
        RecordError::UnknownClip { id: "good__c".into() }
    );
}

#[test]
fn uploads_keep_the_browser_container() {
    assert_eq!(upload_extension("audio/mp4"), "mp4");
    assert_eq!(upload_extension("audio/webm;codecs=opus"), "webm");
    assert_eq!(upload_extension(""), "webm");
}

#[test]
fn record_errors_explain_themselves() {
    assert_eq!(
        RecordError::InvalidClipId { raw: "a b".into() }.message(),
        "invalid clip id \"a b\""
    );
    assert_eq!(RecordError::UnknownClip { id: "x__y".into() }.message(), "unknown clip id x__y");
}

#[test]
fn routed_ids_never_hold_path_characters() {
    for url in ["/audio/..", "/audio/a.b", "/audio/a/b", "/audio/a\\b", "/audio/"] {
        assert!(route(HttpMethod::Get, url).is_err(), "{url}");
    }
    for url in ["/api/take/..", "/api/take/x.mp3", "/api/take/a/b"] {
        assert!(route(HttpMethod::Post, url).is_err(), "{url}");
    }
}

#[test]
fn voiced_text_sits_beside_the_clip() {
    assert_eq!(videoeditor::record::clip_text_file("title__hook"), "audio/clips/title__hook.txt");
}
