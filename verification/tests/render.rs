use videoeditor::render::{
    asset_mime, asset_refs, finish_template_data, frame_file_name, inline_asset,
    lang_for_extension, linked_asset, progress_due, render_plan, template_data,
};
use videoeditor::script::{parse_scenes, DataValue, Scene, SceneData};

fn scenes() -> Vec<Scene> {
    parse_scenes(
        "[SCENE: intro | template=title-card duration=2.5]\n\
         [DATA: title=\"Hi\" logo=assets/logos/x.svg count=3 plain=word]\n\
         [SCENE: clip | template=video-clip duration=1]\n[DATA: src=assets/clips/a.mp4]\n\
         [SCENE: code | template=code-meme duration=4]\n[DATA: code=assets/code/good.rs]\n",
    )
    .unwrap()
}

fn text<'a>(d: &'a SceneData, k: &str) -> Option<&'a str> {
    match d.get(k) {
        Some(DataValue::Text(t)) => Some(t.as_str()),
        _ => None,
    }
}

fn number<'a>(d: &'a SceneData, k: &str) -> Option<&'a str> {
    match d.get(k) {
        Some(DataValue::Number(t)) => Some(t.as_str()),
        _ => None,
    }
}

#[test]
fn a_render_pass_covers_the_selected_scenes() {
    let s = scenes();
    let all = render_plan(&s, None);
    assert_eq!(all.scenes, vec![0, 1, 2]);
    assert!(all.needs_browser);
    let clip_only = render_plan(&s, Some("clip"));
    assert_eq!(clip_only.scenes, vec![1]);
    assert!(!clip_only.needs_browser);
    let none = render_plan(&s, Some("missing"));
    assert!(none.scenes.is_empty());
    assert!(!none.needs_browser);
}

#[test]
fn frames_are_numbered_five_digits() {
    assert_eq!(frame_file_name(0), "f_00000.png");
    assert_eq!(frame_file_name(42), "f_00042.png");
    assert_eq!(frame_file_name(123456), "f_123456.png");
    assert!(progress_due(0, 10));
    assert!(progress_due(30, 100));
    assert!(progress_due(9, 10));
    assert!(!progress_due(5, 10));
}

#[test]
fn code_extensions_name_languages() {
    assert_eq!(lang_for_extension("rs"), "rust");
    assert_eq!(lang_for_extension("py"), "python");
    assert_eq!(lang_for_extension("ts"), "typescript");
    assert_eq!(lang_for_extension("js"), "javascript");
    assert_eq!(lang_for_extension("go"), "go");
}

#[test]
fn code_scenes_receive_their_code_and_language() {
    let s = scenes();
    let d = template_data(&s[2], Some("fn main() {}"), Some("rs"));
    assert_eq!(text(&d, "codeText"), Some("fn main() {}"));
    assert_eq!(text(&d, "lang"), Some("rust"));
    assert_eq!(text(&d, "code"), Some("assets/code/good.rs"));
    let plain = template_data(&s[0], None, None);
    assert!(plain.get("codeText").is_none());
    assert_eq!(text(&plain, "title"), Some("Hi"));
    assert_eq!(number(&plain, "count"), Some("3"));
}

#[test]
fn a_named_language_is_kept() {
    let s = parse_scenes(
        "[SCENE: c | template=code-meme duration=1]\n[DATA: code=x/y.txt lang=haskell]\n",
    )
    .unwrap();
    let d = template_data(&s[0], Some("main = pure ()"), Some("txt"));
    assert_eq!(text(&d, "lang"), Some("haskell"));
}

#[test]
fn only_slashed_text_values_may_name_assets() {
    let s = scenes();
    let mut refs = asset_refs(&s[0].data);
    refs.sort();
    assert_eq!(refs, vec![("logo".to_string(), "assets/logos/x.svg".to_string())]);
    assert!(asset_refs(&SceneData::new()).is_empty());
}

#[test]
fn images_are_inlined_and_other_assets_linked() {
    assert_eq!(asset_mime(Some("png")), Some("image/png"));
    assert_eq!(asset_mime(Some("jpg")), Some("image/jpeg"));
    assert_eq!(asset_mime(Some("jpeg")), Some("image/jpeg"));
    assert_eq!(asset_mime(Some("webp")), Some("image/webp"));
    assert_eq!(asset_mime(Some("gif")), Some("image/gif"));
    assert_eq!(asset_mime(Some("svg")), Some("image/svg+xml"));
    assert_eq!(asset_mime(Some("PNG")), None);
    assert_eq!(asset_mime(Some("mp4")), None);
    assert_eq!(asset_mime(None), None);
    assert_eq!(inline_asset("image/svg+xml", b"<svg/>"), "data:image/svg+xml;base64,PHN2Zy8+");
    assert_eq!(linked_asset("/ep/assets/a.mp4"), "file:///ep/assets/a.mp4");
}

#[test]
fn template_data_ends_with_the_scene_and_frame() {
    let s = scenes();
    let mut d = template_data(&s[0], None, None);
    finish_template_data(&mut d, &s[0], 1080, 1920);
    assert_eq!(text(&d, "sceneName"), Some("intro"));
    assert_eq!(number(&d, "duration"), Some("2.5"));
    assert_eq!(number(&d, "width"), Some("1080"));
    assert_eq!(number(&d, "height"), Some("1920"));
}
