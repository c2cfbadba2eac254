use videoeditor::catalog::{
    discover, join, key_line, pieces, preview_targets, sort_names, template_info_block,
    template_layers, CatalogError, TemplateEntry,
};

fn names(v: &[&str]) -> Vec<String> {
    v.iter().map(|s| s.to_string()).collect()
}

#[test]
fn the_info_block_is_the_trimmed_json_of_the_script_tag() {
    let html = "<html><script type=\"application/json\" id=\"template-info\">\n  {\"description\": \"A card\"}\n</script><body></body></html>";
    assert_eq!(template_info_block(html).unwrap().unwrap(), "{\"description\": \"A card\"}");
    assert_eq!(template_info_block("<html></html>").unwrap(), None);
}

#[test]
fn broken_info_blocks_are_reported() {
    assert_eq!(
        template_info_block("<script id=\"template-info\"").unwrap_err(),
        CatalogError::UnterminatedTag
    );
    assert_eq!(
        template_info_block("<script id=\"template-info\">{}").unwrap_err(),
        CatalogError::UnterminatedBlock
    );
    assert_eq!(CatalogError::UnterminatedTag.message(), "unterminated template-info tag");
    assert_eq!(CatalogError::UnterminatedBlock.message(), "unterminated template-info block");
}

#[test]
fn names_sort_by_code_point() {
    let v: Vec<Vec<char>> =
        ["b", "a", "B", "ab", "a", ""].iter().map(|s| s.chars().collect()).collect();
    let sorted: Vec<String> = sort_names(v).into_iter().map(|c| c.into_iter().collect()).collect();
    assert_eq!(sorted, vec!["", "B", "a", "a", "ab", "b"]);
}

fn summary(es: &[TemplateEntry]) -> Vec<(String, usize, String, Vec<(usize, String)>)> {
    es.iter().map(|e| (e.name.clone(), e.layer, e.file.clone(), e.shadowed.clone())).collect()
}

#[test]
fn the_most_specific_layer_wins() {
    let layers = vec![
        names(&["title-card.html", "_partial.html", "notes.md", "zeta.html"]),
        names(&["code-meme.html", "title-card.html", "title-card.htm"]),
        names(&["title-card.html", "alpha.html"]),
    ];
    let es = discover(&layers);
    assert_eq!(
        summary(&es),
        vec![
            (
                "title-card".to_string(),
                0,
                "title-card.html".to_string(),
                vec![(1, "title-card.html".to_string()), (2, "title-card.html".to_string())]
            ),
            ("zeta".to_string(), 0, "zeta.html".to_string(), vec![]),
            ("code-meme".to_string(), 1, "code-meme.html".to_string(), vec![]),
            ("alpha".to_string(), 2, "alpha.html".to_string(), vec![]),
        ]
    );
}

#[test]
fn every_visible_template_is_listed_once_by_name() {
    let layers = vec![names(&["b.html", "a.html"]), names(&["a.html", "c.html", "b.html"])];
    let es = discover(&layers);
    let mut seen: Vec<&str> = es.iter().map(|e| e.name.as_str()).collect();
    seen.dedup();
    assert_eq!(seen.len(), es.len());
    let total: usize = es.iter().map(|e| 1 + e.shadowed.len()).sum();
    assert_eq!(total, 5);
}

#[test]
fn no_layers_no_templates() {
    assert!(discover(&vec![]).is_empty());
    assert!(discover(&vec![names(&["readme.md", ".html"])]).is_empty());
}

#[test]
fn preview_targets_one_name_or_all() {
    let es = discover(&vec![names(&["a.html", "b.html"])]);
    assert_eq!(preview_targets(&es, Some("b")).unwrap(), vec![1]);
    assert_eq!(preview_targets(&es, None).unwrap(), vec![0, 1]);
    let e = preview_targets(&es, Some("c")).unwrap_err();
    assert_eq!(e, CatalogError::TemplateNotFound { name: "c".into() });
    assert_eq!(e.message(), "template `c` not found \u{2014} try `videoeditor templates`");
    let none = discover(&vec![]);
    assert_eq!(preview_targets(&none, None).unwrap_err(), CatalogError::NoTemplates);
    assert_eq!(CatalogError::NoTemplates.message(), "no templates found in any layer");
}

#[test]
fn data_keys_are_listed_in_a_column() {
    assert_eq!(key_line("title", "Headline text"), format!("    {:<28} {}", "title", "Headline text"));
    let long = "a_very_long_key_that_overflows_the_column";
    assert_eq!(key_line(long, "doc"), format!("    {long:<28} doc"));
    assert_eq!(key_line("μ", "x"), format!("    {:<28} {}", "μ", "x"));
}

#[test]
fn layers_run_from_the_episode_to_the_built_ins() {
    assert_eq!(
        template_layers(
            "/ep",
            Some("../creator-a, ../shared-lower-thirds ,"),
            Some("/packs/x::/packs/y"),
            "/engine"
        ),
        vec!["/ep", "/ep/../creator-a", "/ep/../shared-lower-thirds", "/packs/x", "/packs/y", "/engine"]
    );
    assert_eq!(template_layers("/ep", None, None, "/engine"), vec!["/ep", "/engine"]);
    assert_eq!(
        template_layers("/ep/", Some("/abs/pack"), None, "/engine"),
        vec!["/ep/", "/abs/pack", "/engine"]
    );
}

#[test]
fn pieces_split_like_str_split() {
    assert_eq!(pieces(" a , b,,c ", ',', true), vec!["a", "b", "c"]);
    assert_eq!(pieces("a::b:", ':', false), vec!["a", "b"]);
    assert_eq!(pieces(" ", ',', false), vec![" "]);
    assert!(pieces("", ',', false).is_empty());
    assert_eq!(join("a", "b"), "a/b");
    assert_eq!(join("a/", "b"), "a/b");
    assert_eq!(join("a", "/b"), "/b");
    assert_eq!(join("", "b"), "b");
}

#[test]
fn frontmatter_declares_packs() {
    let meta = videoeditor::script::parse_meta("packs: ../a, ../b").unwrap();
    assert_eq!(meta.packs.as_deref(), Some("../a, ../b"));
}
