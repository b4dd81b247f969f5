use docsail::app::{App, Overlay};
use docsail::navigation::{
    anchor_scroll, file_search_results, link_target, fuzzy_score, go_back, go_forward, next_page_match,
    overlay_results, search_result_label, submission_target, visit, Location,
};
use docsail::parse::parse;

#[test]
fn cycles_page_search_matches() {
    let document = parse("one needle\n\nsecond needle");

    assert_eq!(next_page_match(&document, "needle", 0, false), Some(1));
    assert_eq!(next_page_match(&document, "needle", 1, true), Some(0));
    assert_eq!(fuzzy_score("guide/setup.md", "gs"), Some(5));
}

#[test]
fn labels_page_search_results_with_the_matching_text() {
    assert_eq!(
        search_result_label("first\n  matching text"),
        "first matching text"
    );
    assert_eq!(
        search_result_label(&"a".repeat(73)),
        format!("{}…", "a".repeat(72))
    );
}

#[test]
fn keeps_short_labels_whole_and_drops_surrounding_space() {
    assert_eq!(search_result_label("  one\ttwo  "), "one two");
    assert_eq!(search_result_label(&"b".repeat(72)), "b".repeat(72));
    assert_eq!(search_result_label("   "), "");
}

#[test]
fn scores_fuzzy_matches_by_the_bytes_skipped() {
    assert_eq!(fuzzy_score("anything", ""), Some(usize::MAX / 2));
    assert_eq!(fuzzy_score("guide/setup.md", "sg"), None);
    assert_eq!(fuzzy_score("readme.md", "rd"), Some(2));
    assert_eq!(fuzzy_score("日本/b.md", "b"), Some(7));
}

#[test]
fn wraps_around_when_no_match_lies_beyond_the_scroll() {
    let document = parse("one needle\n\nsecond needle");
    assert_eq!(next_page_match(&document, "needle", 2, false), Some(0));
    assert_eq!(next_page_match(&document, "needle", 0, true), Some(1));
    assert_eq!(next_page_match(&document, "absent", 0, false), None);
}

fn paths(values: &[&str]) -> Vec<String> {
    values.iter().map(|value| value.to_string()).collect()
}

#[test]
fn ranks_files_by_score_then_tree_order() {
    let files = paths(&["guide/setup.md", "README.md", "notes/gs.md", "other.md"]);
    assert_eq!(file_search_results(&files, "GS"), [0, 2]);
    assert_eq!(file_search_results(&files, ""), [0, 1, 2, 3]);
    assert!(file_search_results(&files, "zz").is_empty());
}

#[test]
fn lists_overlay_results_for_each_overlay() {
    let document = parse("# Top\n\n## Sub needle\n\nbody needle text");
    let files = paths(&["a.md", "b.md"]);
    assert_eq!(overlay_results(&files, &document, Some(Overlay::Toc), ""), ["Top", "  Sub needle"]);
    assert_eq!(overlay_results(&files, &document, Some(Overlay::FileSearch), "b"), ["b.md"]);
    assert_eq!(
        overlay_results(&files, &document, Some(Overlay::PageSearch), "NEEDLE"),
        ["Sub needle", "body needle text"]
    );
    assert!(overlay_results(&files, &document, None, "x").is_empty());
}

#[test]
fn finds_where_a_submission_leads() {
    let document = parse("# Top\n\npara\n\n## Sub");
    let files = paths(&["a.md", "b.md"]);
    assert_eq!(
        submission_target(&files, &document, 1, Overlay::Toc, "", 1),
        Some(Location { file_index: 1, scroll: 6 })
    );
    assert_eq!(
        submission_target(&files, &document, 0, Overlay::FileSearch, "b", 0),
        Some(Location { file_index: 1, scroll: 0 })
    );
    assert_eq!(submission_target(&files, &document, 0, Overlay::PageSearch, "para", 1), None);
}

#[test]
fn opens_a_link_at_its_anchor() {
    let document = parse("# Top\n\npara\n\n## Sub");
    assert_eq!(anchor_scroll(&document, Some("sub")), 6);
    assert_eq!(anchor_scroll(&document, Some("missing")), 0);
    assert_eq!(anchor_scroll(&document, None), 0);
}

#[test]
fn goes_back_and_forward_through_visited_locations() {
    let mut app = App::new();
    app.set_file_count(3);
    let mut back = Vec::new();
    let mut forward = Vec::new();

    visit(&mut app, &mut back, &mut forward, 2, 5);
    assert_eq!(back, [Location { file_index: 0, scroll: 0 }]);
    visit(&mut app, &mut back, &mut forward, 2, 5);
    assert_eq!(back.len(), 1);

    go_back(&mut app, &mut back, &mut forward);
    assert_eq!(Location::from_app(&app), Location { file_index: 0, scroll: 0 });
    assert_eq!(forward, [Location { file_index: 2, scroll: 5 }]);

    go_forward(&mut app, &mut back, &mut forward);
    assert_eq!(Location::from_app(&app), Location { file_index: 2, scroll: 5 });
    assert!(forward.is_empty());

    go_back(&mut app, &mut back, &mut forward);
    visit(&mut app, &mut back, &mut forward, 1, 0);
    assert!(forward.is_empty());
}

#[test]
fn searches_ignore_case() {
    let document = parse("Alpha\n\nbeta ALPHA");
    assert_eq!(document.search_blocks("alpha"), document.search_blocks("ALPHA"));
    assert_eq!(document.search_blocks("aLpHa"), [0, 1]);
    let files = paths(&["Docs/Guide.md", "docs/notes.md"]);
    assert_eq!(file_search_results(&files, "DG"), file_search_results(&files, "dg"));
    assert_eq!(file_search_results(&files, "dg"), [0]);
}

#[test]
fn ranks_the_same_way_every_time() {
    let files = paths(&["b/a.md", "a/b.md", "ab.md"]);
    let first = file_search_results(&files, "ab");
    assert_eq!(first, file_search_results(&files, "ab"));
    assert_eq!(first, [2, 1]);
}

#[test]
fn splits_page_links_into_path_and_anchor() {
    assert_eq!(link_target("guide/setup.md"), Some(("guide/setup.md".to_owned(), None)));
    assert_eq!(
        link_target("setup.md#install-it"),
        Some(("setup.md".to_owned(), Some("install-it".to_owned())))
    );
    assert_eq!(link_target("#top"), Some((String::new(), Some("top".to_owned()))));
    assert_eq!(link_target("a#b#c"), Some(("a".to_owned(), Some("b#c".to_owned()))));
    assert_eq!(link_target("https://example.invalid/x.md"), None);
    assert_eq!(link_target("mailto:someone@example.invalid"), None);
}
