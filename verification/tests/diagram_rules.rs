use docsail::diagram::{
    image_cost, is_mermaid, is_supported_source, raster_box, rendered_blocks, CacheKey, DiagramLedger,
    DisplayMode, RequestAction, SendOutcome, MAX_CACHE_BYTES,
};
use docsail::parse::parse;

#[test]
fn identifies_mermaid_fences_case_insensitively() {
    assert!(is_mermaid(Some("mermaid")));
    assert!(is_mermaid(Some(" Mermaid ")));
    assert!(!is_mermaid(Some("mermaid {theme: dark}")));
}

#[test]
fn limits_the_initial_renderer_to_two_diagram_families() {
    assert!(is_supported_source("flowchart TD\nA --> B"));
    assert!(is_supported_source("sequenceDiagram\nA->>B: こんにちは"));
    assert!(!is_supported_source("classDiagram\nA <|-- B"));
}

#[test]
fn exposes_only_mermaid_blocks_in_rendered_mode() {
    let document = parse("```mermaid\nflowchart TD\nA --> B\n```\n\n```rust\nfn main() {}\n```");
    assert_eq!(rendered_blocks(&document, DisplayMode::Rendered).len(), 1);
    assert_eq!(rendered_blocks(&document, DisplayMode::Source).len(), 0);
}

#[test]
fn rejects_languages_that_only_resemble_mermaid() {
    assert!(!is_mermaid(None));
    assert!(!is_mermaid(Some("mermaidx")));
    assert!(!is_mermaid(Some("")));
    assert!(is_mermaid(Some("\tMERMAID\n")));
    assert!(is_mermaid(Some("\u{3000}mermaid\u{a0}")));
    assert!(!is_mermaid(Some("\u{200b}mermaid")));
}

#[test]
fn looks_past_blank_lines_and_indentation_for_the_diagram_family() {
    assert!(is_supported_source("\n   \n  graph LR\nA --> B"));
    assert!(!is_supported_source("   \n\n"));
    assert!(!is_supported_source(""));
    assert!(!is_supported_source("%% comment\nflowchart TD"));
}

#[test]
fn reports_the_index_and_source_of_each_diagram() {
    let document = parse("intro\n\n```mermaid\ngraph TD\n```\n\n```Mermaid\nsequenceDiagram\n```");
    let blocks = rendered_blocks(&document, DisplayMode::Rendered);
    assert_eq!(blocks, [(1, "graph TD\n"), (2, "sequenceDiagram\n")]);
}

#[test]
fn sizes_the_raster_box_by_the_font_cell() {
    assert_eq!(raster_box(48, 12, 10, 20), (480, 240));
    assert_eq!(raster_box(u16::MAX, 1, u16::MAX, 1), (4_294_836_225, 1));
}

#[test]
fn weighs_an_image_by_its_png_and_pixels() {
    assert_eq!(image_cost(100, 10, 20), 900);
    assert_eq!(image_cost(usize::MAX, 1, 1), usize::MAX);
}

#[test]
fn requests_render_then_waits_then_serves_from_the_cache() {
    let mut ledger = DiagramLedger::new();
    let key = CacheKey::new("graph TD", 40, 24);
    assert_eq!(ledger.request(&key), RequestAction::Render);
    ledger.record_send(key.copy(), SendOutcome::Sent);
    assert_eq!(ledger.request(&key), RequestAction::Wait);
    let dropped = ledger.finish(key.copy(), Some(1000));
    assert!(dropped.is_empty());
    assert!(ledger.is_cached(&key));
    assert_eq!(ledger.cached_bytes(), 1000);
    assert_eq!(ledger.request(&key), RequestAction::Cached);
}

#[test]
fn remembers_failed_renders_and_busy_renderers() {
    let mut ledger = DiagramLedger::new();
    let busy = CacheKey::new("graph TD", 40, 24);
    ledger.record_send(busy.copy(), SendOutcome::Full);
    assert_eq!(ledger.request(&busy), RequestAction::Render);
    let broken = CacheKey::new("classDiagram", 40, 24);
    ledger.record_send(broken.copy(), SendOutcome::Sent);
    ledger.finish(broken.copy(), None);
    assert!(ledger.is_failed(&broken));
    assert_eq!(ledger.request(&broken), RequestAction::Wait);
    let gone = CacheKey::new("graph LR", 40, 24);
    ledger.record_send(gone.copy(), SendOutcome::Disconnected);
    assert!(ledger.is_failed(&gone));
}

#[test]
fn evicts_the_least_recently_used_images_over_the_budget() {
    let mut ledger = DiagramLedger::new();
    let a = CacheKey::new("a", 1, 1);
    let b = CacheKey::new("b", 1, 1);
    let c = CacheKey::new("c", 1, 1);
    let half = MAX_CACHE_BYTES / 2;
    assert!(ledger.finish(a.copy(), Some(half)).is_empty());
    assert!(ledger.finish(b.copy(), Some(half)).is_empty());
    assert_eq!(ledger.request(&a), RequestAction::Cached);
    let dropped = ledger.finish(c.copy(), Some(half));
    assert_eq!(dropped.len(), 1);
    assert!(dropped[0].same_as(&b));
    assert!(ledger.is_cached(&a));
    assert!(!ledger.is_cached(&b));
    assert!(ledger.is_cached(&c));
    assert_eq!(ledger.cached_bytes(), 2 * half);
}

#[test]
fn keeps_a_single_image_larger_than_the_budget() {
    let mut ledger = DiagramLedger::new();
    let small = CacheKey::new("small", 1, 1);
    let huge = CacheKey::new("huge", 1, 1);
    ledger.finish(small.copy(), Some(10));
    let dropped = ledger.finish(huge.copy(), Some(MAX_CACHE_BYTES + 1));
    assert_eq!(dropped.len(), 1);
    assert!(ledger.is_cached(&huge));
    assert_eq!(ledger.cached_bytes(), MAX_CACHE_BYTES + 1);
}
