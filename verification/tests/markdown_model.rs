use docsail::markdown::{heading_slug, Block, Document, HeadingLevel, Inline, ListItem, TableAlignment};
use docsail::parse::parse;

#[test]
fn parses_headings_and_paragraphs() {
    let document = parse("# DocSail\n\nA terminal Markdown viewer.");

    assert_eq!(
        document.blocks(),
        [
            Block::Heading {
                level: HeadingLevel::One,
                content: vec![Inline::Text("DocSail".to_owned())],
            },
            Block::Paragraph(vec![Inline::Text("A terminal Markdown viewer.".to_owned())]),
        ]
    );
}

#[test]
fn parses_inline_and_fenced_code() {
    let document = parse("Use `cargo test`.\n\n```rust\nfn main() {}\n```");
    assert!(
        matches!(&document.blocks()[0], Block::Paragraph(content) if matches!(content[1], Inline::Code(_)))
    );
    assert!(
        matches!(&document.blocks()[1], Block::CodeBlock { language: Some(language), content } if language == "rust" && content.contains("fn main"))
    );
}

#[test]
fn parses_lists_tasks_and_blockquotes() {
    let document = parse("- [x] done\n- next\n\n> quoted");
    assert!(
        matches!(&document.blocks()[0], Block::List { items, .. } if items[0].task == Some(true))
    );
    assert!(matches!(&document.blocks()[1], Block::BlockQuote(_)));
}

#[test]
fn preserves_nested_lists_and_blockquotes() {
    let document = parse("- parent\n  - child\n- sibling\n\n> outer\n> > inner");

    assert!(matches!(&document.blocks()[0], Block::List { items, .. }
        if items.len() == 2
            && matches!(items[0].blocks.as_slice(), [Block::Paragraph(_), Block::List { items, .. }] if items.len() == 1)
            && matches!(items[1].blocks.as_slice(), [Block::Paragraph(_)])));
    assert!(matches!(&document.blocks()[1], Block::BlockQuote(blocks)
        if matches!(blocks.as_slice(), [Block::Paragraph(_), Block::BlockQuote(_)])));
}

#[test]
fn parses_links_and_images() {
    let document = parse("[DocSail](https://example.invalid) ![Logo](logo.png)");
    assert!(
        matches!(&document.blocks()[0], Block::Paragraph(content) if matches!(content[0], Inline::Link { .. }) && matches!(content[2], Inline::Image { .. }))
    );
}

#[test]
fn parses_gfm_tables() {
    let document = parse("| Name | Value |\n| --- | --- |\n| DocSail | TUI |");
    assert!(
        matches!(&document.blocks()[0], Block::Table { header, rows, alignments } if header.len() == 2 && rows.len() == 1 && alignments == &[TableAlignment::Unaligned, TableAlignment::Unaligned])
    );
}

#[test]
fn parses_links_and_images_in_table_cells() {
    let document =
        parse("| [DocSail](https://example.invalid) | ![Logo](logo.png) |\n| --- | --- |");

    assert!(
        matches!(&document.blocks()[0], Block::Table { header, .. } if matches!(header[0][0], Inline::Link { .. }) && matches!(header[1][0], Inline::Image { .. }))
    );
}

#[test]
fn parses_emphasis_strikethrough_autolinks_and_thematic_breaks() {
    let document = parse("*emphasis* **strong** ~~strike~~ <https://example.invalid>\n\n---");

    assert!(matches!(&document.blocks()[0], Block::Paragraph(content)
            if matches!(content[0], Inline::Emphasis(_))
            && matches!(content[2], Inline::Strong(_))
            && matches!(content[4], Inline::Strikethrough(_))
            && matches!(content[6], Inline::Autolink(_))));
    assert!(matches!(document.blocks()[1], Block::ThematicBreak));
}

#[test]
fn preserves_blocks_and_nested_gfm_content_without_rendering_types() {
    let document = Document::new(vec![
        Block::Heading {
            level: HeadingLevel::One,
            content: vec![Inline::Text("DocSail".to_owned())],
        },
        Block::List {
            start: None,
            items: vec![ListItem {
                task: Some(true),
                blocks: vec![Block::Paragraph(vec![Inline::Strikethrough(vec![
                    Inline::Text("done".to_owned()),
                ])])],
            }],
        },
    ]);

    assert_eq!(document.blocks().len(), 2);
    assert!(matches!(document.blocks()[0], Block::Heading { .. }));
    assert!(matches!(document.blocks()[1], Block::List { .. }));
}

#[test]
fn creates_github_style_heading_ids_and_searches_blocks() {
    let document = parse("# Hello, World!\n\ntext needle\n\n## Hello, World!");

    assert_eq!(heading_slug("日本語 Heading"), "日本語-heading");
    assert_eq!(
        document
            .headings()
            .into_iter()
            .map(|heading| heading.id)
            .collect::<Vec<_>>(),
        ["hello-world", "hello-world-1"]
    );
    assert_eq!(document.search_blocks("NEEDLE"), [1]);
    assert_eq!(document.block_text(1).as_deref(), Some("text needle"));
}

#[test]
fn empty_search_finds_nothing() {
    let document = parse("one\n\ntwo");
    assert!(document.search_blocks("").is_empty());
    assert_eq!(document.block_text(5), None);
}

#[test]
fn lists_link_destinations_in_document_order() {
    let document = parse("[a](one.md) and ![b](two.png)\n\n| [c](three.md) |\n| --- |");
    assert_eq!(document.link_destinations(), ["one.md", "three.md"]);
}

#[test]
fn strips_punctuation_and_dashes_from_slugs() {
    assert_eq!(heading_slug("--Hello,  World!--"), "hello--world");
    assert_eq!(heading_slug("snake_case and-dash"), "snake_case-and-dash");
}
