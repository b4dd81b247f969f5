use docsail::parse::parse;
use docsail::ui::{centered_rect, file_tree_rows, two_pane_layout, Area};
use docsail::workspace::FileTreeNode;
use docsail::ui::{
    overlay_cursor_position, preview_lines, preview_scroll_for_block, preview_scroll_offset, Color,
    StyledLine,
};

fn line_text(line: &StyledLine) -> String {
    line.spans.iter().map(|span| span.content.as_str()).collect()
}

#[test]
fn clamps_preview_scroll_to_the_terminal_coordinate_range() {
    assert_eq!(preview_scroll_offset(12), 12);
    assert_eq!(preview_scroll_offset(usize::MAX), u16::MAX);
}

#[test]
fn offsets_the_preview_for_the_blank_line_before_a_later_block() {
    let document = parse("first\n\nsecond");

    assert_eq!(preview_scroll_for_block(&document, 0), 0);
    assert_eq!(preview_scroll_for_block(&document, 1), 2);
}

#[test]
fn positions_the_input_cursor_after_wide_characters() {
    assert_eq!(overlay_cursor_position(10, 4, 20, "日本"), (17, 5));
    assert_eq!(overlay_cursor_position(10, 4, 20, &"x".repeat(30)), (29, 5));
}

#[test]
fn renders_markdown_as_a_preview_without_source_markers() {
    let document = parse(
        "# Title\n\nfirst line\nsecond line\n\n| Name | Value |\n| --- | --- |\n| DocSail | TUI |",
    );
    let lines = preview_lines(&document)
        .iter()
        .map(line_text)
        .collect::<Vec<_>>();

    assert_eq!(lines[0], "════════════════════");
    assert_eq!(lines[1], "Title");
    assert_eq!(lines[2], "════════════════════");
    assert_eq!(lines[4], "first line second line");
    assert_eq!(lines[6], "┌─────────┬───────┐");
    assert_eq!(lines[7], "│ Name    │ Value │");
    assert!(lines.iter().all(|line| !line.starts_with("# ")));
    assert!(lines.iter().all(|line| !line.starts_with("| ")));
}

#[test]
fn renders_unordered_ordered_and_task_lists() {
    let document = parse("- first\n- second\n\n1. one\n2. two\n\n- [x] done\n- [ ] remaining");
    let lines = preview_lines(&document)
        .iter()
        .map(line_text)
        .collect::<Vec<_>>();

    assert_eq!(
        lines,
        [
            "• first",
            "• second",
            "",
            "1. one",
            "2. two",
            "",
            "[x] done",
            "[ ] remaining",
        ]
    );
}

#[test]
fn differentiates_heading_levels_without_markdown_markers() {
    let document = parse("# One\n\n## Two\n\n### Three\n\n#### Four");
    let rendered = preview_lines(&document);
    let lines = rendered.iter().map(line_text).collect::<Vec<_>>();

    assert_eq!(lines[1], "One");
    assert_eq!(lines[4], "Two");
    assert_eq!(lines[5], "────────────────");
    assert_eq!(lines[7], "Three");
    assert_eq!(lines[9], "▸ Four");
    assert!(lines.iter().all(|line| !line.starts_with("#")));
    assert_eq!(rendered[1].spans[0].style.fg, Some(Color::Magenta));
    assert_eq!(rendered[4].spans[0].style.fg, Some(Color::Cyan));
    assert_eq!(rendered[7].spans[0].style.fg, Some(Color::Green));
    assert_eq!(rendered[9].spans[0].style.fg, Some(Color::Yellow));
}

#[test]
fn keeps_the_cursor_off_the_right_border_of_a_tiny_overlay() {
    assert_eq!(overlay_cursor_position(0, 0, 0, "abc"), (0, 1));
    assert_eq!(overlay_cursor_position(u16::MAX, u16::MAX, 5, ""), (u16::MAX - 1, u16::MAX));
}

#[test]
fn scrolls_past_the_end_to_the_total_height() {
    let document = parse("first\n\nsecond");
    assert_eq!(preview_scroll_for_block(&document, 9), 4);
}

#[test]
fn lists_directories_and_marks_the_selected_file() {
    let nodes = vec![
        FileTreeNode::File { name: "README.md".to_owned() },
        FileTreeNode::Directory {
            name: "guide".to_owned(),
            children: vec![FileTreeNode::File { name: "setup.md".to_owned() }],
        },
        FileTreeNode::Page {
            name: "wiki.md".to_owned(),
            children: vec![FileTreeNode::File { name: "child.md".to_owned() }],
        },
    ];

    let rows = file_tree_rows(&nodes, 1);

    assert_eq!(rows[0].label, "  README.md");
    assert!(!rows[0].is_selected);
    assert_eq!(rows[1].label, "▾ guide/");
    assert_eq!(rows[2].label, "    setup.md");
    assert!(rows[2].is_selected);
    assert_eq!(rows[3].label, "▾ wiki.md");
    assert!(!rows[3].is_selected);
    assert_eq!(rows[4].label, "    child.md");
    assert_eq!(file_tree_rows(&nodes, 3).iter().filter(|row| row.is_selected).count(), 1);
    assert!(file_tree_rows(&nodes, 3)[4].is_selected);
}

fn area(x: u16, y: u16, width: u16, height: u16) -> Area {
    Area { x, y, width, height }
}

#[test]
fn splits_the_available_width_between_file_tree_and_preview() {
    let layout = two_pane_layout(area(4, 2, 100, 30));

    assert_eq!(layout.file_tree, area(4, 2, 35, 30));
    assert_eq!(layout.preview, area(39, 2, 65, 30));
}

#[test]
fn keeps_panes_within_a_narrow_area_without_overlap() {
    let narrow = area(0, 0, 1, 10);
    let layout = two_pane_layout(narrow);

    assert_eq!(layout.file_tree.x, narrow.x);
    assert_eq!(layout.preview.right(), narrow.right());
    assert_eq!(layout.file_tree.right(), layout.preview.x);
    assert_eq!(layout.file_tree.height, narrow.height);
    assert_eq!(layout.preview.height, narrow.height);
}

#[test]
fn centres_the_overlay_in_the_screen() {
    let centered = centered_rect(70, 60, area(0, 0, 100, 50));
    assert_eq!(centered, area(15, 10, 70, 30));
}
