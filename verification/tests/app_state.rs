use docsail::app::{App, AppEvent, Focus, Overlay};
use docsail::diagram::DisplayMode;

#[test]
fn navigates_and_restores_a_location() {
    let mut app = App::new();
    app.set_file_count(3);
    app.navigate_to(2, 8);
    assert_eq!(app.selected_file_index(), 2);
    assert_eq!(app.preview_scroll(), 8);
    assert_eq!(app.focus(), Focus::Preview);
}

#[test]
fn navigates_tree_rows_without_changing_the_preview_on_a_directory() {
    let mut app = App::new();
    app.set_file_count(2);
    app.set_tree_rows(vec![Some(0), None, Some(1)]);

    app.update(AppEvent::MoveDown);

    assert_eq!(app.tree_cursor(), 1);
    assert_eq!(app.selected_file_index(), 0);
    app.update(AppEvent::Activate);
    assert!(app.take_tree_toggle_request());
}

#[test]
fn accepts_a_search_query_and_submits_its_selected_result() {
    let mut app = App::new();
    app.update(AppEvent::OpenFileSearch);
    app.set_result_count(2);
    app.update(AppEvent::Input('g'));
    app.update(AppEvent::MoveDown);
    app.update(AppEvent::Activate);
    assert_eq!(app.take_overlay_submission(), Some(Overlay::FileSearch));
    assert_eq!(app.overlay(), None);
}

#[test]
fn records_navigation_requests() {
    let mut app = App::new();
    app.update(AppEvent::Back);
    app.update(AppEvent::Forward);
    assert!(app.take_back_request());
    assert!(app.take_forward_request());
}

#[test]
fn edits_search_input_at_unicode_character_boundaries() {
    let mut app = App::new();
    app.update(AppEvent::OpenFileSearch);
    app.update(AppEvent::Input('a'));
    app.update(AppEvent::Input('日'));
    app.update(AppEvent::Input('b'));
    app.update(AppEvent::CursorLeft);
    app.update(AppEvent::Backspace);
    app.update(AppEvent::Input('本'));
    app.update(AppEvent::CursorStart);
    app.update(AppEvent::DeleteForward);

    assert_eq!(app.query(), "本b");
    assert_eq!(app.query_cursor(), 0);
}

#[test]
fn accepts_j_and_k_as_search_input() {
    let mut app = App::new();
    app.update(AppEvent::OpenFileSearch);
    app.update(AppEvent::Input('j'));
    app.update(AppEvent::Input('k'));

    assert_eq!(app.query(), "jk");
}

#[test]
fn backspace_takes_back_the_last_typed_character() {
    let mut app = App::new();
    app.update(AppEvent::OpenPageSearch);
    app.update(AppEvent::Input('x'));
    app.update(AppEvent::Input('é'));
    let before = (app.query(), app.query_cursor());
    app.update(AppEvent::Input('z'));
    app.update(AppEvent::Backspace);
    assert_eq!((app.query(), app.query_cursor()), before);
    assert_eq!(app.query_cursor(), 3);
}

#[test]
fn cursor_left_then_right_returns_to_the_same_place() {
    let mut app = App::new();
    app.update(AppEvent::OpenFileSearch);
    app.update(AppEvent::Input('a'));
    app.update(AppEvent::Input('b'));
    app.update(AppEvent::CursorLeft);
    app.update(AppEvent::CursorRight);
    assert_eq!(app.query_cursor(), 2);
    app.update(AppEvent::CursorStart);
    app.update(AppEvent::CursorLeft);
    assert_eq!(app.query_cursor(), 0);
}

#[test]
fn overlays_leave_the_panes_alone_and_close_as_asked() {
    let mut app = App::new();
    app.set_file_count(3);
    app.update(AppEvent::OpenToc);
    assert_eq!(app.query(), "");
    assert_eq!(app.selected_result(), 0);
    app.update(AppEvent::MoveDown);
    assert_eq!(app.selected_file_index(), 0);
    assert_eq!(app.focus(), Focus::FileTree);
    app.update(AppEvent::Escape);
    assert_eq!(app.overlay(), None);
    assert_eq!(app.take_overlay_submission(), None);
}

#[test]
fn result_selection_stays_within_the_results() {
    let mut app = App::new();
    app.update(AppEvent::OpenFileSearch);
    app.set_result_count(2);
    app.update(AppEvent::NextResult);
    app.update(AppEvent::NextResult);
    app.update(AppEvent::NextResult);
    assert_eq!(app.selected_result(), 1);
    app.update(AppEvent::PreviousResult);
    app.update(AppEvent::PreviousResult);
    assert_eq!(app.selected_result(), 0);
}

#[test]
fn navigation_clamps_to_the_last_file() {
    let mut app = App::new();
    app.set_file_count(2);
    app.navigate_to(9, 4);
    assert_eq!(app.selected_file_index(), 1);
    assert_eq!(app.preview_scroll(), 4);
}

#[test]
fn switches_mermaid_diagrams_between_rendered_and_source() {
    let mut app = App::new();
    app.set_file_count(3);
    app.update(AppEvent::MoveDown);
    assert_eq!(app.display_mode(), DisplayMode::Rendered);
    app.update(AppEvent::Input('m'));
    assert_eq!(app.display_mode(), DisplayMode::Source);
    assert_eq!(app.selected_file_index(), 1);
    assert_eq!(app.focus(), Focus::FileTree);
    app.update(AppEvent::Input('m'));
    assert_eq!(app.display_mode(), DisplayMode::Rendered);
    app.update(AppEvent::OpenPageSearch);
    app.update(AppEvent::Input('m'));
    assert_eq!(app.display_mode(), DisplayMode::Rendered);
    assert_eq!(app.query(), "m");
}

#[test]
fn kills_around_the_cursor_on_character_boundaries() {
    let mut app = App::new();
    app.update(AppEvent::OpenPageSearch);
    for c in ['日', '本', 'x', '語'] {
        app.update(AppEvent::Input(c));
    }
    app.update(AppEvent::CursorLeft);
    app.update(AppEvent::CursorLeft);
    assert_eq!(app.query_cursor(), 6);
    app.update(AppEvent::KillToEnd);
    assert_eq!(app.query(), "日本");
    assert_eq!(app.query_cursor(), 6);
    app.update(AppEvent::CursorLeft);
    assert_eq!(app.query_cursor(), 3);
    app.update(AppEvent::KillToStart);
    assert_eq!(app.query(), "本");
    assert_eq!(app.query_cursor(), 0);
    app.update(AppEvent::CursorEnd);
    assert_eq!(app.query_cursor(), 3);
    app.update(AppEvent::CursorRight);
    assert_eq!(app.query_cursor(), 3);
}
