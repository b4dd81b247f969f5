use docsail::app::{App, AppEvent};
use docsail::event::{step, translate_event, KeyCode, KeyInput, KeyKind, TerminalEvent, CONTROL};

fn press(code: KeyCode, modifiers: u8) -> TerminalEvent {
    TerminalEvent::Key(KeyInput { code, modifiers, kind: KeyKind::Press })
}

#[test]
fn translates_initial_keybindings() {
    let cases = [
        (KeyCode::Char('j'), AppEvent::Input('j')),
        (KeyCode::Down, AppEvent::MoveDown),
        (KeyCode::Char('k'), AppEvent::Input('k')),
        (KeyCode::Up, AppEvent::MoveUp),
        (KeyCode::Enter, AppEvent::Activate),
        (KeyCode::Tab, AppEvent::ToggleFocus),
        (KeyCode::Char('r'), AppEvent::Reload),
        (KeyCode::Char('q'), AppEvent::Input('q')),
        (KeyCode::Char('['), AppEvent::Input('[')),
        (KeyCode::Char(']'), AppEvent::Input(']')),
        (KeyCode::Char('t'), AppEvent::Input('t')),
        (KeyCode::Char('f'), AppEvent::Input('f')),
        (KeyCode::Char('/'), AppEvent::Input('/')),
        (KeyCode::Char('m'), AppEvent::Input('m')),
    ];

    for (key_code, expected_event) in cases {
        assert_eq!(translate_event(press(key_code, 0)), Some(expected_event));
    }
}

#[test]
fn translates_emacs_style_search_editing_keys() {
    let cases = [
        ('a', AppEvent::CursorStart),
        ('e', AppEvent::CursorEnd),
        ('b', AppEvent::CursorLeft),
        ('f', AppEvent::CursorRight),
        ('d', AppEvent::DeleteForward),
        ('h', AppEvent::Backspace),
        ('k', AppEvent::KillToEnd),
        ('n', AppEvent::NextResult),
        ('p', AppEvent::PreviousResult),
        ('u', AppEvent::KillToStart),
    ];

    for (character, expected) in cases {
        assert_eq!(translate_event(press(KeyCode::Char(character), CONTROL)), Some(expected));
    }
}

#[test]
fn ignores_key_releases() {
    let key_event = KeyInput { code: KeyCode::Char('q'), modifiers: 0, kind: KeyKind::Release };

    assert_eq!(translate_event(TerminalEvent::Key(key_event)), None);
}

#[test]
fn translates_terminal_resize_events() {
    assert_eq!(translate_event(TerminalEvent::Resize(120, 40)), Some(AppEvent::Resize));
}

#[test]
fn ignores_unbound_control_chords_and_other_keys() {
    assert_eq!(translate_event(press(KeyCode::Char('z'), CONTROL)), None);
    assert_eq!(translate_event(press(KeyCode::Down, CONTROL)), None);
    assert_eq!(translate_event(press(KeyCode::Other, 0)), None);
    assert_eq!(translate_event(TerminalEvent::Other), None);
    assert_eq!(translate_event(press(KeyCode::Char('a'), CONTROL | 1)), Some(AppEvent::Input('a')));
    let repeat = KeyInput { code: KeyCode::Up, modifiers: 0, kind: KeyKind::Repeat };
    assert_eq!(translate_event(TerminalEvent::Key(repeat)), Some(AppEvent::MoveUp));
}

#[test]
fn redraws_until_the_quit_event() {
    let mut app = App::new();
    let mut draws = 1;
    for event in [AppEvent::Resize, AppEvent::MoveDown, AppEvent::Quit] {
        if step(&mut app, event) {
            draws += 1;
        }
    }
    assert_eq!(draws, 3);
    assert!(!app.is_running());
    assert_eq!(app.selected_file_index(), 1);
}

#[test]
fn redraws_after_each_tick() {
    let mut app = App::new();
    assert!(step(&mut app, AppEvent::Tick));
    assert!(!step(&mut app, AppEvent::Quit));
}
