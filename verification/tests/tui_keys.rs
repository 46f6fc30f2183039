use termirc::model::RoutedMessage;
use termirc::tui::events::{apply_key, key_action, screen, Key, KeyAction};
use termirc::tui::render::geometry;
use termirc::tui::view::{App, Focus};
use termirc::ui::Rect;

const ALL: [Focus; 3] = [Focus::Sidebar, Focus::Messages, Focus::Composer];

#[test]
fn some_keys_mean_the_same_everywhere() {
    for focus in ALL {
        assert_eq!(key_action(Key::Tab, false, focus), KeyAction::MoveFocus);
        assert_eq!(key_action(Key::PageUp, false, focus), KeyAction::PageUp);
        assert_eq!(key_action(Key::PageDown, false, focus), KeyAction::PageDown);
        assert_eq!(key_action(Key::Esc, false, focus), KeyAction::Quit);
        assert_eq!(key_action(Key::Char('c'), true, focus), KeyAction::Quit);
        assert_eq!(key_action(Key::Char('j'), true, focus), KeyAction::Nothing);
        assert_eq!(key_action(Key::Other, false, focus), KeyAction::Nothing);
    }
}

#[test]
fn letters_move_in_a_pane_and_are_typed_in_the_composer() {
    let typed = |c, focus| key_action(Key::Char(c), false, focus);
    assert_eq!(typed('j', Focus::Sidebar), KeyAction::SidebarDown);
    assert_eq!(typed('k', Focus::Sidebar), KeyAction::SidebarUp);
    assert_eq!(typed('j', Focus::Messages), KeyAction::SelectNext);
    assert_eq!(typed('k', Focus::Messages), KeyAction::SelectPrev);
    assert_eq!(typed('x', Focus::Messages), KeyAction::Nothing);
    assert_eq!(typed('x', Focus::Sidebar), KeyAction::Nothing);
    assert_eq!(typed('j', Focus::Composer), KeyAction::Type('j'));
    assert_eq!(typed('你', Focus::Composer), KeyAction::Type('你'));
    assert_eq!(typed('\u{7}', Focus::Composer), KeyAction::Nothing);
    assert_eq!(typed('\u{85}', Focus::Composer), KeyAction::Nothing);
}

#[test]
fn enter_and_editing_keys_depend_on_the_focus() {
    let meaning = |key, focus| key_action(key, false, focus);
    assert_eq!(meaning(Key::Enter, Focus::Sidebar), KeyAction::SidebarEnter);
    assert_eq!(meaning(Key::Enter, Focus::Messages), KeyAction::Nothing);
    assert_eq!(meaning(Key::Enter, Focus::Composer), KeyAction::Submit);
    for (key, action) in [
        (Key::Backspace, KeyAction::Backspace),
        (Key::Delete, KeyAction::Delete),
        (Key::Left, KeyAction::CursorLeft),
        (Key::Right, KeyAction::CursorRight),
        (Key::Home, KeyAction::CursorHome),
        (Key::End, KeyAction::CursorEnd),
    ] {
        assert_eq!(meaning(key, Focus::Composer), action);
        assert_eq!(meaning(key, Focus::Sidebar), KeyAction::Nothing);
        assert_eq!(meaning(key, Focus::Messages), KeyAction::Nothing);
    }
}

#[test]
fn keys_edit_the_draft_and_quit() {
    let mut app = App::new(40, 5);
    app.session.open_channel("srv", "#a");
    app.select_buffer(0);
    app.tab();
    app.tab();
    assert_eq!(app.focus(), Focus::Composer);
    for c in "helo".chars() {
        apply_key(&mut app, KeyAction::Type(c));
    }
    apply_key(&mut app, KeyAction::CursorLeft);
    apply_key(&mut app, KeyAction::Type('l'));
    assert_eq!(app.input(), "hello");
    apply_key(&mut app, KeyAction::CursorEnd);
    apply_key(&mut app, KeyAction::Backspace);
    apply_key(&mut app, KeyAction::CursorHome);
    apply_key(&mut app, KeyAction::Delete);
    assert_eq!(app.input(), "ell");
    assert!(app.is_running());
    apply_key(&mut app, KeyAction::Quit);
    assert!(!app.is_running());
}

#[test]
fn focus_returns_after_three_moves() {
    let mut app = App::new(40, 5);
    app.session.open_channel("srv", "#a");
    app.select_buffer(0);
    assert_eq!(app.focus(), Focus::Sidebar);
    apply_key(&mut app, KeyAction::MoveFocus);
    assert_eq!(app.focus(), Focus::Messages);
    apply_key(&mut app, KeyAction::MoveFocus);
    assert_eq!(app.focus(), Focus::Composer);
    apply_key(&mut app, KeyAction::MoveFocus);
    assert_eq!(app.focus(), Focus::Sidebar);
}

#[test]
fn screens_are_parted_for_a_conversation() {
    let mut app = App::new(40, 5);
    app.session.open_channel("srv", "#a");
    app.select_buffer(0);
    let regions = screen(&app, 80, 24);
    assert_eq!(
        regions.sidebar,
        Rect {
            x: 0,
            y: 0,
            width: 22,
            height: 24,
        }
    );
    assert_eq!(
        regions.messages,
        Rect {
            x: 26,
            y: 0,
            width: 52,
            height: 18,
        }
    );
    assert_eq!(
        regions.composer,
        Rect {
            x: 24,
            y: 18,
            width: 56,
            height: 4,
        }
    );
    assert_eq!(
        regions.input,
        Rect {
            x: 26,
            y: 19,
            width: 49,
            height: 1,
        }
    );
}

#[test]
fn clipped_composers_keep_the_row_of_the_cursor() {
    let text = "x".repeat(200);
    for height in 1..12 {
        for cursor in [0, 100, 200] {
            let regions = geometry(60, height, &text, cursor, true);
            let row = regions.input_layout.cursor_row;
            assert!(regions.first_input_line <= row);
            assert!(row < regions.first_input_line + regions.input.height as usize);
            assert!(regions.input.y + regions.input.height <= height);
        }
    }
}

#[test]
fn wide_characters_wrap_by_their_columns() {
    let regions = geometry(37, 20, "你好吗abc", 6, true);
    assert_eq!(regions.input.width, 6);
    let rows: Vec<&str> = regions
        .input_layout
        .lines
        .iter()
        .map(|line| line.text.as_str())
        .collect();
    assert_eq!(rows, ["你好吗", "abc"]);
    assert_eq!(regions.input_layout.cursor_row, 1);
    assert_eq!(regions.input_layout.cursor_column, 3);
}

#[test]
fn a_following_view_stays_at_the_newest_and_a_reading_one_where_it_was() {
    let mut app = App::new(40, 5);
    app.session.open_channel("srv", "#a");
    app.select_buffer(0);
    for i in 0..20 {
        app.push_message(RoutedMessage::chat("srv", "#a", "n", &format!("{i}")));
        assert!(app.is_at_bottom());
    }
    apply_key(&mut app, KeyAction::PageUp);
    let top = app.visible_lines()[0].body.clone();
    assert!(!app.is_at_bottom());
    app.push_message(RoutedMessage::chat("srv", "#a", "n", "new"));
    assert_eq!(app.visible_lines()[0].body, top);
}
