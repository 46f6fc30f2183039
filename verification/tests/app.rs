use termirc::app::{App, Focus, MAX_INPUT, MAX_LINES};
use termirc::message::ChatMessage;

fn chat(server: &str, channel: &str, nick: &str, text: &str) -> ChatMessage {
    ChatMessage {
        server: server.to_string(),
        channel: channel.to_string(),
        nick: nick.to_string(),
        text: text.to_string(),
    }
}

fn msg(nick: &str, text: &str) -> ChatMessage {
    chat("srv", "#c", nick, text)
}

fn chan_msg(server: &str, channel: &str, text: &str) -> ChatMessage {
    chat(server, channel, "u", text)
}

#[test]
fn app_new_app_is_at_bottom_with_zero_offset() {
    let app = App::new(40, 10);

    assert_eq!(app.scroll_offset(), 0);
    assert!(app.is_at_bottom());
    assert!(app.is_running());
    assert_eq!(app.total_height(), 0);
}

#[test]
fn app_push_message_while_at_bottom_follows_to_new_max_offset() {
    // Arrange: viewport of 3 rows; each short message is 1 content row.
    let mut app = App::new(40, 3);

    // Act & Assert: after every push the viewport stays glued to the bottom.
    for i in 0..6 {
        app.push_message(msg("u", &format!("m{i}")));
        assert!(app.is_at_bottom(), "not at bottom after push {i}");
        assert_eq!(app.scroll_offset(), app.max_offset());
    }
    // 6 messages = 6 rows + 5 separators + 2 framing rows = 13 rows;
    // max offset = 13 - 3.
    assert_eq!(app.total_height(), 13);
    assert_eq!(app.scroll_offset(), 10);
}

#[test]
fn app_push_message_while_scrolled_up_keeps_offset_unchanged() {
    // Arrange: overflowing content, viewport scrolled to the top.
    let mut app = App::new(40, 3);
    for i in 0..5 {
        app.push_message(msg("u", &format!("m{i}")));
    }
    assert_eq!(app.max_offset(), 8);
    app.set_scroll_offset(0);
    assert!(!app.is_at_bottom());

    // Act
    app.push_message(msg("u", "new"));

    // Assert: newest message's last line was not visible -> view unmoved.
    assert_eq!(app.scroll_offset(), 0);
}

#[test]
fn app_push_message_with_last_line_exactly_visible_counts_as_at_bottom() {
    // Arrange: offset exactly at max — the last line is the bottom row.
    let mut app = App::new(40, 3);
    for i in 0..5 {
        app.push_message(msg("u", &format!("m{i}")));
    }
    app.set_scroll_offset(app.max_offset());
    assert_eq!(app.scroll_offset(), 8);

    // Act
    app.push_message(msg("u", "new"));

    // Assert: boundary counts as "at bottom" -> follows to the new max.
    assert_eq!(app.max_offset(), 10);
    assert_eq!(app.scroll_offset(), 10);
}

#[test]
fn app_content_smaller_than_viewport_always_at_bottom() {
    let mut app = App::new(40, 10);

    app.push_message(msg("u", "hi"));

    assert_eq!(app.max_offset(), 0);
    assert!(app.is_at_bottom());
    assert_eq!(app.scroll_offset(), 0);
}

#[test]
fn app_page_up_decrements_by_one_third_viewport() {
    // Arrange: viewport height 9 -> step 3; 8 messages -> 8 rows + 7
    // separators + 2 framing rows = 17 -> max offset 8.
    let mut app = App::new(40, 9);
    for i in 0..8 {
        app.push_message(msg("u", &format!("m{i}")));
    }
    assert_eq!(app.max_offset(), 8);

    // Act
    app.scroll_page_up();

    // Assert
    assert_eq!(app.scroll_offset(), 5);
}

#[test]
fn app_page_up_clamps_at_zero() {
    // Arrange
    let mut app = App::new(40, 9);
    for i in 0..8 {
        app.push_message(msg("u", &format!("m{i}")));
    }
    app.set_scroll_offset(1);

    // Act: step is 3, which would go below zero.
    app.scroll_page_up();

    // Assert
    assert_eq!(app.scroll_offset(), 0);
}

#[test]
fn app_page_down_clamps_at_max_offset() {
    // Arrange
    let mut app = App::new(40, 9);
    for i in 0..8 {
        app.push_message(msg("u", &format!("m{i}")));
    }
    app.set_scroll_offset(7);

    // Act: step 3 would exceed max offset 8.
    app.scroll_page_down();

    // Assert
    assert_eq!(app.scroll_offset(), 8);
}

#[test]
fn app_page_step_is_at_least_one_for_tiny_viewport() {
    // Arrange: height 2 -> 2/3 = 0, floored to a step of 1.
    let mut app = App::new(40, 2);
    for i in 0..5 {
        app.push_message(msg("u", &format!("m{i}")));
    }
    let start = app.max_offset();
    app.set_scroll_offset(start);

    // Act
    app.scroll_page_up();

    // Assert
    assert_eq!(app.scroll_offset(), start - 1);
}

#[test]
fn app_resize_while_at_bottom_stays_at_bottom() {
    // Arrange: 2 messages in a tall viewport, at the bottom.
    let mut app = App::new(40, 10);
    app.push_message(msg("alice", "hi"));
    app.push_message(msg("bob", "hiya"));
    assert!(app.is_at_bottom());

    // Act: narrow the window so both bodies wrap to 2 rows
    // (alice: indent 7 -> body width 1; bob: indent 5 -> body width 3, "hiya" splits).
    app.resize(8, 2);

    // Assert: still glued to the bottom, at the recomputed max.
    assert!(app.is_at_bottom());
    assert_eq!(app.scroll_offset(), app.max_offset());
    assert_eq!(app.total_height(), 7); // 2+2 rows + 1 separator + 2 framing
}

#[test]
fn app_resize_while_scrolled_up_preserves_offset_clamped() {
    // Arrange: 8 short messages -> height 17; with h=10 max offset is 7.
    let mut app = App::new(30, 10);
    for _ in 0..8 {
        app.push_message(msg("u", "x"));
    }
    app.set_scroll_offset(2);
    assert!(!app.is_at_bottom());

    // Act & Assert: growing the viewport shrinks max to 5, still >= 2.
    app.resize(30, 12);
    assert_eq!(app.max_offset(), 5);
    assert_eq!(app.scroll_offset(), 2);

    // Act & Assert: growing further shrinks max to 1 -> offset clamps down.
    app.resize(30, 16);
    assert_eq!(app.max_offset(), 1);
    assert_eq!(app.scroll_offset(), 1);
}

#[test]
fn app_quit_sets_running_false() {
    let mut app = App::new(40, 10);

    app.quit();

    assert!(!app.is_running());
}

#[test]
fn app_message_cap_drops_oldest_beyond_limit() {
    // Arrange: small cap so the test stays fast.
    let mut app = App::with_caps(40, 10, 3, MAX_LINES);

    // Act
    for i in 0..4 {
        app.push_message(msg("u", &format!("m{i}")));
    }

    // Assert: oldest ("m0") is gone, three remain.
    assert_eq!(app.messages().len(), 3);
    assert_eq!(app.messages().first().unwrap().text, "m1");
}

#[test]
fn line_cap_evicts_oldest_to_keep_height_bounded() {
    // Arrange: width 10 -> nick "u" takes 3 columns, body width 7;
    // "aa bb cc N" wraps into 2 rows, so n messages occupy 3n+1 rows
    // (with the framing separators). With a line cap of 8, at most 2
    // messages fit (3*2+1 = 7).
    let mut app = App::with_caps(10, 5, 1000, 8);

    // Act
    for i in 0..10 {
        app.push_message(msg("u", &format!("aa bb cc {i}")));
    }

    // Assert: height stays under the cap and the oldest were dropped.
    assert_eq!(app.total_height(), 7);
    assert_eq!(app.messages().len(), 2);
    assert_eq!(app.messages().first().unwrap().text, "aa bb cc 8");
}

#[test]
fn app_eviction_while_scrolled_up_keeps_offset_clamped() {
    // Arrange: exactly under the line cap, then scrolled to the top.
    let mut app = App::with_caps(10, 3, 1000, 11);
    for i in 0..3 {
        app.push_message(msg("u", &format!("aa bb cc {i}")));
    }
    assert_eq!(app.total_height(), 10);
    app.set_scroll_offset(0);
    assert!(!app.is_at_bottom());

    // Act: a fourth message forces eviction back down under the cap.
    app.push_message(msg("u", "aa bb cc 3"));

    // Assert: m0 evicted, height bounded, offset still valid and unmoved.
    assert_eq!(app.messages().first().unwrap().text, "aa bb cc 1");
    assert_eq!(app.total_height(), 10);
    assert!(app.scroll_offset() <= app.max_offset());
    assert_eq!(app.scroll_offset(), 0);
}

#[test]
fn app_type_char_inserts_at_cursor_and_advances() {
    // Arrange
    let mut app = App::new(40, 10);

    // Act
    app.type_char('h');
    app.type_char('i');

    // Assert
    assert_eq!(app.input(), "hi");
    assert_eq!(app.input_cursor(), 2);
}

#[test]
fn app_type_char_inserts_in_the_middle_at_cursor() {
    // Arrange
    let mut app = App::new(40, 10);
    app.type_char('a');
    app.type_char('c');
    app.cursor_left(); // cursor between a and c

    // Act
    app.type_char('b');

    // Assert
    assert_eq!(app.input(), "abc");
    assert_eq!(app.input_cursor(), 2);
}

#[test]
fn app_backspace_deletes_behind_cursor() {
    // Arrange
    let mut app = App::new(40, 10);
    app.type_char('h');
    app.type_char('i');

    // Act
    app.backspace();

    // Assert
    assert_eq!(app.input(), "h");
    assert_eq!(app.input_cursor(), 1);
}

#[test]
fn app_backspace_at_start_is_a_noop() {
    let mut app = App::new(40, 10);
    app.backspace();
    assert_eq!(app.input(), "");
    assert_eq!(app.input_cursor(), 0);
}

#[test]
fn app_delete_removes_char_at_cursor() {
    // Arrange
    let mut app = App::new(40, 10);
    app.type_char('a');
    app.type_char('b');
    app.type_char('c');
    app.cursor_home(); // cursor before 'a'

    // Act
    app.delete();

    // Assert
    assert_eq!(app.input(), "bc");
    assert_eq!(app.input_cursor(), 0);
}

#[test]
fn app_cursor_left_right_clamp_at_bounds() {
    let mut app = App::new(40, 10);
    app.type_char('a');
    app.type_char('b');
    // at end (2): left -> 1, left -> 0, left -> 0 (clamp)
    app.cursor_left();
    assert_eq!(app.input_cursor(), 1);
    app.cursor_left();
    assert_eq!(app.input_cursor(), 0);
    app.cursor_left();
    assert_eq!(app.input_cursor(), 0);
    // right -> 1, right -> 2, right -> 2 (clamp)
    app.cursor_right();
    assert_eq!(app.input_cursor(), 1);
    app.cursor_right();
    assert_eq!(app.input_cursor(), 2);
    app.cursor_right();
    assert_eq!(app.input_cursor(), 2);
}

#[test]
fn app_cursor_home_and_end() {
    let mut app = App::new(40, 10);
    app.type_char('a');
    app.type_char('b');
    app.type_char('c');
    app.cursor_home();
    assert_eq!(app.input_cursor(), 0);
    app.cursor_end();
    assert_eq!(app.input_cursor(), 3);
}

#[test]
fn app_type_beyond_max_input_is_capped() {
    // Arrange
    let mut app = App::new(40, 10);
    for _ in 0..(MAX_INPUT + 10) {
        app.type_char('x');
    }

    // Assert: never exceeds the cap; cursor sits at the end.
    assert_eq!(app.input().chars().count(), MAX_INPUT);
    assert_eq!(app.input_cursor(), MAX_INPUT);
}

#[test]
fn app_open_channel_registers_and_routes() {
    // Arrange
    let mut app = App::new(40, 10);
    app.open_channel("srv", "#osu");
    app.select_channel(0);

    // Act
    app.push_message(chan_msg("srv", "#osu", "hi"));

    // Assert
    assert_eq!(app.channel_count(), 1);
    assert_eq!(app.messages().len(), 1);
    assert_eq!(app.active_channel(), Some(("srv", "#osu")));
}

#[test]
fn app_open_channel_is_idempotent_ignoring_case() {
    let mut app = App::new(40, 10);
    app.open_channel("srv", "#osu");
    app.open_channel("srv", "#OSU");
    assert_eq!(app.channel_count(), 1);
}

#[test]
fn app_push_routes_to_channel_ignoring_case() {
    // Arrange
    let mut app = App::new(40, 10);
    app.open_channel("srv", "#osu");
    app.open_channel("srv", "#chinese");
    app.select_channel(0);

    // Act / Assert: "#OSU" from "SRV" hits the active #osu channel.
    app.push_message(chan_msg("SRV", "#OSU", "a"));
    assert_eq!(app.messages().len(), 1);
    // #chinese is background: its history grows, the view stays #osu.
    app.push_message(chan_msg("srv", "#chinese", "b"));
    assert_eq!(app.messages().len(), 1);
    app.select_channel(1);
    assert_eq!(app.messages().len(), 1);
}

#[test]
fn app_push_to_unopened_channel_is_dropped() {
    let mut app = App::new(40, 10);
    app.open_channel("srv", "#osu");
    app.push_message(chan_msg("srv", "#other", "x"));
    assert_eq!(app.messages().len(), 0);
}

#[test]
fn app_switching_channel_switches_history_and_back_preserves_scroll() {
    // Arrange
    let mut app = App::new(40, 3);
    app.open_channel("srv", "#a");
    app.open_channel("srv", "#b");
    app.select_channel(0);
    for i in 0..6 {
        app.push_message(chan_msg("srv", "#a", &format!("m{i}")));
    }
    app.scroll_page_up();
    let offset = app.scroll_offset();
    assert!(offset < app.max_offset());

    // Act
    app.select_channel(1);
    assert_eq!(app.active_channel().map(|(_, c)| c), Some("#b"));
    assert_eq!(app.messages().len(), 0);
    app.push_message(chan_msg("srv", "#b", "bee"));
    app.select_channel(0);

    // Assert: #a's history and scroll position are intact.
    assert_eq!(app.active_channel().map(|(_, c)| c), Some("#a"));
    assert_eq!(app.messages().len(), 6);
    assert_eq!(app.scroll_offset(), offset);
}

#[test]
fn app_background_push_leaves_active_layout_stable() {
    // Arrange
    let mut app = App::new(40, 3);
    app.open_channel("srv", "#a");
    app.open_channel("srv", "#b");
    app.select_channel(0);
    app.push_message(chan_msg("srv", "#a", "m"));
    let height = app.total_height();

    // Act: pushes to the background channel.
    for i in 0..5 {
        app.push_message(chan_msg("srv", "#b", &format!("b{i}")));
    }

    // Assert
    assert_eq!(app.total_height(), height);
}

#[test]
fn app_tab_cycles_sidebar_messages_composer() {
    let mut app = App::new(40, 10);
    app.open_channel("srv", "#a");

    // Fresh start: sidebar focused, no channel viewed.
    assert_eq!(app.focus(), Focus::Sidebar);
    assert_eq!(app.active_channel(), None);
    app.tab();
    assert_eq!(app.focus(), Focus::Messages);
    app.tab();
    assert_eq!(app.focus(), Focus::Composer);
    app.tab();
    assert_eq!(app.focus(), Focus::Sidebar);
}

#[test]
fn app_startup_focuses_sidebar_with_cursor_on_first_row() {
    // Fresh start: no channel open -> cursor on the first row.
    let mut app = App::new(40, 10);
    app.open_channel("srv", "#a");
    assert_eq!(app.focus(), Focus::Sidebar);
    assert_eq!(app.sidebar_cursor(), Some(0));
}

#[test]
fn app_tab_into_sidebar_snaps_cursor_to_active_channel_row() {
    // Arrange: open both channels, view #b (row 2), focus ends on Composer.
    let mut app = App::new(40, 10);
    app.open_channel("srv", "#a");
    app.open_channel("srv", "#b");
    app.select_channel(1); // view #b
    app.tab(); // Sidebar -> Messages
    app.tab(); // Messages -> Composer
    assert_eq!(app.focus(), Focus::Composer);

    // Act: tab back into the sidebar.
    app.tab();

    // Assert: the cursor sits on #b's row.
    assert_eq!(app.focus(), Focus::Sidebar);
    assert_eq!(app.sidebar_cursor(), Some(2));
}

#[test]
fn app_sidebar_jk_moves_cursor_and_clamps() {
    // Arrange: one server with two channels -> 3 visible rows.
    let mut app = App::new(40, 10);
    app.open_channel("srv", "#a");
    app.open_channel("srv", "#b");

    // Act / Assert (focus starts on the sidebar)
    app.sidebar_down();
    assert_eq!(app.sidebar_cursor(), Some(1));
    app.sidebar_down();
    assert_eq!(app.sidebar_cursor(), Some(2));
    app.sidebar_down();
    assert_eq!(app.sidebar_cursor(), Some(2)); // clamped
    app.sidebar_up();
    app.sidebar_up();
    app.sidebar_up();
    assert_eq!(app.sidebar_cursor(), Some(0)); // clamped
}

#[test]
fn app_sidebar_jk_ignored_when_sidebar_not_focused() {
    let mut app = App::new(40, 10);
    app.open_channel("srv", "#a");
    app.tab(); // Sidebar -> Messages: the sidebar is no longer focused
    let before = app.sidebar_cursor();
    app.sidebar_down();
    assert_eq!(app.sidebar_cursor(), before);
}

#[test]
fn sidebar_enter_on_server_row_toggles_collapse() {
    // Arrange: rows = [srv, #a, #b]
    let mut app = App::new(40, 10);
    app.open_channel("srv", "#a");
    app.open_channel("srv", "#b");

    // Act: collapse, then expand (focus starts on the sidebar).
    app.sidebar_enter();
    assert!(app.server_collapsed("srv"));
    assert_eq!(app.sidebar_rows().len(), 1); // only the server row remains
    app.sidebar_enter();
    assert!(!app.server_collapsed("srv"));
    assert_eq!(app.sidebar_rows().len(), 3);
}

#[test]
fn collapsing_keeps_cursor_on_the_server_row() {
    // Arrange: cursor on the server header row (row 0).
    let mut app = App::new(40, 10);
    app.open_channel("srv", "#a");
    app.open_channel("srv", "#b");
    assert_eq!(app.sidebar_cursor(), Some(0));

    // Act: collapse via Enter on the server row.
    app.sidebar_enter();

    // Assert: the cursor stays on the (now only) server row and is valid.
    assert_eq!(app.sidebar_rows().len(), 1);
    assert_eq!(app.sidebar_cursor(), Some(0));
}

#[test]
fn collapse_moves_a_cursor_stranded_past_the_end() {
    // Arrange: two servers [s1, #a, s2, #b]; cursor on #b (row 3), then
    // walk it back to s1's header (row 0) before collapsing s1.
    let mut app = App::new(40, 10);
    app.open_channel("s1", "#a");
    app.open_channel("s2", "#b");
    app.sidebar_down();
    app.sidebar_down();
    app.sidebar_down();
    assert_eq!(app.sidebar_cursor(), Some(3)); // on #b

    // Act: collapse s1 (cursor walked to its header at row 0).
    app.sidebar_up();
    app.sidebar_up();
    app.sidebar_up();
    app.sidebar_enter();

    // Assert: rows shrink to [s1, s2, #b]; the cursor is valid and clamped.
    assert_eq!(app.sidebar_rows().len(), 3);
    assert_eq!(app.sidebar_cursor(), Some(0));
}

#[test]
fn app_sidebar_enter_on_channel_switches_view_and_focuses_composer() {
    // Arrange: rows = [srv, #a, #b]; cursor on #b.
    let mut app = App::new(40, 10);
    app.open_channel("srv", "#a");
    app.open_channel("srv", "#b");
    app.push_message(chan_msg("srv", "#a", "hello a"));
    app.sidebar_down();
    app.sidebar_down();

    // Act
    app.sidebar_enter();

    // Assert: view switched to #b, focus returned to the composer.
    assert_eq!(app.active_channel(), Some(("srv", "#b")));
    assert_eq!(app.messages().len(), 0);
    assert_eq!(app.focus(), Focus::Composer);
    assert_eq!(app.sidebar_cursor(), None);
}

#[test]
fn app_no_selection_when_channel_is_empty() {
    let mut app = App::new(40, 10);
    app.open_channel("srv", "#a");
    app.tab();
    assert_eq!(app.focus(), Focus::Messages);
    assert_eq!(app.selected(), None);
}

#[test]
fn app_focusing_messages_selects_lowest_fully_visible() {
    // Arrange: 5 one-line messages in a 3-row viewport (total 11 rows,
    // max 8). Spans (framing row shifts everything down by one):
    // m0=(1) m1=(3) m2=(5) m3=(7) m4=(9); at the bottom (off=8) the only
    // fully-visible message is m4, so it is selected.
    let mut app = App::new(40, 3);
    app.open_channel("srv", "#a");
    app.select_channel(0);
    for i in 0..5 {
        app.push_message(chan_msg("srv", "#a", &format!("m{i}")));
    }
    assert_eq!(app.scroll_offset(), app.max_offset());

    // Act
    app.tab();

    // Assert
    assert_eq!(app.focus(), Focus::Messages);
    assert_eq!(app.selected(), Some(4));
    assert_eq!(app.selected_span(), Some((9, 1)));
}

#[test]
fn app_select_prev_moves_up_and_reveals_with_minimal_scroll() {
    // Arrange: as above, selected m4 (span (9,1)), offset 8.
    let mut app = App::new(40, 3);
    app.open_channel("srv", "#a");
    app.select_channel(0);
    for i in 0..5 {
        app.push_message(chan_msg("srv", "#a", &format!("m{i}")));
    }
    app.tab();
    assert_eq!(app.selected(), Some(4));

    // Act / Assert: each step scrolls up just enough to reveal the top of
    // the newly selected message (offset lands on its span start).
    app.select_prev(); // -> m3 (span 7)
    assert_eq!(app.selected(), Some(3));
    assert_eq!(app.scroll_offset(), 7);
    app.select_prev(); // -> m2 (span 5)
    assert_eq!(app.selected(), Some(2));
    assert_eq!(app.scroll_offset(), 5);
    app.select_prev(); // -> m1
    assert_eq!(app.selected(), Some(1));
    assert_eq!(app.scroll_offset(), 3);
    app.select_prev(); // -> m0
    assert_eq!(app.selected(), Some(0));
    assert_eq!(app.scroll_offset(), 1);
    app.select_prev(); // clamped at oldest
    assert_eq!(app.selected(), Some(0));
}

#[test]
fn app_select_next_moves_down_and_clamps_at_newest() {
    let mut app = App::new(40, 3);
    app.open_channel("srv", "#a");
    app.select_channel(0);
    for i in 0..5 {
        app.push_message(chan_msg("srv", "#a", &format!("m{i}")));
    }
    app.tab();
    for _ in 0..4 {
        app.select_prev();
    }
    assert_eq!(app.selected(), Some(0));

    app.select_next();
    assert_eq!(app.selected(), Some(1));
    app.select_next();
    assert_eq!(app.selected(), Some(2));
    // jump repeatedly past the end clamps at the newest, fully visible
    for _ in 0..10 {
        app.select_next();
    }
    assert_eq!(app.selected(), Some(4));
    let (start, height) = app.selected_span().unwrap();
    assert!(start >= app.scroll_offset());
    assert!(start + height <= app.scroll_offset() + 3);
}

#[test]
fn app_follow_is_paused_while_a_message_is_selected() {
    // Arrange
    let mut app = App::new(40, 3);
    app.open_channel("srv", "#a");
    app.select_channel(0);
    for i in 0..4 {
        app.push_message(chan_msg("srv", "#a", &format!("m{i}")));
    }
    app.tab();
    let selected = app.selected().unwrap();
    let offset = app.scroll_offset();

    // Act: a new message arrives while a message is selected.
    app.push_message(chan_msg("srv", "#a", "m4"));

    // Assert: neither the viewport nor the selection was disturbed.
    assert_eq!(app.scroll_offset(), offset);
    assert_eq!(app.selected(), Some(selected));
}

#[test]
fn app_selection_ignored_when_messages_not_focused() {
    // Arrange: selection changes are no-ops unless the message pane is focused.
    let mut app = App::new(40, 3);
    app.open_channel("srv", "#a");
    app.push_message(chan_msg("srv", "#a", "m0"));
    assert_eq!(app.focus(), Focus::Sidebar);

    // Act
    app.select_prev();
    app.select_next();

    // Assert
    assert_eq!(app.selected(), None);
}

#[test]
fn the_sidebar_cursor_is_there_only_with_the_focus() {
    let mut app = App::new(40, 10);
    app.open_channel("srv", "#a");
    assert_eq!(app.sidebar_cursor(), Some(0));
    app.tab();
    assert_eq!(app.focus(), Focus::Messages);
    assert_eq!(app.sidebar_cursor(), None);
    app.tab();
    assert_eq!(app.focus(), Focus::Composer);
    assert_eq!(app.sidebar_cursor(), None);
    app.tab();
    assert_eq!(app.focus(), Focus::Sidebar);
    assert_eq!(app.sidebar_cursor(), Some(1));
}

#[test]
fn rows_beyond_sixteen_bits_are_counted_as_far_as_that_goes() {
    let mut app = App::new(5, 3);
    app.push_message(msg("u", &"a".repeat(140_000)));
    assert_eq!(app.lines().len(), 70_002);
    assert_eq!(app.total_height(), u16::MAX);
    assert_eq!(app.max_offset(), u16::MAX - 3);
    assert_eq!(app.scroll_offset(), u16::MAX - 3);
    assert!(app.is_at_bottom());
    app.tab();
    assert_eq!(app.selected(), Some(0));
    assert_eq!(app.selected_span(), None);
    app.select_prev();
    assert_eq!(app.scroll_offset(), 1);
    app.push_message(msg("u", "short"));
    assert_eq!(app.messages().len(), 1);
    assert_eq!(app.selected(), Some(0));
    assert_eq!(app.total_height(), 5);
    assert_eq!(app.selected_span(), Some((1, 3)));
}

#[test]
fn the_selection_stays_on_its_message_until_that_is_dropped() {
    let mut app = App::with_caps(40, 10, 3, MAX_LINES);
    for i in 0..3 {
        app.push_message(msg("u", &format!("m{i}")));
    }
    app.tab();
    app.select_prev();
    assert_eq!(app.selected(), Some(1));
    app.push_message(msg("u", "m3"));
    assert_eq!(app.selected(), Some(0));
    assert_eq!(app.messages()[0].text, "m1");
    app.push_message(msg("u", "m4"));
    assert_eq!(app.selected(), Some(0));
    assert_eq!(app.messages()[0].text, "m2");
}
