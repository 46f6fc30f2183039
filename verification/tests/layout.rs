use termirc::layout::{
    input_line_count, layout_messages, message_spans, nick_column_width, wrap_body, LayoutLine,
};
use termirc::message::ChatMessage;
use unicode_width::UnicodeWidthStr;

fn msg(nick: &str, text: &str) -> ChatMessage {
    ChatMessage {
        server: "srv".to_string(),
        channel: "#c".to_string(),
        nick: nick.to_string(),
        text: text.to_string(),
    }
}

#[test]
fn short_message_produces_single_line_with_nick_and_zero_indent() {
    // Arrange
    let messages = vec![msg("alice", "hi")];

    // Act
    let lines = layout_messages(&messages, 40);

    // Assert: the message row is framed by a separator above and below.
    assert_eq!(lines.len(), 3);
    assert_eq!(
        lines[1],
        LayoutLine {
            indent: 0,
            nick: Some("alice".to_string()),
            body: "hi".to_string(),
        }
    );
    for framing in [lines.first().unwrap(), lines.last().unwrap()] {
        assert_eq!(
            framing,
            &LayoutLine {
                indent: 0,
                nick: None,
                body: String::new(),
            }
        );
    }
}

#[test]
fn empty_nick_renders_without_nick_column() {
    // Arrange: a status-style line (empty nick) whose 19-column body
    // fits one full-width row but would wrap under a 2-column indent.
    let messages = vec![msg("", &"a".repeat(19))];

    // Act
    let lines = layout_messages(&messages, 20);
    let spans = message_spans(&messages, 20);

    // Assert: one body row with no nick column and no indent, using the
    // full width (a 2-column nick indent would have hard-split it).
    assert_eq!(lines.len(), 3); // framing blank + body + framing blank
    assert_eq!(
        lines[1],
        LayoutLine {
            indent: 0,
            nick: None,
            body: "a".repeat(19),
        }
    );
    assert_eq!(spans, vec![(1, 1)]);
}

#[test]
fn empty_message_list_lays_out_to_no_rows() {
    // Arrange & Act
    let lines = layout_messages(&[], 40);
    let spans = message_spans(&[], 40);

    // Assert: no framing rows without messages.
    assert!(lines.is_empty());
    assert!(spans.is_empty());
}

#[test]
fn wrapped_continuation_starts_at_body_column() {
    // Arrange: nick "alice" -> indent 7; body width is 20 - 7 = 13.
    let messages = vec![msg("alice", "one two three four five")];

    // Act
    let lines = layout_messages(&messages, 20);

    // Assert: framing blank, then the two message rows.
    assert_eq!(lines.len(), 4);
    assert!(lines[0].body.is_empty() && lines[0].nick.is_none());
    assert_eq!(lines[1].nick, Some("alice".to_string()));
    assert_eq!(lines[1].indent, 0);
    assert_eq!(lines[1].body, "one two three");
    assert_eq!(lines[2].nick, None);
    assert_eq!(lines[2].indent, 7);
    assert_eq!(lines[2].body, "four five");
    assert!(7 + UnicodeWidthStr::width(lines[2].body.as_str()) <= 20);
    assert!(lines[3].body.is_empty() && lines[3].nick.is_none());
}

#[test]
fn separators_frame_the_list_and_separate_messages() {
    // Arrange
    let messages = vec![msg("a", "one"), msg("b", "two"), msg("c", "three")];

    // Act
    let lines = layout_messages(&messages, 40);

    // Assert: two separators between the three messages plus one framing
    // row at each end; first and last rows are the framing blanks.
    let blanks = lines
        .iter()
        .filter(|l| l.nick.is_none() && l.body.is_empty())
        .count();
    assert_eq!(blanks, 4);
    assert!(lines.first().unwrap().body.is_empty());
    assert!(lines.last().unwrap().body.is_empty());
    assert_eq!(lines[1].nick, Some("a".to_string()));
    assert_eq!(lines[3].nick, Some("b".to_string()));
    assert_eq!(lines[5].nick, Some("c".to_string()));
}

#[test]
fn total_height_equals_message_lines_plus_separators() {
    // Arrange: nick "a" -> indent 3, body width 9 at window width 12.
    // Message 1 wraps to 3 lines ("one two" / "three" / "four five"),
    // message 2 wraps to 2 lines ("six seven" / "eight").
    let messages = vec![
        msg("a", "one two three four five"),
        msg("b", "six seven eight"),
    ];

    // Act
    let lines = layout_messages(&messages, 12);

    // Assert: 3 + 2 lines + 1 separator + 2 framing rows = 8.
    assert_eq!(lines.len(), 8);
}

#[test]
fn cjk_fullwidth_chars_count_as_two_columns() {
    // Arrange & Act & Assert: five CJK chars are exactly 10 columns.
    assert_eq!(wrap_body("一二三四五", 10), vec!["一二三四五"]);
    // Six CJK chars (12 cols) wrap after the fifth.
    assert_eq!(wrap_body("一二三四五六", 10), vec!["一二三四五", "六"]);
}

#[test]
fn two_col_char_that_does_not_fit_moves_to_next_line() {
    // Arrange: width 4; after "abc" (3 cols) only 1 column remains,
    // too little for a 2-column char — it must move down, not overflow.

    // Act
    let lines = wrap_body("abc一二", 4);

    // Assert
    assert_eq!(lines, vec!["abc".to_string(), "一二".to_string()]);
}

#[test]
fn long_unbroken_word_is_hard_split() {
    // Act & Assert
    assert_eq!(wrap_body("abcdefgh", 4), vec!["abcd", "efgh"]);
}

#[test]
fn width_too_small_falls_back_to_one_column_body() {
    // Arrange: very long nick, tiny window -> body width clamps to 1.
    let messages = vec![msg("verylongnick", "ab cd")];

    // Act
    let lines = layout_messages(&messages, 2);

    // Assert: every body is at most 1 column and nothing panicked.
    assert!(!lines.is_empty());
    for line in &lines {
        assert!(UnicodeWidthStr::width(line.body.as_str()) <= 1);
    }
}

#[test]
fn empty_text_produces_one_empty_body_line() {
    // Act & Assert
    assert_eq!(wrap_body("", 10), vec!["".to_string()]);
}

#[test]
fn nick_indent_uses_unicode_width() {
    // "中文" is 4 columns, plus ": " makes 6.
    assert_eq!(nick_column_width("中文"), 6);
    assert_eq!(nick_column_width("alice"), 7);
}

#[test]
fn fullwidth_char_at_width_one_produces_no_phantom_blank_line() {
    // Arrange: a 2-column char can never fit in a 1-column line; it must
    // overflow in place rather than emitting an empty row first.

    // Act & Assert
    assert_eq!(wrap_body("一", 1), vec!["一".to_string()]);
    assert_eq!(
        wrap_body("中文", 1),
        vec!["中".to_string(), "文".to_string()]
    );
}

#[test]
fn input_line_count_empty_is_one_line() {
    assert_eq!(input_line_count("", 0, 10), 1);
}

#[test]
fn input_line_count_short_is_one_line() {
    assert_eq!(input_line_count("hi", 2, 10), 1);
}

#[test]
fn input_line_count_wraps_to_multiple_lines() {
    // 5 chars at width 2 -> ceil(5/2) = 3 lines (cursor not at a full-line end).
    assert_eq!(input_line_count("abcde", 5, 2), 3);
    // 4 chars at width 2 -> 2 lines when the cursor is not at the end.
    assert_eq!(input_line_count("abcd", 2, 2), 2);
}

#[test]
fn input_line_count_cursor_at_end_of_full_line_adds_a_line() {
    // 4 chars fill exactly 2 lines (width 2); the cursor at the end (index 4)
    // needs its own line -> 3 lines.
    assert_eq!(input_line_count("abcd", 4, 2), 3);
    // Cursor before the end does not add a line.
    assert_eq!(input_line_count("abcd", 3, 2), 2);
}

#[test]
fn input_line_count_zero_width_falls_back_to_one_column() {
    // Width 0 clamps to 1 column per line (cursor not at end, so no extra line).
    assert_eq!(input_line_count("abc", 0, 0), 3);
}

#[test]
fn message_spans_account_for_separator_rows() {
    // Arrange: three one-line messages -> 3 rows + 2 separators + 2 framing
    // rows = 7 rows.
    let messages = vec![msg("a", "one"), msg("b", "two"), msg("c", "three")];

    // Act
    let spans = message_spans(&messages, 40);

    // Assert: each message is one row; the leading framing row shifts every
    // span down by one.
    assert_eq!(spans, vec![(1, 1), (3, 1), (5, 1)]);
    assert_eq!(layout_messages(&messages, 40).len(), 7);
}

#[test]
fn message_spans_height_matches_wrapped_lines() {
    // Arrange: nick "alice" -> indent 7, body width 11; message wraps to 2 rows.
    let messages = vec![msg("alice", "one two three four five")];

    // Act
    let spans = message_spans(&messages, 20);

    // Assert: one span with height 2 below the framing row; the trailing
    // framing row makes the layout 4 rows tall.
    assert_eq!(spans, vec![(1, 2)]);
    assert_eq!(layout_messages(&messages, 20).len(), 4);
}

#[test]
fn message_spans_total_matches_layout_messages_len() {
    // Arrange
    let messages = vec![
        msg("alice", "one two three four five"),
        msg("bob", "short"),
        msg("carol", "another longer message over here"),
    ];

    // Act
    let spans = message_spans(&messages, 24);
    let total: u16 = spans.last().map(|&(s, h)| s + h).unwrap_or(0);

    // Assert: the trailing framing row adds one row past the last span end.
    assert_eq!(total as usize + 1, layout_messages(&messages, 24).len());
}

#[test]
fn input_rows_are_counted_in_columns() {
    assert_eq!(input_line_count("一二三四五六七八九十", 10, 13), 2);
    assert_eq!(input_line_count("一二三四五六七八九十", 10, 20), 2);
    assert_eq!(input_line_count("一二三四五六七八九十", 9, 20), 1);
    assert_eq!(input_line_count("一二三", 0, 1), 3);
}

#[test]
fn rows_hold_words_while_they_fit_to_the_column() {
    assert_eq!(wrap_body("ab cd ef", 5), vec!["ab cd", "ef"]);
    assert_eq!(wrap_body("ab cde fg", 5), vec!["ab", "cde", "fg"]);
    assert_eq!(wrap_body("abcdefg hi", 4), vec!["abcd", "efg", "hi"]);
    assert_eq!(wrap_body("abcdef hi", 5), vec!["abcde", "f hi"]);
    assert_eq!(wrap_body("a\tb  c", 3), vec!["a b", "c"]);
}

#[test]
fn spans_reach_the_last_row_of_sixteen_bits() {
    let full = message_spans(&[msg("", &"a".repeat(65_534))], 1);
    assert_eq!(full, [(1, 65_534)]);
}
