use std::collections::VecDeque;

use termirc::history::HistoryStore;
use termirc::model::{BufferId, Message, MessageContent, MessageId};
use termirc::tui::layout::{Anchor, LayoutCache};

/// A conversation of these texts.
fn messages(texts: &[&str]) -> VecDeque<Message> {
    let mut history = HistoryStore::new(100);
    for text in texts {
        history.append(BufferId(1), MessageContent::chat("al", text));
    }
    history.messages(BufferId(1)).clone()
}

fn laid(texts: &[&str], width: u16) -> LayoutCache {
    let mut cache = LayoutCache::default();
    cache.sync(&messages(texts), width);
    cache
}

fn bodies(cache: &LayoutCache, offset: usize, height: usize) -> Vec<String> {
    cache
        .visible_lines(offset, height)
        .into_iter()
        .map(|line| line.body)
        .collect()
}

#[test]
fn rows_belong_to_their_messages_and_separators_to_none() {
    // Rows: separator, "one", separator, "two three", separator.
    let cache = laid(&["one", "two three"], 20);
    assert_eq!(cache.total_height(), 5);
    assert_eq!(cache.message_at(0), None);
    assert_eq!(cache.message_at(1), Some(0));
    assert_eq!(cache.message_at(2), None);
    assert_eq!(cache.message_at(3), Some(1));
    assert_eq!(cache.message_at(4), None);
    assert_eq!(cache.message_at(99), None);
    assert_eq!(cache.span(MessageId(2)), Some((3, 1)));
    assert_eq!(cache.span(MessageId(9)), None);
    assert_eq!(bodies(&cache, 1, 3), ["one", "", "two three"]);
    assert_eq!(bodies(&cache, 4, 3), [""]);
}

#[test]
fn anchors_find_their_rows_again() {
    let cache = laid(&["one", "two", "three"], 20);
    for row in 0..cache.total_height() {
        assert_eq!(cache.resolve_anchor(cache.anchor(row)), Some(row));
    }
    assert_eq!(cache.anchor(0), Some(Anchor::Above(MessageId(1))));
    assert_eq!(cache.anchor(3), Some(Anchor::Row(MessageId(2), 0)));
    assert_eq!(cache.anchor(6), Some(Anchor::Below(MessageId(3))));
    assert_eq!(LayoutCache::default().anchor(0), None);
}

#[test]
fn anchors_survive_additions_and_other_widths() {
    let before = laid(&["one", "aa bb cc dd", "three"], 9);
    let row = before.span(MessageId(2)).unwrap().0 + 1;
    let anchor = before.anchor(row);
    let more = laid(&["one", "aa bb cc dd", "three", "four"], 9);
    assert_eq!(more.resolve_anchor(anchor), Some(row));
    let wide = laid(&["one", "aa bb cc dd", "three"], 40);
    let found = wide.resolve_anchor(anchor).unwrap();
    assert_eq!(wide.message_at(found), Some(1));
    let gone = laid(&["one"], 9);
    assert_eq!(gone.resolve_anchor(anchor), None);
    assert_eq!(gone.resolve_anchor(None), None);
}

#[test]
fn the_last_message_that_fits_is_found() {
    let cache = laid(&["one", "two", "three"], 20);
    assert_eq!(cache.last_fully_visible(0, 4), Some(MessageId(2)));
    assert_eq!(cache.last_fully_visible(2, 3), None);
    assert_eq!(cache.last_fully_visible(0, 100), Some(MessageId(3)));
}

#[test]
fn pruning_text_changes_no_row() {
    let texts: Vec<String> = (0..50).map(|i| format!("message number {i}")).collect();
    let texts: Vec<&str> = texts.iter().map(String::as_str).collect();
    let mut cache = laid(&texts, 14);
    let rows = bodies(&cache, 0, cache.total_height());
    let measured = cache.measurements();
    cache.prune(10, 5, 3);
    assert_eq!(bodies(&cache, 0, cache.total_height()), rows);
    assert_eq!(cache.measurements(), measured);
}

#[test]
fn only_new_messages_are_measured_and_every_one_at_another_width() {
    let mut cache = LayoutCache::default();
    cache.sync(&messages(&["one", "two"]), 20);
    assert_eq!(cache.measurements(), 2);
    cache.sync(&messages(&["one", "two", "three"]), 20);
    assert_eq!(cache.measurements(), 3);
    cache.sync(&messages(&["one", "two", "three"]), 21);
    assert_eq!(cache.measurements(), 6);
}
