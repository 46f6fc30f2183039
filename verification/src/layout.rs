//! Message layout: word wrapping by display width with indented continuations.
//!
//! A message becomes one or more [`LayoutLine`]s. The first carries the nickname
//! and the first stretch of the body; the others are indented so that the body
//! starts in the same column. Between two messages stands one blank separator,
//! and one more frames the list above the first and below the last message. An
//! empty list lays out to no rows.

use vstd::prelude::*;

use crate::columns::{
    columns, columns_of, lemma_span_push, plain, printable, span, text_columns, text_width,
};
use crate::message::{ChatMessage, ChatMessageView};
use crate::text;
use crate::tui::input::{input_layout, InputLayout};

verus! {

#[verifier::ext_equal]
pub ghost struct LayoutLineView {
    pub indent: u16,
    pub nick: Option<Seq<char>>,
    pub body: Seq<char>,
}

/// One row of the message list. A separator has neither nickname nor body.
#[derive(Debug, PartialEq, Eq)]
pub struct LayoutLine {
    /// Leading spaces before the body of a continuation row.
    pub indent: u16,
    /// The nickname, on the first row of a message that has one.
    pub nick: Option<String>,
    pub body: String,
}

impl View for LayoutLine {
    type V = LayoutLineView;

    open spec fn view(&self) -> LayoutLineView {
        LayoutLineView { indent: self.indent, nick: self.nick.deep_view(), body: self.body@ }
    }
}

impl DeepView for LayoutLine {
    type V = LayoutLineView;

    open spec fn deep_view(&self) -> LayoutLineView {
        self@
    }
}

impl Clone for LayoutLine {
    fn clone(&self) -> (copy: Self)
        ensures
            copy == *self,
    {
        LayoutLine {
            indent: self.indent,
            nick: text::copied(&self.nick),
            body: self.body.clone(),
        }
    }
}

impl LayoutLineView {
    pub open spec fn separator() -> LayoutLineView {
        LayoutLineView { indent: 0, nick: None, body: Seq::empty() }
    }
}

impl LayoutLine {
    pub fn separator() -> (line: Self)
        ensures
            line@ == LayoutLineView::separator(),
    {
        let line = LayoutLine { indent: 0, nick: None, body: String::new() };
        assert(line@.body =~= Seq::empty());
        line
    }
}

/// The columns of a nickname and the ": " behind it, as far as they can be counted.
pub open spec fn nick_columns(nick: Seq<char>) -> u16 {
    if text_columns(nick) + 2 > u16::MAX {
        u16::MAX
    } else {
        (text_columns(nick) + 2) as u16
    }
}

/// Display columns taken by the nickname column: the nickname and ": ".
pub fn nick_column_width(nick: &str) -> (width: u16)
    ensures
        width == nick_columns(nick@),
{
    let width: usize = text_width(nick);
    if width > 65533 {
        65535
    } else {
        width as u16 + 2
    }
}

/// Rows under construction: those that are done, and the one that is open.
#[verifier::ext_equal]
pub ghost struct WrapView {
    pub lines: Seq<Seq<char>>,
    pub current: Seq<char>,
    pub columns: nat,
}

impl WrapView {
    pub open spec fn empty() -> WrapView {
        WrapView { lines: Seq::empty(), current: Seq::empty(), columns: 0 }
    }

    /// The open row is done, and the next one is open.
    pub open spec fn broken(self) -> WrapView {
        WrapView { lines: self.lines.push(self.current), current: Seq::empty(), columns: 0 }
    }

    /// A character goes to the open row if it fits there or the row is empty.
    pub open spec fn place_char(self, c: char, width: nat) -> WrapView {
        let row = if self.columns + columns(c) > width && self.current.len() > 0 {
            self.broken()
        } else {
            self
        };
        WrapView { current: row.current.push(c), columns: row.columns + columns(c), ..row }
    }

    pub open spec fn place_chars(self, chars: Seq<char>, width: nat) -> WrapView
        decreases chars.len(),
    {
        if chars.len() == 0 {
            self
        } else {
            self.place_chars(chars.drop_last(), width).place_char(chars.last(), width)
        }
    }

    /// A word goes to the open row if it fits behind a space there, and to the
    /// next one otherwise. One that is wider than a row is split up.
    pub open spec fn place_word(self, word: Seq<char>, width: nat) -> WrapView {
        let taken = text_columns(word) as nat;
        if taken > width {
            let row = if self.current.len() > 0 {
                self.broken()
            } else {
                self
            };
            row.place_chars(word, width)
        } else if self.current.len() == 0 {
            WrapView { current: word, columns: taken, ..self }
        } else if self.columns + 1 + taken <= width {
            WrapView {
                current: self.current.push(' ') + word,
                columns: self.columns + 1 + taken,
                ..self
            }
        } else {
            WrapView { current: word, columns: taken, ..self.broken() }
        }
    }

    pub open spec fn place_words(self, words: Seq<Seq<char>>, width: nat) -> WrapView
        decreases words.len(),
    {
        if words.len() == 0 {
            self
        } else {
            self.place_words(words.drop_last(), width).place_word(words.last(), width)
        }
    }

    /// All rows; there is always one.
    pub open spec fn finished(self) -> Seq<Seq<char>> {
        if self.current.len() > 0 || self.lines.len() == 0 {
            self.lines.push(self.current)
        } else {
            self.lines
        }
    }
}

/// The text in rows of at most `width` columns: words are packed greedily, and a
/// word that is wider than a row is split by characters.
pub open spec fn wrapped(text: Seq<char>, width: nat) -> Seq<Seq<char>> {
    WrapView::empty().place_words(
        text::words(text),
        if width < 1 {
            1
        } else {
            width
        },
    ).finished()
}

struct Wrap {
    lines: Vec<String>,
    current: String,
    columns: usize,
}

impl View for Wrap {
    type V = WrapView;

    closed spec fn view(&self) -> WrapView {
        WrapView {
            lines: self.lines.deep_view(),
            current: self.current@,
            columns: self.columns as nat,
        }
    }
}

impl Wrap {
    spec fn bounded(&self, width: usize) -> bool {
        &&& 1 <= width <= u16::MAX
        &&& self.columns <= width + 3
        &&& self@.current.len() == 0 ==> self.columns == 0
    }

    fn new() -> (wrap: Self)
        ensures
            wrap@ == WrapView::empty(),
            wrap.columns == 0,
    {
        let wrap = Wrap { lines: Vec::new(), current: String::new(), columns: 0 };
        assert(wrap@.lines =~= Seq::empty());
        assert(wrap@.current =~= Seq::empty());
        wrap
    }

    /// Open the next row.
    fn break_row(&mut self)
        ensures
            final(self)@ == old(self)@.broken(),
            final(self).columns == 0,
    {
        let ghost before = self@;
        let mut row = String::new();
        assert(row@ =~= Seq::empty());
        std::mem::swap(&mut row, &mut self.current);
        self.lines.push(row);
        self.columns = 0;
        assert(self@.lines =~= before.lines.push(before.current));
    }

    fn place_char(&mut self, c: char, width: usize)
        requires
            old(self).bounded(width),
        ensures
            final(self).bounded(width),
            final(self)@ == old(self)@.place_char(c, width as nat),
    {
        let taken: usize = columns_of(c);
        if self.columns + taken > width && !self.current.as_str().is_empty() {
            self.break_row();
        }
        let ghost before = self@;
        self.current.push(c);
        self.columns = self.columns + taken;
        assert(self@.lines == before.lines);
    }

    fn place_word(&mut self, word: &str, width: usize)
        requires
            old(self).bounded(width),
            word@.len() > 0,
        ensures
            final(self).bounded(width),
            final(self)@.current.len() > 0,
            final(self)@ == old(self)@.place_word(word@, width as nat),
    {
        let ghost before = self@;
        let taken: usize = text_width(word);
        if taken > width {
            if !self.current.as_str().is_empty() {
                self.break_row();
            }
            let ghost row = self@;
            let chars = text::chars_of(word);
            let mut i: usize = 0;
            assert(word@.take(0) =~= Seq::empty());
            while i < chars.len()
                invariant
                    chars@ == word@,
                    i <= chars.len(),
                    self.bounded(width),
                    i > 0 ==> self@.current.len() > 0,
                    self@ == row.place_chars(word@.take(i as int), width as nat),
                decreases chars.len() - i,
            {
                proof {
                    let next = word@.take(i + 1);
                    assert(next.drop_last() =~= word@.take(i as int));
                    assert(next.last() == word@[i as int]);
                }
                self.place_char(chars[i], width);
                i = i + 1;
            }
            assert(word@.take(i as int) =~= word@);
        } else if self.current.as_str().is_empty() {
            self.current = word.to_owned();
            self.columns = taken;
            assert(self@.lines == before.lines);
        } else if self.columns + 1 + taken <= width {
            self.current.push(' ');
            self.current.append(word);
            self.columns = self.columns + 1 + taken;
            assert(self@.lines == before.lines);
        } else {
            self.break_row();
            let ghost broken = self@;
            self.current = word.to_owned();
            self.columns = taken;
            assert(self@.lines == broken.lines);
        }
    }
}

/// Wrap `text` into rows of at most `width` display columns. An empty text gives
/// one empty row, and a width of no column counts as one.
pub fn wrap_body(text: &str, width: u16) -> (lines: Vec<String>)
    ensures
        lines.deep_view() == wrapped(text@, width as nat),
{
    let width: usize = if width < 1 {
        1
    } else {
        width as usize
    };
    let words = text::words_of(text);
    proof {
        text::lemma_words(text@);
    }
    let mut wrap = Wrap::new();
    let mut i: usize = 0;
    let ghost all = words.deep_view();
    assert(all.take(0) =~= Seq::empty());
    while i < words.len()
        invariant
            i <= words.len(),
            all == words.deep_view(),
            all == text::words(text@),
            forall|j: int| 0 <= j < all.len() ==> (#[trigger] all[j]).len() > 0,
            wrap.bounded(width),
            wrap@ == WrapView::empty().place_words(all.take(i as int), width as nat),
        decreases words.len() - i,
    {
        proof {
            let next = all.take(i + 1);
            assert(next.drop_last() =~= all.take(i as int));
            assert(next.last() == words@[i as int]@);
            assert(all[i as int].len() > 0);
        }
        wrap.place_word(words[i].as_str(), width);
        i = i + 1;
    }
    assert(all.take(i as int) =~= all);
    if !wrap.current.as_str().is_empty() || wrap.lines.len() == 0 {
        wrap.break_row();
    }
    wrap.lines
}

impl WrapView {
    /// How many rows there are so far.
    spec fn rows(self) -> nat {
        self.lines.len() + (if self.current.len() > 0 {
            1nat
        } else {
            0nat
        })
    }

    proof fn lemma_place_chars(self, chars: Seq<char>, width: nat)
        ensures
            self.place_chars(chars, width).rows() <= self.rows() + chars.len(),
        decreases chars.len(),
    {
        if chars.len() > 0 {
            self.lemma_place_chars(chars.drop_last(), width);
        }
    }

    proof fn lemma_place_words(self, words: Seq<Seq<char>>, width: nat)
        requires
            forall|i: int| 0 <= i < words.len() ==> (#[trigger] words[i]).len() > 0,
        ensures
            self.place_words(words, width).rows() <= self.rows() + text::total_len(words),
        decreases words.len(),
    {
        if words.len() > 0 {
            let placed = self.place_words(words.drop_last(), width);
            self.lemma_place_words(words.drop_last(), width);
            let word = words.last();
            assert(word.len() > 0);
            if text_columns(word) > width {
                let row = if placed.current.len() > 0 {
                    placed.broken()
                } else {
                    placed
                };
                row.lemma_place_chars(word, width);
            }
        }
    }
}

/// A text takes at least one row, and at most one more than it has characters.
pub proof fn lemma_wrapped_rows(text: Seq<char>, width: nat)
    ensures
        1 <= wrapped(text, width).len() <= text.len() + 1,
{
    let width = if width < 1 {
        1
    } else {
        width
    };
    text::lemma_words(text);
    WrapView::empty().lemma_place_words(text::words(text), width);
}

/// What is said, and by whom.
#[verifier::ext_equal]
pub ghost struct Said {
    pub nick: Seq<char>,
    pub text: Seq<char>,
}

impl Said {
    /// Where the body starts on every row but the first.
    pub open spec fn indent(self, width: u16) -> u16 {
        if self.nick.len() == 0 || width == 0 {
            0
        } else if nick_columns(self.nick) < width {
            nick_columns(self.nick)
        } else {
            (width - 1) as u16
        }
    }

    /// The stretches of the body, one for each row.
    pub open spec fn chunks(self, width: u16) -> Seq<Seq<char>> {
        wrapped(self.text, (width - self.indent(width)) as nat)
    }

    pub open spec fn height(self, width: u16) -> nat {
        self.chunks(width).len()
    }

    /// One row of the message.
    pub open spec fn line(self, row: int, width: u16) -> LayoutLineView {
        if row == 0 {
            LayoutLineView {
                indent: 0,
                nick: if self.nick.len() == 0 {
                    None
                } else {
                    Some(self.nick)
                },
                body: self.chunks(width)[0],
            }
        } else {
            LayoutLineView {
                indent: self.indent(width),
                nick: None,
                body: self.chunks(width)[row],
            }
        }
    }

    pub open spec fn lines(self, width: u16) -> Seq<LayoutLineView> {
        Seq::new(self.height(width), |row: int| self.line(row, width))
    }
}

pub open spec fn said(message: ChatMessageView) -> Said {
    Said { nick: message.nick, text: message.text }
}

/// The row on which message `index` starts, below the frame and the earlier
/// messages with a separator behind each.
pub open spec fn start_row(messages: Seq<Said>, index: int, width: u16) -> nat
    decreases index,
{
    if index <= 0 {
        1
    } else {
        start_row(messages, index - 1, width) + messages[index - 1].height(width) + 1
    }
}

/// The rows of all messages, with the frame around them.
pub open spec fn total_rows(messages: Seq<Said>, width: u16) -> nat {
    if messages.len() == 0 {
        0
    } else {
        start_row(messages, messages.len() as int, width)
    }
}

/// The frame above, and every message with a separator behind it.
pub open spec fn framed(messages: Seq<Said>, width: u16) -> Seq<LayoutLineView>
    decreases messages.len(),
{
    if messages.len() == 0 {
        seq![LayoutLineView::separator()]
    } else {
        framed(messages.drop_last(), width) + messages.last().lines(width).push(
            LayoutLineView::separator(),
        )
    }
}

/// All rows of a message list.
pub open spec fn laid_out(messages: Seq<Said>, width: u16) -> Seq<LayoutLineView> {
    if messages.len() == 0 {
        Seq::empty()
    } else {
        framed(messages, width)
    }
}

/// The rows of the earlier messages do not depend on the later ones.
pub proof fn lemma_start_row_prefix(a: Seq<Said>, b: Seq<Said>, index: int, width: u16)
    requires
        0 <= index <= a.len(),
        index <= b.len(),
        forall|i: int| 0 <= i < index ==> a[i] == b[i],
    ensures
        start_row(a, index, width) == start_row(b, index, width),
    decreases index,
{
    if index > 0 {
        lemma_start_row_prefix(a, b, index - 1, width);
    }
}

/// Later messages start on later rows.
pub proof fn lemma_start_rows_grow(messages: Seq<Said>, i: int, j: int, width: u16)
    requires
        0 <= i < j <= messages.len(),
    ensures
        start_row(messages, i, width) + messages[i].height(width) + 1 <= start_row(
            messages,
            j,
            width,
        ),
    decreases j - i,
{
    if i + 1 < j {
        lemma_start_rows_grow(messages, i, j - 1, width);
    }
}

proof fn lemma_framed_len(messages: Seq<Said>, width: u16)
    ensures
        framed(messages, width).len() == start_row(messages, messages.len() as int, width),
    decreases messages.len(),
{
    if messages.len() > 0 {
        let earlier = messages.drop_last();
        lemma_framed_len(earlier, width);
        lemma_start_row_prefix(earlier, messages, earlier.len() as int, width);
    }
}

/// The spans of the messages count the rows that laying them out gives: a list
/// takes as many rows as its last message's end and the frame below it.
pub proof fn law_layout_has_the_counted_rows(messages: Seq<Said>, width: u16)
    ensures
        laid_out(messages, width).len() == total_rows(messages, width),
        messages.len() > 0 ==> total_rows(messages, width) == start_row(
            messages,
            messages.len() - 1,
            width,
        ) + messages.last().height(width) + 1,
{
    lemma_framed_len(messages, width);
}

/// Row `row` of message `index` is laid out where its span says, with a separator
/// directly above and below the message.
pub proof fn law_spans_locate_rows(messages: Seq<Said>, index: int, row: int, width: u16)
    requires
        0 <= index < messages.len(),
        0 <= row < messages[index].height(width),
    ensures
        ({
            let rows = laid_out(messages, width);
            let start = start_row(messages, index, width);
            &&& start + messages[index].height(width) < rows.len()
            &&& rows[start + row] == messages[index].line(row, width)
            &&& rows[start - 1] == LayoutLineView::separator()
            &&& rows[(start + messages[index].height(width)) as int] == LayoutLineView::separator()
        }),
    decreases messages.len(),
{
    lemma_framed_len(messages, width);
    lemma_wrapped_rows(
        messages[index].text,
        (width - messages[index].indent(width)) as nat,
    );
    let earlier = messages.drop_last();
    lemma_framed_len(earlier, width);
    lemma_start_row_prefix(earlier, messages, earlier.len() as int, width);
    if index < earlier.len() {
        law_spans_locate_rows(earlier, index, row, width);
        lemma_start_row_prefix(earlier, messages, index, width);
        lemma_start_rows_grow(messages, index, earlier.len() as int, width);
    } else {
        lemma_last_is_separator(earlier, width);
    }
}

proof fn lemma_last_is_separator(messages: Seq<Said>, width: u16)
    ensures
        framed(messages, width).len() > 0,
        framed(messages, width).last() == LayoutLineView::separator(),
{
}

/// Where the body of a message by `nick` starts on continuation rows.
fn indent_of(nick: &str, text: &str, width: u16) -> (indent: u16)
    ensures
        indent == (Said { nick: nick@, text: text@ }).indent(width),
        indent <= width,
{
    if nick.is_empty() || width == 0 {
        0
    } else {
        let column: u16 = nick_column_width(nick);
        if column < width {
            column
        } else {
            width - 1
        }
    }
}

/// The stretches of a message's body, one for each row.
pub fn message_chunks(nick: &str, text: &str, width: u16) -> (chunks: Vec<String>)
    ensures
        chunks.deep_view() == (Said { nick: nick@, text: text@ }).chunks(width),
        1 <= chunks.len() <= text@.len() + 1,
{
    let indent: u16 = indent_of(nick, text, width);
    proof {
        lemma_wrapped_rows(text@, (width - indent) as nat);
    }
    let chunks = wrap_body(text, width - indent);
    assert(chunks.deep_view().len() == chunks.len());
    chunks
}

/// One row of a message from its stretch of the body.
pub fn message_line(nick: &str, text: &str, chunk: &str, row: usize, width: u16) -> (line:
    LayoutLine)
    requires
        row < (Said { nick: nick@, text: text@ }).height(width),
        chunk@ == (Said { nick: nick@, text: text@ }).chunks(width)[row as int],
    ensures
        line@ == (Said { nick: nick@, text: text@ }).line(row as int, width),
{
    if row == 0 {
        LayoutLine {
            indent: 0,
            nick: if nick.is_empty() {
                None
            } else {
                Some(nick.to_owned())
            },
            body: chunk.to_owned(),
        }
    } else {
        LayoutLine { indent: indent_of(nick, text, width), nick: None, body: chunk.to_owned() }
    }
}

/// What is said in a list of messages.
pub open spec fn all_said(messages: Seq<ChatMessageView>) -> Seq<Said> {
    messages.map_values(|m: ChatMessageView| said(m))
}

/// The rows of each message, as its first row and their number.
pub(crate) fn row_spans(messages: &[ChatMessage], width: u16) -> (spans: Vec<(usize, usize)>)
    requires
        total_rows(all_said(messages.deep_view()), width) <= usize::MAX,
    ensures
        spans.len() == messages.len(),
        forall|i: int|
            0 <= i < messages.len() ==> {
                let all = all_said(messages.deep_view());
                &&& (#[trigger] spans[i]).0 == start_row(all, i, width)
                &&& spans[i].1 == all[i].height(width)
            },
{
    let ghost all = all_said(messages.deep_view());
    let mut spans: Vec<(usize, usize)> = Vec::new();
    let mut row: usize = 1;
    let mut i: usize = 0;
    while i < messages.len()
        invariant
            i <= messages.len(),
            all == all_said(messages.deep_view()),
            total_rows(all, width) <= usize::MAX,
            row == start_row(all, i as int, width),
            spans.len() == i,
            forall|j: int|
                0 <= j < i ==> {
                    &&& (#[trigger] spans[j]).0 == start_row(all, j, width)
                    &&& spans[j].1 == all[j].height(width)
                },
        decreases messages.len() - i,
    {
        proof {
            lemma_start_rows_grow(all, i as int, all.len() as int, width);
            assert(all[i as int] == said(messages@[i as int]@));
        }
        let chunks = message_chunks(messages[i].nick.as_str(), messages[i].text.as_str(), width);
        assert(chunks.deep_view().len() == chunks.len());
        let height: usize = chunks.len();
        spans.push((row, height));
        row = row + height + 1;
        i = i + 1;
    }
    spans
}

/// The row span of each message, as its first row and its height. The rows have
/// 16-bit numbers, down to the frame below the last message.
pub fn message_spans(messages: &[ChatMessage], width: u16) -> (spans: Vec<(u16, u16)>)
    requires
        total_rows(all_said(messages.deep_view()), width) <= u16::MAX + 1,
    ensures
        spans.len() == messages.len(),
        forall|i: int|
            0 <= i < messages.len() ==> {
                let all = all_said(messages.deep_view());
                &&& (#[trigger] spans[i]).0 == start_row(all, i, width)
                &&& spans[i].1 == all[i].height(width)
            },
{
    let ghost all = all_said(messages.deep_view());
    let wide = row_spans(messages, width);
    let mut spans: Vec<(u16, u16)> = Vec::new();
    let mut i: usize = 0;
    while i < wide.len()
        invariant
            i <= wide.len() == all.len(),
            total_rows(all, width) <= u16::MAX + 1,
            spans.len() == i,
            forall|j: int|
                0 <= j < all.len() ==> {
                    &&& (#[trigger] wide[j]).0 == start_row(all, j, width)
                    &&& wide[j].1 == all[j].height(width)
                },
            forall|j: int|
                0 <= j < i ==> {
                    &&& (#[trigger] spans[j]).0 == start_row(all, j, width)
                    &&& spans[j].1 == all[j].height(width)
                },
        decreases wide.len() - i,
    {
        proof {
            lemma_start_rows_grow(all, i as int, all.len() as int, width);
        }
        let (start, height): (usize, usize) = wide[i];
        spans.push((start as u16, height as u16));
        i = i + 1;
    }
    spans
}

/// Lay out all messages for a viewport of `width` columns.
pub fn layout_messages(messages: &[ChatMessage], width: u16) -> (lines: Vec<LayoutLine>)
    ensures
        lines.deep_view() == laid_out(all_said(messages.deep_view()), width),
{
    let ghost all = all_said(messages.deep_view());
    let mut lines: Vec<LayoutLine> = Vec::new();
    if messages.len() == 0 {
        assert(lines.deep_view() =~= Seq::empty());
        return lines;
    }
    lines.push(LayoutLine::separator());
    assert(lines.deep_view() =~= seq![LayoutLineView::separator()]);
    let mut i: usize = 0;
    assert(all.take(0) =~= Seq::empty());
    while i < messages.len()
        invariant
            i <= messages.len(),
            all == all_said(messages.deep_view()),
            lines.deep_view() == framed(all.take(i as int), width),
        decreases messages.len() - i,
    {
        let ghost before = lines.deep_view();
        let ghost one = all[i as int];
        assert(one == said(messages@[i as int]@));
        let nick = messages[i].nick.as_str();
        let text = messages[i].text.as_str();
        let chunks = message_chunks(nick, text, width);
        let mut row: usize = 0;
        assert(before + one.lines(width).take(0) =~= before);
        while row < chunks.len()
            invariant
                row <= chunks.len(),
                one == (Said { nick: nick@, text: text@ }),
                chunks.deep_view() == one.chunks(width),
                lines.deep_view() == before + one.lines(width).take(row as int),
            decreases chunks.len() - row,
        {
            let ghost sofar = lines.deep_view();
            assert(chunks@[row as int]@ == chunks.deep_view()[row as int]);
            let line = message_line(nick, text, chunks[row].as_str(), row, width);
            lines.push(line);
            proof {
                assert(lines.deep_view() =~= sofar.push(line@));
                assert(one.lines(width).take(row + 1) =~= one.lines(width).take(row as int).push(
                    line@,
                ));
                assert(lines.deep_view() =~= before + one.lines(width).take(row + 1));
            }
            row = row + 1;
        }
        let ghost sofar = lines.deep_view();
        lines.push(LayoutLine::separator());
        proof {
            assert(one.lines(width).take(row as int) =~= one.lines(width));
            assert(lines.deep_view() =~= sofar.push(LayoutLineView::separator()));
            let next = all.take(i + 1);
            assert(next.drop_last() =~= all.take(i as int));
            assert(next.last() == one);
            assert(lines.deep_view() =~= before + one.lines(width).push(
                LayoutLineView::separator(),
            ));
        }
        i = i + 1;
    }
    assert(all.take(i as int) =~= all);
    lines
}

/// Rows that the input takes when it is broken into rows of `width` display
/// columns, with the row that a cursor behind a full last row gets of its own.
pub fn input_line_count(text: &str, cursor: usize, width: u16) -> (count: usize)
    ensures
        count == input_layout(text@, cursor as int, width as int).lines.len(),
{
    InputLayout::new(text, cursor, width).lines.len()
}

/// The characters of a text that are not blank.
pub open spec fn visible(s: Seq<char>) -> Seq<char>
    decreases s.len(),
{
    if s.len() == 0 {
        Seq::empty()
    } else if s.last() == ' ' || text::whitespace(s.last()) {
        visible(s.drop_last())
    } else {
        visible(s.drop_last()).push(s.last())
    }
}

/// Texts one behind the other.
pub open spec fn joined(parts: Seq<Seq<char>>) -> Seq<char>
    decreases parts.len(),
{
    if parts.len() == 0 {
        Seq::empty()
    } else {
        joined(parts.drop_last()) + parts.last()
    }
}

proof fn lemma_visible_sum(a: Seq<char>, b: Seq<char>)
    ensures
        visible(a + b) == visible(a) + visible(b),
    decreases b.len(),
{
    if b.len() == 0 {
        assert(a + b =~= a);
        assert(visible(a) + visible(b) =~= visible(a));
    } else {
        lemma_visible_sum(a, b.drop_last());
        assert((a + b).drop_last() =~= a + b.drop_last());
        assert((a + b).last() == b.last());
        assert(visible(a) + visible(b.drop_last()).push(b.last()) =~= (visible(a) + visible(
            b.drop_last(),
        )).push(b.last()));
    }
}

impl WrapView {
    /// Everything placed so far.
    spec fn all(self) -> Seq<char> {
        joined(self.lines) + self.current
    }

    proof fn lemma_broken_keeps(self)
        ensures
            self.broken().all() == self.all(),
    {
        assert(self.lines.push(self.current).drop_last() =~= self.lines);
        assert(self.broken().all() =~= self.all());
    }

    proof fn lemma_chars_kept(self, chars: Seq<char>, width: nat)
        ensures
            self.place_chars(chars, width).all() == self.all() + chars,
        decreases chars.len(),
    {
        if chars.len() == 0 {
            assert(self.all() + chars =~= self.all());
        } else {
            self.lemma_chars_kept(chars.drop_last(), width);
            let placed = self.place_chars(chars.drop_last(), width);
            placed.lemma_broken_keeps();
            assert(self.place_chars(chars, width).all() =~= placed.all().push(chars.last()));
            assert(placed.all().push(chars.last()) =~= self.all() + chars);
        }
    }

    proof fn lemma_words_kept(self, words: Seq<Seq<char>>, width: nat)
        ensures
            visible(self.place_words(words, width).all()) == visible(self.all()) + visible(
                joined(words),
            ),
        decreases words.len(),
    {
        if words.len() == 0 {
            assert(visible(self.all()) + visible(joined(words)) =~= visible(self.all()));
        } else {
            self.lemma_words_kept(words.drop_last(), width);
            let placed = self.place_words(words.drop_last(), width);
            let word = words.last();
            let after = placed.place_word(word, width);
            placed.lemma_broken_keeps();
            lemma_visible_sum(placed.all(), word);
            lemma_visible_sum(joined(words.drop_last()), word);
            let row = if placed.current.len() > 0 {
                placed.broken()
            } else {
                placed
            };
            row.lemma_chars_kept(word, width);
            let spaced = placed.all().push(' ');
            lemma_visible_sum(spaced, word);
            assert(spaced.drop_last() =~= placed.all());
            if text_columns(word) > width {
                assert(after.all() == placed.all() + word);
            } else if placed.current.len() == 0 {
                assert(after.all() =~= placed.all() + word);
            } else if placed.columns + 1 + text_columns(word) <= width {
                assert(after.all() =~= spaced + word);
            } else {
                assert(after.all() =~= placed.all() + word) by {
                    assert(placed.broken().all() =~= joined(placed.broken().lines));
                }
            }
            assert(visible(after.all()) =~= visible(placed.all()) + visible(word));
            assert((visible(self.all()) + visible(joined(words.drop_last()))) + visible(word)
                =~= visible(self.all()) + (visible(joined(words.drop_last())) + visible(word)));
        }
    }
}

proof fn lemma_blank_is_not_visible(s: Seq<char>)
    requires
        forall|i: int| 0 <= i < s.len() ==> text::whitespace(#[trigger] s[i]),
    ensures
        visible(s) == Seq::<char>::empty(),
    decreases s.len(),
{
    if s.len() > 0 {
        lemma_blank_is_not_visible(s.drop_last());
    }
}

proof fn lemma_joined_first(first: Seq<char>, rest: Seq<Seq<char>>)
    ensures
        joined(seq![first] + rest) == first + joined(rest),
    decreases rest.len(),
{
    let all = seq![first] + rest;
    if rest.len() == 0 {
        assert(all =~= seq![first]);
        reveal_with_fuel(joined, 2);
        assert(all.drop_last() =~= Seq::empty());
        assert(joined(all) =~= first + joined(rest));
    } else {
        lemma_joined_first(first, rest.drop_last());
        assert(all.drop_last() =~= seq![first] + rest.drop_last());
        assert(joined(all) =~= first + joined(rest));
    }
}

proof fn lemma_words_are_visible(s: Seq<char>)
    ensures
        visible(joined(text::words(s))) == visible(s),
    decreases s.len(),
{
    let rest = text::trim_start(s);
    text::lemma_trim_start(s);
    let blank = s.take(s.len() - rest.len());
    lemma_blank_start(s);
    lemma_blank_is_not_visible(blank);
    lemma_visible_sum(blank, rest);
    assert(blank + rest =~= s);
    assert(visible(s) =~= visible(rest));
    if rest.len() > 0 {
        text::lemma_first_word(rest);
        let first = text::first_word(rest);
        let later = text::after_first_word(rest);
        assert(first == seq![rest[0]] + text::first_word(rest.drop_first()));
        lemma_words_are_visible(later);
        lemma_joined_first(first, text::words(later));
        lemma_visible_sum(first, joined(text::words(later)));
        lemma_visible_sum(first, later);
        assert(first + later =~= rest);
    }
}

proof fn lemma_blank_start(s: Seq<char>)
    ensures
        forall|i: int|
            0 <= i < s.len() - text::trim_start(s).len() ==> text::whitespace(#[trigger] s[i]),
    decreases s.len(),
{
    if s.len() > 0 && text::whitespace(s[0]) {
        lemma_blank_start(s.drop_first());
        assert forall|i: int| 0 <= i < s.len() - text::trim_start(s).len() implies text::whitespace(
            #[trigger] s[i],
        ) by {
            if i > 0 {
                assert(s[i] == s.drop_first()[i - 1]);
            }
        }
    }
}

/// Wrapping loses and reorders no character of a text that is not blank.
pub proof fn law_wrapping_keeps_every_visible_character(text: Seq<char>, width: nat)
    ensures
        visible(joined(wrapped(text, width))) == visible(text),
{
    let columns = if width < 1 {
        1
    } else {
        width
    };
    let words = text::words(text);
    let placed = WrapView::empty().place_words(words, columns);
    WrapView::empty().lemma_words_kept(words, columns);
    lemma_words_are_visible(text);
    assert(WrapView::empty().all() =~= Seq::empty());
    assert(placed.lines.push(placed.current).drop_last() =~= placed.lines);
    assert(joined(wrapped(text, width)) =~= placed.all());
    assert(Seq::<char>::empty() + visible(joined(words)) =~= visible(joined(words)));
}

/// Words, each behind a blank.
pub open spec fn trailed(words: Seq<Seq<char>>) -> Seq<char>
    decreases words.len(),
{
    if words.len() == 0 {
        Seq::empty()
    } else {
        trailed(words.drop_last()).push(' ') + words.last()
    }
}

/// The columns of words, each behind a blank.
pub open spec fn trailed_columns(words: Seq<Seq<char>>) -> nat
    decreases words.len(),
{
    if words.len() == 0 {
        0
    } else {
        trailed_columns(words.drop_last()) + 1 + text_columns(words.last())
    }
}

/// A row that begins with `first`, a word or a piece of one, and goes on with the
/// words of `rest`. Words are measured whole, and a piece by its characters.
pub open spec fn made_of(
    row: Seq<char>,
    count: nat,
    first: Seq<char>,
    rest: Seq<Seq<char>>,
) -> bool {
    &&& row == first + trailed(rest)
    &&& count == text_columns(first) + trailed_columns(rest) || count == span(first)
        + trailed_columns(rest)
}

/// A row takes this many columns, as its words and pieces are measured.
pub open spec fn row_takes(row: Seq<char>, count: nat) -> bool {
    exists|first: Seq<char>, rest: Seq<Seq<char>>| made_of(row, count, first, rest)
}

/// A row within the width, or of a single character.
pub open spec fn fits(row: Seq<char>, width: nat) -> bool {
    exists|count: nat| #[trigger] row_takes(row, count) && (count <= width || row.len() == 1)
}

impl WrapView {
    spec fn packed(self, width: nat) -> bool {
        &&& forall|i: int| 0 <= i < self.lines.len() ==> fits(#[trigger] self.lines[i], width)
        &&& row_takes(self.current, self.columns)
        &&& self.columns <= width || self.current.len() == 1
        &&& self.current.len() == 0 ==> self.columns == 0
    }

    proof fn lemma_empty_packed(width: nat)
        ensures
            WrapView::empty().packed(width),
    {
        let none = Seq::<char>::empty();
        assert(none + trailed(Seq::empty()) =~= none);
        assert(made_of(none, 0, none, Seq::empty()));
    }

    proof fn lemma_broken_packed(self, width: nat)
        requires
            self.packed(width),
        ensures
            self.broken().packed(width),
    {
        WrapView::lemma_empty_packed(width);
        let after = self.broken();
        assert forall|i: int| 0 <= i < after.lines.len() implies fits(
            #[trigger] after.lines[i],
            width,
        ) by {
            if i < self.lines.len() {
                assert(after.lines[i] == self.lines[i]);
            } else {
                assert(row_takes(self.current, self.columns));
            }
        }
    }

    /// A word that is split up leaves a piece of itself in the open row.
    proof fn lemma_chars_packed(self, chars: Seq<char>, width: nat)
        requires
            self.packed(width),
            self.current.len() == 0,
        ensures
            self.place_chars(chars, width).packed(width),
            self.place_chars(chars, width).columns == span(
                self.place_chars(chars, width).current,
            ),
        decreases chars.len(),
    {
        if chars.len() > 0 {
            let placed = self.place_chars(chars.drop_last(), width);
            let c = chars.last();
            self.lemma_chars_packed(chars.drop_last(), width);
            placed.lemma_broken_packed(width);
            let row = if placed.columns + columns(c) > width && placed.current.len() > 0 {
                placed.broken()
            } else {
                placed
            };
            lemma_span_push(row.current, c);
            let after = self.place_chars(chars, width);
            assert(after.current + trailed(Seq::empty()) =~= after.current);
            assert(made_of(after.current, after.columns, after.current, Seq::empty()));
        } else {
            assert(span(self.current) == 0);
        }
    }

    proof fn lemma_word_packed(self, word: Seq<char>, width: nat)
        requires
            self.packed(width),
            word.len() > 0,
        ensures
            self.place_word(word, width).packed(width),
    {
        let taken = text_columns(word);
        let after = self.place_word(word, width);
        self.lemma_broken_packed(width);
        assert(word + trailed(Seq::empty()) =~= word);
        assert(made_of(word, taken, word, Seq::empty()));
        if taken > width {
            let row = if self.current.len() > 0 {
                self.broken()
            } else {
                self
            };
            row.lemma_chars_packed(word, width);
        } else if self.current.len() > 0 && self.columns + 1 + taken <= width {
            let (first, rest) = choose|first: Seq<char>, rest: Seq<Seq<char>>|
                made_of(self.current, self.columns, first, rest);
            let more = rest.push(word);
            assert(more.drop_last() =~= rest);
            assert(first + trailed(more) =~= (first + trailed(rest)).push(' ') + word);
            assert(made_of(after.current, after.columns, first, more));
        }
    }

    proof fn lemma_words_packed(self, words: Seq<Seq<char>>, width: nat)
        requires
            self.packed(width),
            forall|i: int| 0 <= i < words.len() ==> (#[trigger] words[i]).len() > 0,
        ensures
            self.place_words(words, width).packed(width),
        decreases words.len(),
    {
        if words.len() > 0 {
            self.lemma_words_packed(words.drop_last(), width);
            assert(words.last().len() > 0);
            self.place_words(words.drop_last(), width).lemma_word_packed(words.last(), width);
        }
    }

    /// Every row so far is of printable ASCII, and no longer than the width.
    spec fn plainly(self, width: nat) -> bool {
        &&& forall|i: int|
            0 <= i < self.lines.len() ==> plain(#[trigger] self.lines[i]) && self.lines[i].len()
                <= width
        &&& plain(self.current)
        &&& self.columns == self.current.len() <= width
    }

    proof fn lemma_chars_plainly(self, chars: Seq<char>, width: nat)
        requires
            1 <= width,
            self.plainly(width),
            plain(chars),
        ensures
            self.place_chars(chars, width).plainly(width),
        decreases chars.len(),
    {
        if chars.len() > 0 {
            assert(plain(chars.drop_last()));
            assert(printable(chars[chars.len() - 1]));
            self.lemma_chars_plainly(chars.drop_last(), width);
        }
    }

    proof fn lemma_words_plainly(self, words: Seq<Seq<char>>, width: nat)
        requires
            1 <= width,
            self.plainly(width),
            forall|i: int| 0 <= i < words.len() ==> plain(#[trigger] words[i]),
        ensures
            self.place_words(words, width).plainly(width),
        decreases words.len(),
    {
        if words.len() > 0 {
            self.lemma_words_plainly(words.drop_last(), width);
            let placed = self.place_words(words.drop_last(), width);
            let word = words.last();
            assert(plain(word));
            if text_columns(word) > width {
                let row = if placed.current.len() > 0 {
                    placed.broken()
                } else {
                    placed
                };
                row.lemma_chars_plainly(word, width);
            }
        }
    }
}

/// No row is wider than asked, as its words and pieces are measured, unless it
/// holds a single character.
pub proof fn law_rows_keep_to_the_width(text: Seq<char>, width: nat, row: int)
    requires
        0 <= row < wrapped(text, width).len(),
    ensures
        fits(
            wrapped(text, width)[row],
            if width < 1 {
                1
            } else {
                width
            },
        ),
{
    let wide = if width < 1 {
        1
    } else {
        width
    };
    text::lemma_words(text);
    WrapView::lemma_empty_packed(wide);
    let done = WrapView::empty().place_words(text::words(text), wide);
    WrapView::empty().lemma_words_packed(text::words(text), wide);
    if row >= done.lines.len() {
        assert(row_takes(done.current, done.columns));
    }
}

/// The rows of words of printable ASCII have no more characters than the width.
pub proof fn law_plain_rows_keep_to_the_width(text: Seq<char>, width: nat, row: int)
    requires
        1 <= width,
        forall|i: int| 0 <= i < text::words(text).len() ==> plain(#[trigger] text::words(text)[i]),
        0 <= row < wrapped(text, width).len(),
    ensures
        wrapped(text, width)[row].len() <= width,
        text_columns(wrapped(text, width)[row]) == wrapped(text, width)[row].len(),
{
    WrapView::empty().lemma_words_plainly(text::words(text), width);
}

impl WrapView {
    proof fn lemma_one_row(words: Seq<Seq<char>>, width: nat)
        requires
            words.len() > 0,
            forall|i: int|
                0 <= i < words.len() ==> plain(#[trigger] words[i]) && words[i].len() > 0,
            text::spaced(words).len() <= width,
        ensures
            WrapView::empty().place_words(words, width) == (WrapView {
                lines: Seq::empty(),
                current: text::spaced(words),
                columns: text::spaced(words).len(),
            }),
        decreases words.len(),
    {
        let last = words.last();
        let rest = words.drop_last();
        assert(last == words[words.len() - 1]);
        if rest.len() > 0 {
            assert forall|i: int| 0 <= i < rest.len() implies plain(#[trigger] rest[i])
                && rest[i].len() > 0 by {
                assert(rest[i] == words[i]);
            }
            WrapView::lemma_one_row(rest, width);
            assert(text::spaced(rest).len() > 0) by {
                if rest.len() == 1 {
                    assert(rest[0].len() > 0);
                }
            }
        } else {
            assert(WrapView::empty().place_words(rest, width) == WrapView::empty());
        }
    }

    proof fn lemma_long_word(word: Seq<char>, width: nat, n: int)
        requires
            plain(word),
            1 <= width,
            0 <= n <= word.len() <= 2 * width,
        ensures
            WrapView::empty().place_chars(word.take(n), width) == (if n <= width {
                WrapView { lines: Seq::empty(), current: word.take(n), columns: n as nat }
            } else {
                WrapView {
                    lines: seq![word.take(width as int)],
                    current: word.subrange(width as int, n),
                    columns: (n - width) as nat,
                }
            }),
        decreases n,
    {
        if n > 0 {
            WrapView::lemma_long_word(word, width, n - 1);
            assert(word.take(n).drop_last() =~= word.take(n - 1));
            assert(word.take(n).last() == word[n - 1]);
            assert(printable(word[n - 1]));
            let before = WrapView::empty().place_chars(word.take(n - 1), width);
            let after = before.place_char(word[n - 1], width);
            if n <= width {
                assert(after.current =~= word.take(n));
            } else if n == width + 1 {
                assert(after.lines =~= seq![word.take(width as int)]);
                assert(after.current =~= word.subrange(width as int, n));
            } else {
                assert(after.current =~= word.subrange(width as int, n));
            }
        } else {
            assert(word.take(0) =~= Seq::empty());
        }
    }
}

/// Words share a row, with one space between each two, as long as they fit; the word
/// that does not fit begins the next row; and without words there is one empty row.
pub proof fn law_words_share_rows(text: Seq<char>, words: Seq<Seq<char>>, word: Seq<char>, width: nat)
    requires
        1 <= width,
        forall|i: int| 0 <= i < words.len() ==> plain(#[trigger] words[i]) && words[i].len() > 0,
        plain(word),
        0 < word.len() <= width,
        text::spaced(words).len() <= width,
    ensures
        text::words(text).len() == 0 ==> wrapped(text, width) == seq![Seq::<char>::empty()],
        words.len() > 0 && text::words(text) == words ==> wrapped(text, width) == seq![
            text::spaced(words),
        ],
        words.len() > 0 && text::words(text) == words.push(word) && text::spaced(words).len() + 1
            + word.len() > width ==> wrapped(text, width) == seq![text::spaced(words), word],
        words.len() > 0 && text::words(text) == words.push(word) && text::spaced(words).len() + 1
            + word.len() <= width ==> wrapped(text, width) == seq![
            text::spaced(words) + seq![' '] + word,
        ],
{
    if text::words(text).len() == 0 {
        assert(WrapView::empty().place_words(text::words(text), width) == WrapView::empty());
        assert(wrapped(text, width) =~= seq![Seq::<char>::empty()]);
    }
    if words.len() > 0 {
        WrapView::lemma_one_row(words, width);
        assert(text::spaced(words).len() > 0) by {
            assert(words[0].len() > 0);
        }
        assert(words.push(word).drop_last() =~= words);
        let placed = WrapView::empty().place_words(words, width);
        if text::words(text) == words {
            assert(wrapped(text, width) =~= seq![text::spaced(words)]);
        } else if text::words(text) == words.push(word) {
            if text::spaced(words).len() + 1 + word.len() > width {
                assert(wrapped(text, width) =~= seq![text::spaced(words), word]);
            } else {
                let row = text::spaced(words).push(' ') + word;
                assert(row =~= text::spaced(words) + seq![' '] + word);
                assert(wrapped(text, width) =~= seq![row]);
            }
        }
    }
}

/// A word that is wider than a row is split where the row is full.
pub proof fn law_long_words_are_split(text: Seq<char>, word: Seq<char>, width: nat)
    requires
        1 <= width,
        plain(word),
        width < word.len() <= 2 * width,
        text::words(text) == seq![word],
    ensures
        wrapped(text, width) == seq![word.take(width as int), word.skip(width as int)],
{
    WrapView::lemma_long_word(word, width, word.len() as int);
    assert(word.take(word.len() as int) =~= word);
    assert(seq![word].drop_last() =~= Seq::empty());
    assert(WrapView::empty().place_words(Seq::empty(), width) == WrapView::empty());
    reveal_with_fuel(WrapView::place_words, 2);
    assert(word.subrange(width as int, word.len() as int) =~= word.skip(width as int));
    assert(wrapped(text, width) =~= seq![word.take(width as int), word.skip(width as int)]);
}

/// A message begins with the name of its sender and goes on below it, indented by
/// the name and two columns where these leave room, and by all columns but one
/// otherwise. Without a sender nothing is indented.
pub proof fn law_names_stand_before_what_is_said(message: Said, width: u16, row: int)
    requires
        plain(message.nick),
        width > 0,
        0 <= row < message.height(width),
        message.nick.len() + 2 <= u16::MAX,
    ensures
        ({
            let line = message.line(row, width);
            let indent: int = if message.nick.len() == 0 {
                0
            } else if message.nick.len() + 2 < width {
                message.nick.len() as int + 2
            } else {
                width - 1
            };
            &&& message.indent(width) == indent
            &&& row == 0 && message.nick.len() > 0 ==> line.nick == Some(message.nick)
            &&& row > 0 || message.nick.len() == 0 ==> line.nick is None
            &&& row == 0 ==> line.indent == 0
            &&& row > 0 ==> line.indent == indent
            &&& line.body == wrapped(message.text, (width - indent) as nat)[row]
            &&& message.height(width) == wrapped(message.text, (width - indent) as nat).len()
        }),
{
}

} // verus!
