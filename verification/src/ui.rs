//! What the drawing code needs to know: regions, the composer's rows and the
//! cells of a selection, as plain values.

use vstd::prelude::*;

use crate::layout::{LayoutLine, LayoutLineView};
use crate::text;
use crate::tui::input::{cover, input_rows, law_rows_cover_the_text, InputLayout};

verus! {

/// Width of the sidebar, in columns.
pub const SIDEBAR_WIDTH: u16 = 22;

/// Columns between the sidebar and the main column: a line and a blank.
pub const SEPARATOR_GAP: u16 = 2;

/// Blank columns on each side between a region's edge and its content.
pub const HORIZONTAL_PAD: u16 = 2;

/// Rows of the composer besides the text: a blank above, a blank below, the tips.
pub const INPUT_FIXED_ROWS: u16 = 3;

/// Rows below the composer: its background fading out, and a blank.
pub const GAP_ROWS: u16 = 2;

/// Blank columns between the composer panel's left edge and its text.
pub const INPUT_LEFT_PAD: u16 = 1;

/// Blank columns between the composer's text and the panel's right edge.
pub const INPUT_RIGHT_PAD: u16 = 2;

/// Columns between the composer panel and the screen's right edge.
pub const INPUT_RIGHT_GAP: u16 = 3;

/// How many columns the composer's text is narrower than the message viewport.
pub const INPUT_TEXT_INSET: u16 = INPUT_LEFT_PAD + INPUT_RIGHT_PAD;

/// The column of the composer's accent line.
pub const COMPOSER_ACCENT_X: u16 = SIDEBAR_WIDTH + SEPARATOR_GAP;

/// Render state besides the app.
pub struct Chrome<'a> {
    pub status: &'a str,
}

/// A region of the screen.
#[derive(Debug, Clone, Copy, PartialEq, Eq, Structural)]
pub struct Rect {
    pub x: u16,
    pub y: u16,
    pub width: u16,
    pub height: u16,
}

impl Default for Rect {
    fn default() -> (rect: Self)
        ensures
            rect == (Rect { x: 0, y: 0, width: 0, height: 0 }),
    {
        Rect { x: 0, y: 0, width: 0, height: 0 }
    }
}

impl Rect {
    pub open spec fn holds(self, x: int, y: int) -> bool {
        self.x <= x < self.x + self.width && self.y <= y < self.y + self.height
    }

    /// Whether a cell lies in the region.
    pub fn contains(&self, x: u16, y: u16) -> (answer: bool)
        ensures
            answer == self.holds(x as int, y as int),
    {
        self.x <= x && x - self.x < self.width && self.y <= y && y - self.y < self.height
    }
}

/// A difference that stays above zero.
pub open spec fn less(a: int, b: int) -> int {
    if a > b {
        a - b
    } else {
        0
    }
}

/// The smaller of two numbers.
pub open spec fn smaller(a: int, b: int) -> int {
    if a < b {
        a
    } else {
        b
    }
}

/// The composer's text on a screen of this width: its first column and its width.
pub fn input_text_geometry(screen_w: u16) -> (geometry: (u16, u16))
    ensures
        geometry.0 == 26,
        geometry.1 == less(less(less(screen_w as int, 3), 2), 26),
{
    let text_left: u16 = COMPOSER_ACCENT_X + 1 + INPUT_LEFT_PAD;
    let panel_right: u16 = screen_w.saturating_sub(INPUT_RIGHT_GAP);
    let text_right: u16 = panel_right.saturating_sub(INPUT_RIGHT_PAD);
    (text_left, text_right.saturating_sub(text_left))
}

/// Rows of the composer for a number of input rows.
pub fn composer_height(input_lines: usize) -> (rows: u16)
    requires
        input_lines <= u16::MAX - INPUT_FIXED_ROWS,
    ensures
        rows == input_lines + INPUT_FIXED_ROWS,
{
    input_lines as u16 + INPUT_FIXED_ROWS
}

/// Shrink a region on both sides.
pub fn inset(area: Rect, pad: u16) -> (inner: Rect)
    requires
        area.x + pad <= u16::MAX,
        2 * pad <= u16::MAX,
    ensures
        inner.x == area.x + pad,
        inner.y == area.y,
        inner.width == less(area.width as int, 2 * pad),
        inner.height == area.height,
{
    Rect {
        x: area.x + pad,
        y: area.y,
        width: area.width.saturating_sub(2 * pad),
        height: area.height,
    }
}

/// Where a picture of this size stands in the middle of a region, clipped to it.
pub fn centered(area: Rect, width: u16, height: u16) -> (place: Rect)
    requires
        area.x + area.width <= u16::MAX,
        area.y + area.height <= u16::MAX,
    ensures
        place.x == area.x + less(area.width as int, width as int) / 2,
        place.y == area.y + less(area.height as int, height as int) / 2,
        place.width == smaller(width as int, area.width as int),
        place.height == smaller(height as int, area.height as int),
{
    Rect {
        x: area.x + area.width.saturating_sub(width) / 2,
        y: area.y + area.height.saturating_sub(height) / 2,
        width: if width < area.width {
            width
        } else {
            area.width
        },
        height: if height < area.height {
            height
        } else {
            area.height
        },
    }
}

/// The row of tips below the composer's text.
pub open spec fn tips_text(status: Seq<char>) -> Seq<char> {
    if status.len() == 0 {
        "Esc quit · PgUp/PgDn scroll"@
    } else {
        status + "  ·  Esc quit · PgUp/PgDn scroll"@
    }
}

pub fn tips(status: &str) -> (tips: String)
    ensures
        tips@ == tips_text(status@),
{
    if status.is_empty() {
        "Esc quit · PgUp/PgDn scroll".to_owned()
    } else {
        let mut tips = status.to_owned();
        tips.append("  ·  Esc quit · PgUp/PgDn scroll");
        tips
    }
}

/// What stands before the body of a row.
pub open spec fn prefix_text(line: LayoutLineView) -> Seq<char> {
    match line.nick {
        Some(nick) => nick + ": "@,
        None => if line.body.len() == 0 {
            Seq::empty()
        } else {
            Seq::new(line.indent as nat, |i: int| ' ')
        },
    }
}

/// What stands before the body of a row: the nickname, or the indentation.
pub fn line_prefix(line: &LayoutLine) -> (prefix: String)
    ensures
        prefix@ == prefix_text(line@),
{
    match &line.nick {
        Some(nick) => {
            let mut prefix = nick.clone();
            prefix.append(": ");
            prefix
        },
        None => {
            let mut prefix = String::new();
            if line.body.as_str().is_empty() {
                assert(prefix@ =~= Seq::empty());
                return prefix;
            }
            let mut i: u16 = 0;
            while i < line.indent
                invariant
                    i <= line.indent,
                    prefix@ == Seq::new(i as nat, |i: int| ' '),
                decreases line.indent - i,
            {
                prefix.push(' ');
                i = i + 1;
                assert(prefix@ =~= Seq::new(i as nat, |i: int| ' '));
            }
            prefix
        },
    }
}

#[verifier::ext_equal]
pub ghost struct InputSpansView {
    pub before: Seq<char>,
    pub cursor: Option<Seq<char>>,
    pub after: Seq<char>,
}

/// One row of the composer, parted at the cursor.
#[derive(Debug, PartialEq, Eq)]
pub struct InputSpans {
    pub before: String,
    /// What the cursor covers, on the row that it is on.
    pub cursor: Option<String>,
    pub after: String,
}

impl View for InputSpans {
    type V = InputSpansView;

    open spec fn view(&self) -> InputSpansView {
        InputSpansView {
            before: self.before@,
            cursor: self.cursor.deep_view(),
            after: self.after@,
        }
    }
}

impl DeepView for InputSpans {
    type V = InputSpansView;

    open spec fn deep_view(&self) -> InputSpansView {
        self@
    }
}

/// The row of the characters from `from` up to `to`. A cursor behind the last
/// character covers a blank on the last row.
pub open spec fn input_spans(
    text: Seq<char>,
    from: int,
    to: int,
    cursor: Option<int>,
    last: bool,
) -> InputSpansView {
    match cursor {
        Some(at) => if from <= at < to {
            InputSpansView {
                before: text.subrange(from, at),
                cursor: Some(text.subrange(at, at + 1)),
                after: text.subrange(at + 1, to),
            }
        } else {
            InputSpansView {
                before: text.subrange(from, to),
                cursor: if at == to && last {
                    Some(seq![' '])
                } else {
                    None
                },
                after: Seq::empty(),
            }
        },
        None => InputSpansView { before: text.subrange(from, to), cursor: None, after: Seq::empty() },
    }
}

/// The rows of the composer, of `width` display columns each and parted at the
/// cursor where it is shown. A shown cursor behind a full last row gets a row of
/// its own.
pub open spec fn wrapped_input(
    text: Seq<char>,
    cursor: int,
    width: int,
    show_cursor: bool,
) -> Seq<InputSpansView> {
    let shown = if show_cursor {
        Some(smaller(cursor, text.len() as int))
    } else {
        None
    };
    let lines = input_rows(
        text,
        shown == Some(text.len() as int),
        if width < 1 {
            1
        } else {
            width as nat
        },
    );
    Seq::new(
        lines.len(),
        |i: int| input_spans(text, lines[i].start, lines[i].end, shown, i == lines.len() - 1),
    )
}

fn spans_of(chars: &Vec<char>, from: usize, to: usize, cursor: Option<usize>, last: bool) -> (spans:
    InputSpans)
    requires
        from <= to <= chars.len(),
    ensures
        spans@ == input_spans(
            chars@,
            from as int,
            to as int,
            match cursor {
                Some(at) => Some(at as int),
                None => None,
            },
            last,
        ),
{
    let mut cover: Option<String> = None;
    match cursor {
        Some(at) => {
            if from <= at && at < to {
                return InputSpans {
                    before: text::part(chars, from, at),
                    cursor: Some(text::part(chars, at, at + 1)),
                    after: text::part(chars, at + 1, to),
                };
            }
            if at == to && last {
                let mut blank = String::new();
                blank.push(' ');
                assert(blank@ =~= seq![' ']);
                cover = Some(blank);
            }
        },
        None => {},
    }
    let spans = InputSpans {
        before: text::part(chars, from, to),
        cursor: cover,
        after: String::new(),
    };
    assert(spans@.after =~= Seq::empty());
    spans
}

/// Break the composer's text into rows of `width` display columns, and part the
/// rows at the cursor where it is shown.
pub fn build_wrapped_input_lines(text: &str, cursor: usize, width: u16, show_cursor: bool) -> (rows:
    Vec<InputSpans>)
    ensures
        rows.deep_view() == wrapped_input(text@, cursor as int, width as int, show_cursor),
{
    let chars = text::chars_of(text);
    let total: usize = chars.len();
    let shown: Option<usize> = if show_cursor {
        Some(
            if cursor < total {
                cursor
            } else {
                total
            },
        )
    } else {
        None
    };
    let place: usize = if show_cursor {
        cursor
    } else {
        0
    };
    let layout = InputLayout::new(text, place, width);
    let ghost lines = layout.lines.deep_view();
    let ghost wide = if width < 1 {
        1
    } else {
        width as int
    };
    let ghost expected = wrapped_input(text@, cursor as int, width as int, show_cursor);
    proof {
        law_rows_cover_the_text(text@, place as int, wide);
        assert(lines == input_rows(text@, place >= total, wide as nat));
        assert(lines == input_rows(text@, show_cursor && cursor >= total, wide as nat));
    }
    let mut rows: Vec<InputSpans> = Vec::new();
    let mut i: usize = 0;
    while i < layout.lines.len()
        invariant
            chars@ == text@,
            lines == layout.lines.deep_view(),
            cover(lines, text@, 0, wide as nat),
            i == rows.len() <= lines.len(),
            expected.len() == lines.len(),
            forall|j: int|
                0 <= j < lines.len() ==> #[trigger] expected[j] == input_spans(
                    text@,
                    lines[j].start,
                    lines[j].end,
                    match shown {
                        Some(at) => Some(at as int),
                        None => None,
                    },
                    j == lines.len() - 1,
                ),
            forall|j: int| 0 <= j < i ==> rows.deep_view()[j] == #[trigger] expected[j],
        decreases layout.lines.len() - i,
    {
        let ghost before = rows.deep_view();
        let line = &layout.lines[i];
        assert(lines[i as int] == line@);
        let row = spans_of(&chars, line.start, line.end, shown, i == layout.lines.len() - 1);
        rows.push(row);
        proof {
            assert(rows.deep_view() =~= before.push(row@));
            assert(row@ == expected[i as int]);
        }
        i = i + 1;
    }
    assert(rows.deep_view() =~= expected);
    rows
}

/// How an accent line is drawn on one row.
#[derive(Debug, Clone, Copy, PartialEq, Eq, Structural)]
pub enum Accent {
    /// The lower half of the line, where it begins.
    Lower,
    Full,
    /// The upper half of the line, where it ends.
    Upper,
}

/// The cells of a selected message in its pane, by rows of the pane.
#[derive(Debug, Clone, Copy, PartialEq, Eq, Structural)]
pub struct SelectionBlock {
    /// The rows of the message that the pane shows.
    pub top: u16,
    pub bottom: u16,
    /// The separator above the message, if the pane shows it.
    pub above: Option<u16>,
    /// The separator below the message, if the pane shows it.
    pub below: Option<u16>,
}

impl SelectionBlock {
    pub open spec fn first_row(self) -> u16 {
        match self.above {
            Some(row) => row,
            None => self.top,
        }
    }

    pub open spec fn last_row(self) -> u16 {
        match self.below {
            Some(row) => row,
            None => self.bottom,
        }
    }

    /// The rows of the accent line, from its first up to its last one.
    pub fn accent_rows(&self) -> (rows: (u16, u16))
        ensures
            rows == (self.first_row(), self.last_row()),
    {
        (
            match self.above {
                Some(row) => row,
                None => self.top,
            },
            match self.below {
                Some(row) => row,
                None => self.bottom,
            },
        )
    }

    /// The accent line tapers on the separators and is whole beside the message.
    pub fn accent(&self, row: u16) -> (accent: Accent)
        ensures
            accent == (if self.above == Some(row) {
                Accent::Lower
            } else if self.below == Some(row) {
                Accent::Upper
            } else {
                Accent::Full
            }),
    {
        match self.above {
            Some(above) => {
                if above == row {
                    return Accent::Lower;
                }
            },
            None => {},
        }
        match self.below {
            Some(below) => {
                if below == row {
                    return Accent::Upper;
                }
            },
            None => {},
        }
        Accent::Full
    }
}

/// The block of a message that starts on row `start` and takes `height` rows, in a
/// pane of `rows` rows that shows the list from row `offset` on. There is none where
/// the pane shows no row of the message.
pub fn selection_block(start: usize, height: usize, offset: usize, rows: u16) -> (block: Option<
    SelectionBlock,
>)
    requires
        1 <= height,
        start + height <= usize::MAX,
    ensures
        ({
            let first = start - offset;
            let last = first + height - 1;
            match block {
                None => last < 0 || first >= rows || rows == 0,
                Some(block) => {
                    &&& 0 <= last
                    &&& first < rows
                    &&& 0 < rows
                    &&& block.top == (if first < 0 {
                        0
                    } else {
                        first
                    })
                    &&& block.bottom == smaller(last, rows - 1)
                    &&& block.above == (if first > 0 {
                        Some((first - 1) as u16)
                    } else {
                        None::<u16>
                    })
                    &&& block.below == (if last + 1 < rows {
                        Some((last + 1) as u16)
                    } else {
                        None::<u16>
                    })
                },
            }
        }),
{
    let end: usize = start + height;
    if end <= offset {
        return None;
    }
    let past: usize = end - offset;
    let top: usize = if start > offset {
        start - offset
    } else {
        0
    };
    if top >= rows as usize {
        return None;
    }
    let bottom: u16 = if past - 1 < rows as usize {
        (past - 1) as u16
    } else {
        rows - 1
    };
    Some(
        SelectionBlock {
            top: top as u16,
            bottom,
            above: if start > offset {
                Some(top as u16 - 1)
            } else {
                None
            },
            below: if past < rows as usize {
                Some(past as u16)
            } else {
                None
            },
        },
    )
}

/// A row of the composer holds its characters whole, parted at the one that the
/// cursor covers; behind the last character of the last row it covers a blank.
pub proof fn law_composer_rows_hold_their_text(
    text: Seq<char>,
    from: int,
    to: int,
    at: int,
    last: bool,
)
    requires
        0 <= from <= to <= text.len(),
    ensures
        ({
            let hidden = input_spans(text, from, to, None, last);
            let row = input_spans(text, from, to, Some(at), last);
            &&& hidden.before == text.subrange(from, to) && hidden.cursor is None
                && hidden.after.len() == 0
            &&& from <= at < to ==> row.cursor == Some(seq![text[at]]) && row.before + seq![
                text[at],
            ] + row.after == text.subrange(from, to) && row.before.len() == at - from
            &&& at == to && last ==> row.cursor == Some(seq![' ']) && row.before == text.subrange(
                from,
                to,
            ) && row.after.len() == 0
            &&& at < from || at > to || (at == to && !last) ==> row.cursor is None && row.before
                == text.subrange(from, to) && row.after.len() == 0
        }),
{
    if from <= at < to {
        let row = input_spans(text, from, to, Some(at), last);
        assert(row.cursor->0 =~= seq![text[at]]);
        assert(row.before + seq![text[at]] + row.after =~= text.subrange(from, to));
    }
}

/// The tips stand behind the status where there is one, and alone otherwise. A row
/// begins with the sender's name and a colon, or with as many blanks as it is
/// indented; a row without text begins with nothing.
pub proof fn law_rows_begin_with_names_or_blanks(line: LayoutLineView, status: Seq<char>, i: int)
    ensures
        line.nick matches Some(nick) ==> prefix_text(line) == nick + ": "@,
        line.nick is None && line.body.len() == 0 ==> prefix_text(line).len() == 0,
        line.nick is None && line.body.len() > 0 ==> {
            &&& prefix_text(line).len() == line.indent
            &&& 0 <= i < line.indent ==> prefix_text(line)[i] == ' '
        },
        status.len() == 0 ==> tips_text(status) == "Esc quit · PgUp/PgDn scroll"@,
        status.len() > 0 ==> tips_text(status) == status
            + "  ·  Esc quit · PgUp/PgDn scroll"@,
{
}

/// The composer's rows are those of its layout. A cursor that is shown covers the
/// character at its place; behind the last character it is on the last row.
pub proof fn law_the_cursor_is_on_its_row(text: Seq<char>, cursor: int, width: int, i: int)
    requires
        0 <= cursor <= text.len(),
        1 <= width,
        0 <= i < wrapped_input(text, cursor, width, true).len(),
    ensures
        ({
            let rows = wrapped_input(text, cursor, width, true);
            let layout = crate::tui::input::input_layout(text, cursor, width);
            let line = layout.lines[i];
            &&& rows.len() == layout.lines.len()
            &&& rows[i] == input_spans(
                text,
                line.start,
                line.end,
                Some(cursor),
                i == rows.len() - 1,
            )
            &&& i == layout.cursor_row ==> rows[i].cursor is Some
            &&& cursor < text.len() && rows[i].cursor is Some ==> rows[i].cursor->0 == seq![
                text[cursor],
            ]
        }),
{
    law_rows_cover_the_text(text, cursor, width);
    let layout = crate::tui::input::input_layout(text, cursor, width);
    let line = layout.lines[i];
    if cursor < text.len() {
        if line.start <= cursor < line.end {
            assert(text.subrange(cursor, cursor + 1) =~= seq![text[cursor]]);
        } else if i == layout.lines.len() - 1 {
            assert(layout.lines.last() == line);
        }
    } else {
        assert(layout.lines.last() == layout.lines[layout.lines.len() - 1]);
    }
}

} // verus!
