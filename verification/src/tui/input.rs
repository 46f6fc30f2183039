//! One display-column layout of the composer's text, for drawing and hit testing.

use vstd::prelude::*;

use crate::columns::{columns_of, lemma_span_of_beginning, lemma_span_push, span};
use crate::sequence::{first_index, lemma_first_index, lemma_is_first_index};
use crate::text;

verus! {

#[verifier::ext_equal]
pub ghost struct InputLineView {
    pub text: Seq<char>,
    pub start: int,
    pub end: int,
}

/// One row of the composer: the characters from `start` up to `end`.
#[derive(Debug)]
pub struct InputLine {
    pub text: String,
    pub start: usize,
    pub end: usize,
}

impl View for InputLine {
    type V = InputLineView;

    open spec fn view(&self) -> InputLineView {
        InputLineView { text: self.text@, start: self.start as int, end: self.end as int }
    }
}

impl DeepView for InputLine {
    type V = InputLineView;

    open spec fn deep_view(&self) -> InputLineView {
        self@
    }
}

impl Clone for InputLine {
    fn clone(&self) -> (copy: Self)
        ensures
            copy == *self,
    {
        InputLine { text: self.text.clone(), start: self.start, end: self.end }
    }
}

#[verifier::ext_equal]
pub ghost struct InputLayoutView {
    pub lines: Seq<InputLineView>,
    pub cursor_row: int,
    pub cursor_column: int,
}

/// The composer's text in rows, and the cell of the cursor.
#[derive(Debug)]
pub struct InputLayout {
    pub lines: Vec<InputLine>,
    pub cursor_row: usize,
    pub cursor_column: usize,
}

impl View for InputLayout {
    type V = InputLayoutView;

    open spec fn view(&self) -> InputLayoutView {
        InputLayoutView {
            lines: self.lines.deep_view(),
            cursor_row: self.cursor_row as int,
            cursor_column: self.cursor_column as int,
        }
    }
}

impl DeepView for InputLayout {
    type V = InputLayoutView;

    open spec fn deep_view(&self) -> InputLayoutView {
        self@
    }
}

/// The row of the characters from `start` up to `end`.
pub open spec fn row(text: Seq<char>, start: int, end: int) -> InputLineView {
    InputLineView { text: text.subrange(start, end), start, end }
}

/// Where a row that begins at `start`, and reaches `end` already, ends: it takes
/// on characters while they fit the width, and always its first one.
pub open spec fn row_end(text: Seq<char>, start: int, end: int, width: nat) -> int
    decreases text.len() - end,
{
    if start <= end < text.len() && (end == start || span(text.subrange(start, end + 1)) <= width) {
        row_end(text, start, end + 1, width)
    } else {
        end
    }
}

/// A row ends no earlier than where it reaches already, and within the text.
pub proof fn lemma_row_end(text: Seq<char>, start: int, end: int, width: nat)
    requires
        0 <= start <= end <= text.len(),
    ensures
        end <= row_end(text, start, end, width) <= text.len(),
        start == end < text.len() ==> end < row_end(text, start, end, width),
    decreases text.len() - end,
{
    if end < text.len() && (end == start || span(text.subrange(start, end + 1)) <= width) {
        lemma_row_end(text, start, end + 1, width);
    }
}

/// The text from `start` on, broken into rows.
pub open spec fn rows_from(text: Seq<char>, start: int, width: nat) -> Seq<InputLineView>
    decreases text.len() - start,
{
    if 0 <= start < text.len() {
        let end = row_end(text, start, start, width);
        proof {
            lemma_row_end(text, start, start, width);
        }
        seq![row(text, start, end)] + rows_from(text, end, width)
    } else {
        Seq::empty()
    }
}

/// The rows of the composer. A cursor behind a full last row gets a row of its own.
pub open spec fn input_rows(text: Seq<char>, at_end: bool, width: nat) -> Seq<InputLineView> {
    if text.len() == 0 {
        seq![row(text, 0, 0)]
    } else {
        let rows = rows_from(text, 0, width);
        if at_end && span(rows.last().text) >= width {
            rows.push(row(text, text.len() as int, text.len() as int))
        } else {
            rows
        }
    }
}

/// The row of the character at `cursor`.
pub open spec fn reaches_past(cursor: int) -> spec_fn(InputLineView) -> bool {
    |line: InputLineView| cursor < line.end
}

/// The layout of a text with a cursor, where no row is narrower than a column.
pub open spec fn input_layout(text: Seq<char>, cursor: int, width: int) -> InputLayoutView {
    let width = if width < 1 {
        1
    } else {
        width as nat
    };
    let at_end = cursor >= text.len();
    let lines = input_rows(text, at_end, width);
    if at_end {
        InputLayoutView {
            lines,
            cursor_row: lines.len() - 1,
            cursor_column: span(lines.last().text) as int,
        }
    } else {
        let row = first_index(lines, reaches_past(cursor))->0;
        InputLayoutView {
            lines,
            cursor_row: row,
            cursor_column: span(text.subrange(lines[row].start, cursor)) as int,
        }
    }
}

/// Where the row that begins at `start` ends, and the columns it takes.
fn row_stop(chars: &Vec<char>, start: usize, width: usize) -> (stop: (usize, usize))
    requires
        start < chars.len(),
        width <= u16::MAX,
    ensures
        stop.0 == row_end(chars@, start as int, start as int, width as nat),
        start < stop.0 <= chars.len(),
        stop.1 == span(chars@.subrange(start as int, stop.0 as int)),
        stop.1 <= width + 3,
{
    let mut end: usize = start;
    let mut column: usize = 0;
    assert(chars@.subrange(start as int, start as int) =~= Seq::empty());
    loop
        invariant
            start <= end <= chars.len(),
            start < chars.len(),
            width <= u16::MAX,
            column == span(chars@.subrange(start as int, end as int)),
            column <= width + 3,
            row_end(chars@, start as int, start as int, width as nat) == row_end(
                chars@,
                start as int,
                end as int,
                width as nat,
            ),
        decreases chars.len() - end,
    {
        if end == chars.len() {
            return (end, column);
        }
        let next: usize = columns_of(chars[end]);
        proof {
            let reached = chars@.subrange(start as int, end as int);
            lemma_span_push(reached, chars@[end as int]);
            assert(chars@.subrange(start as int, end + 1) =~= reached.push(chars@[end as int]));
        }
        if end > start && column + next > width {
            return (end, column);
        }
        column = column + next;
        end = end + 1;
    }
}

/// The columns of the characters from `start` up to `end`.
fn part_columns(chars: &Vec<char>, start: usize, end: usize) -> (count: usize)
    requires
        start <= end <= chars.len(),
        span(chars@.subrange(start as int, end as int)) <= usize::MAX,
    ensures
        count == span(chars@.subrange(start as int, end as int)),
{
    let ghost whole = chars@.subrange(start as int, end as int);
    let mut count: usize = 0;
    let mut i: usize = start;
    assert(whole.take(0) =~= Seq::empty());
    while i < end
        invariant
            start <= i <= end <= chars.len(),
            whole == chars@.subrange(start as int, end as int),
            span(whole) <= usize::MAX,
            count == span(whole.take(i - start)),
        decreases end - i,
    {
        proof {
            lemma_span_push(whole.take(i - start), chars@[i as int]);
            assert(whole.take(i - start + 1) =~= whole.take(i - start).push(chars@[i as int]));
            lemma_span_of_beginning(whole, i - start + 1);
        }
        count = count + columns_of(chars[i]);
        i = i + 1;
    }
    assert(whole.take(end - start) =~= whole);
    count
}

impl InputLayout {
    /// Break `text` into rows of `width` columns and find the cursor's cell.
    pub fn new(text: &str, cursor: usize, width: u16) -> (layout: Self)
        ensures
            layout@ == input_layout(text@, cursor as int, width as int),
    {
        let width: usize = if width < 1 {
            1
        } else {
            width as usize
        };
        let chars = text::chars_of(text);
        let total: usize = chars.len();
        let at_end = cursor >= total;
        let mut lines: Vec<InputLine> = Vec::new();
        let mut cursor_row: usize = 0;
        let mut cursor_column: usize = 0;
        let mut last_column: usize = 0;
        let mut start: usize = 0;
        assert(lines.deep_view() =~= Seq::empty());
        assert(lines.deep_view() + rows_from(text@, 0, width as nat) =~= rows_from(
            text@,
            0,
            width as nat,
        ));
        while start < total
            invariant
                chars@ == text@,
                total == chars.len(),
                1 <= width <= u16::MAX,
                start <= total,
                at_end == (cursor >= total),
                lines.deep_view() + rows_from(text@, start as int, width as nat) == rows_from(
                    text@,
                    0,
                    width as nat,
                ),
                start == 0 ==> lines.len() == 0 && last_column == 0,
                start > 0 ==> lines.len() > 0 && last_column == span(lines.deep_view().last().text),
                forall|i: int|
                    0 <= i < lines.len() ==> (#[trigger] lines.deep_view()[i]).end <= start,
                cursor < start ==> {
                    &&& first_index(lines.deep_view(), reaches_past(cursor as int)) == Some(
                        cursor_row as int,
                    )
                    &&& cursor_row < lines.len()
                    &&& cursor_column == span(
                        text@.subrange(lines.deep_view()[cursor_row as int].start, cursor as int),
                    )
                },
            decreases total - start,
        {
            let ghost before = lines.deep_view();
            let (end, column): (usize, usize) = row_stop(&chars, start, width);
            let line = InputLine { text: text::part(&chars, start, end), start, end };
            assert(line@ == row(text@, start as int, end as int));
            if start <= cursor && cursor < end {
                proof {
                    let whole = text@.subrange(start as int, end as int);
                    lemma_span_of_beginning(whole, cursor - start);
                    assert(whole.take(cursor - start) =~= text@.subrange(
                        start as int,
                        cursor as int,
                    ));
                }
                cursor_row = lines.len();
                cursor_column = part_columns(&chars, start, cursor);
            }
            last_column = column;
            lines.push(line);
            proof {
                let after = lines.deep_view();
                assert(after =~= before.push(line@));
                let rest = rows_from(text@, end as int, width as nat);
                assert(before + (seq![line@] + rest) =~= after + rest);
                if cursor < start {
                    lemma_first_index(before, reaches_past(cursor as int));
                    assert forall|i: int| 0 <= i < cursor_row implies !reaches_past(cursor as int)(
                        #[trigger] after[i],
                    ) by {
                        assert(after[i] == before[i]);
                    }
                    assert(after[cursor_row as int] == before[cursor_row as int]);
                    lemma_is_first_index(after, reaches_past(cursor as int), cursor_row as int);
                } else if cursor < end {
                    assert forall|i: int| 0 <= i < cursor_row implies !reaches_past(cursor as int)(
                        #[trigger] after[i],
                    ) by {
                        assert(after[i] == before[i]);
                    }
                    lemma_is_first_index(after, reaches_past(cursor as int), cursor_row as int);
                }
            }
            start = end;
        }
        let ghost rows = rows_from(text@, 0, width as nat);
        assert(lines.deep_view() =~= rows);
        if total == 0 {
            let line = InputLine { text: String::new(), start: 0, end: 0 };
            assert(line@ =~= row(text@, 0, 0));
            lines.push(line);
            assert(lines.deep_view() =~= seq![row(text@, 0, 0)]);
            assert(lines.deep_view().last().text =~= Seq::empty());
        } else if at_end && last_column >= width {
            let line = InputLine { text: String::new(), start: total, end: total };
            assert(line@ =~= row(text@, total as int, total as int));
            lines.push(line);
            assert(lines.deep_view() =~= rows.push(row(text@, total as int, total as int)));
            assert(lines.deep_view().last().text =~= Seq::empty());
            last_column = 0;
        }
        assert(lines.deep_view() == input_rows(text@, at_end, width as nat));
        if at_end {
            cursor_row = lines.len() - 1;
            cursor_column = last_column;
            assert(cursor_column == span(lines.deep_view().last().text));
        }
        InputLayout { lines, cursor_row, cursor_column }
    }
}

/// A row that a width admits one more character to is within the width.
proof fn lemma_row_fits(text: Seq<char>, start: int, end: int, width: nat)
    requires
        0 <= start <= end <= text.len(),
        end <= start + 1 || span(text.subrange(start, end)) <= width,
    ensures
        row_end(text, start, end, width) <= start + 1 || span(
            text.subrange(start, row_end(text, start, end, width)),
        ) <= width,
    decreases text.len() - end,
{
    if end < text.len() && (end == start || span(text.subrange(start, end + 1)) <= width) {
        lemma_row_fits(text, start, end + 1, width);
    }
}

/// Rows that follow each other from `start` to the end of the text, each within
/// the width or of a single character.
pub open spec fn cover(rows: Seq<InputLineView>, text: Seq<char>, start: int, width: nat) -> bool {
    &&& rows.len() > 0
    &&& rows[0].start == start
    &&& rows.last().end == text.len()
    &&& forall|i: int|
        0 <= i < rows.len() ==> {
            &&& 0 <= (#[trigger] rows[i]).start <= rows[i].end <= text.len()
            &&& rows[i].text == text.subrange(rows[i].start, rows[i].end)
            &&& span(rows[i].text) <= width || rows[i].text.len() == 1
        }
    &&& forall|i: int, j: int|
        0 <= i && j == i + 1 && j < rows.len() ==> (#[trigger] rows[i]).end == (
        #[trigger] rows[j]).start
}

proof fn lemma_rows_cover(text: Seq<char>, start: int, width: nat)
    requires
        0 <= start < text.len(),
    ensures
        cover(rows_from(text, start, width), text, start, width),
    decreases text.len() - start,
{
    let end = row_end(text, start, start, width);
    lemma_row_end(text, start, start, width);
    lemma_row_fits(text, start, start, width);
    let rest = rows_from(text, end, width);
    let rows = rows_from(text, start, width);
    assert(rows[0] == row(text, start, end));
    if end < text.len() {
        lemma_rows_cover(text, end, width);
        assert(rows.last() == rest.last());
        assert forall|i: int| 0 <= i < rows.len() implies {
            &&& 0 <= (#[trigger] rows[i]).start <= rows[i].end <= text.len()
            &&& rows[i].text == text.subrange(rows[i].start, rows[i].end)
            &&& span(rows[i].text) <= width || rows[i].text.len() == 1
        } by {
            if i > 0 {
                assert(rows[i] == rest[i - 1]);
            }
        }
        assert forall|i: int, j: int| 0 <= i && j == i + 1 && j < rows.len() implies (
        #[trigger] rows[i]).end == (#[trigger] rows[j]).start by {
            assert(rows[j] == rest[j - 1]);
            if i > 0 {
                assert(rows[i] == rest[i - 1]);
            }
        }
    } else {
        assert(rest.len() == 0);
    }
}

/// The rows of the composer hold the whole text in order, none of them is wider
/// than asked unless it holds a single character, and the cursor is in one of them.
pub proof fn law_rows_cover_the_text(text: Seq<char>, cursor: int, width: int)
    requires
        0 <= cursor,
        1 <= width,
    ensures
        cover(input_layout(text, cursor, width).lines, text, 0, width as nat),
        ({
            let layout = input_layout(text, cursor, width);
            let line = layout.lines[layout.cursor_row];
            &&& 0 <= layout.cursor_row < layout.lines.len()
            &&& line.start <= cursor
            &&& cursor < text.len() ==> cursor < line.end
            &&& layout.cursor_column <= span(line.text)
        }),
{
    let layout = input_layout(text, cursor, width);
    if text.len() > 0 {
        lemma_rows_cover(text, 0, width as nat);
        let rows = rows_from(text, 0, width as nat);
        let full = layout.lines;
        if full.len() > rows.len() {
            let len = text.len() as int;
            assert(full =~= rows.push(row(text, len, len)));
            assert forall|i: int| 0 <= i < full.len() implies {
                &&& 0 <= (#[trigger] full[i]).start <= full[i].end <= text.len()
                &&& full[i].text == text.subrange(full[i].start, full[i].end)
                &&& span(full[i].text) <= width || full[i].text.len() == 1
            } by {
                if i < rows.len() {
                    assert(full[i] == rows[i]);
                } else {
                    assert(full[i].text =~= Seq::empty());
                }
            }
            assert forall|i: int, j: int| 0 <= i && j == i + 1 && j < full.len() implies (
            #[trigger] full[i]).end == (#[trigger] full[j]).start by {
                assert(full[i] == rows[i]);
                if j < rows.len() {
                    assert(full[j] == rows[j]);
                }
            }
        }
        if cursor < text.len() {
            lemma_first_index(full, reaches_past(cursor));
            let found = first_index(full, reaches_past(cursor));
            assert(reaches_past(cursor)(full.last()));
            let at = found->0;
            if at > 0 {
                assert(!reaches_past(cursor)(full[at - 1]));
                assert(full[at - 1].end == full[at].start);
            }
            let line = full[at];
            lemma_span_of_beginning(line.text, cursor - line.start);
            assert(line.text.take(cursor - line.start) =~= text.subrange(line.start, cursor));
        } else {
            assert(full.last() == full[full.len() - 1]);
        }
    } else {
        let full = layout.lines;
        assert(full[0].text =~= Seq::empty());
    }
}

} // verus!
