//! The regions of the screen, and what is drawn in the sidebar and the composer.

use std::ops::Deref;

use vstd::prelude::*;

use crate::application::Session;
use crate::connection::ConnectionState;
use crate::model::{BufferKind, BufferKindView};
use crate::text;
use crate::tui::input::{
    input_layout, law_rows_cover_the_text, InputLayout, InputLayoutView, InputLineView,
};
use crate::tui::sidebar::{SidebarRow, SidebarRowView};
use crate::tui::view::{App, AppView, Focus};
use crate::ui::{
    input_text_geometry, less, smaller, InputSpans, InputSpansView, Rect, COMPOSER_ACCENT_X,
    GAP_ROWS, HORIZONTAL_PAD, INPUT_FIXED_ROWS, SIDEBAR_WIDTH,
};

verus! {

#[verifier::ext_equal]
pub ghost struct GeometryView {
    pub sidebar: Rect,
    pub messages: Rect,
    pub composer: Rect,
    pub input: Rect,
    pub input_layout: InputLayoutView,
    pub first_input_line: int,
}

/// The regions of one screen, shared by drawing, sizing and hit testing.
#[derive(Debug)]
pub struct ScreenGeometry {
    pub sidebar: Rect,
    pub messages: Rect,
    /// The composer with its accent and the gap to its right; empty on the
    /// welcome page.
    pub composer: Rect,
    /// The visible rows of the composer's text.
    pub input: Rect,
    pub input_layout: InputLayout,
    /// The first row of the text that is visible.
    pub first_input_line: usize,
}

impl View for ScreenGeometry {
    type V = GeometryView;

    open spec fn view(&self) -> GeometryView {
        GeometryView {
            sidebar: self.sidebar,
            messages: self.messages,
            composer: self.composer,
            input: self.input,
            input_layout: self.input_layout@,
            first_input_line: self.first_input_line as int,
        }
    }
}

/// A region with mathematical coordinates.
pub open spec fn rect(x: int, y: int, width: int, height: int) -> Rect {
    Rect { x: x as u16, y: y as u16, width: width as u16, height: height as u16 }
}

/// Rows that the composer takes on a screen of this height: its text, three more,
/// and no more than there are.
pub open spec fn composer_rows(lines: nat, height: int) -> int {
    smaller(lines as int + 3, height)
}

/// Rows of the composer's text that fit, at least one where there is a composer.
pub open spec fn input_rows(lines: nat, composer: int) -> int {
    if composer <= 4 {
        smaller(1, composer)
    } else {
        smaller(lines as int, composer - 3)
    }
}

/// The regions of a screen. The sidebar takes the left; the main column holds the
/// messages and, with a conversation, the composer and a gap below it. Where rows
/// are few the composer goes before the gap, and both before the messages.
pub open spec fn geometry_of(
    width: int,
    height: int,
    text: Seq<char>,
    cursor: int,
    active: bool,
) -> GeometryView {
    let layout = input_layout(text, cursor, less(less(less(width, 3), 2), 26));
    let main = smaller(24, width);
    let content = smaller(26, width);
    let inner = less(width - main, 4);
    let sidebar = rect(0, 0, smaller(22, width), height);
    if active {
        let composer = composer_rows(layout.lines.len(), height);
        let gap = smaller(2, height - composer);
        let top = height - composer - gap;
        let rows = input_rows(layout.lines.len(), composer);
        let above = smaller(1, composer - rows);
        GeometryView {
            sidebar,
            messages: rect(content, 0, inner, top),
            composer: rect(main, top, width - main, composer),
            input: rect(content, top + above, less(less(less(width, 3), 2), 26), rows),
            input_layout: layout,
            first_input_line: if rows == 0 {
                0
            } else {
                less(layout.cursor_row + 1, rows)
            },
        }
    } else {
        GeometryView {
            sidebar,
            messages: rect(content, 0, inner, height),
            composer: rect(0, 0, 0, 0),
            input: rect(0, 0, 0, 0),
            input_layout: layout,
            first_input_line: 0,
        }
    }
}

fn at_most(a: u16, b: u16) -> (least: u16)
    ensures
        least == smaller(a as int, b as int),
{
    if a < b {
        a
    } else {
        b
    }
}

/// The regions of a screen of `width` by `height` cells, with `text` in the composer
/// where a conversation is `active`.
pub fn geometry(width: u16, height: u16, text: &str, cursor: usize, active: bool) -> (geometry:
    ScreenGeometry)
    ensures
        geometry@ == geometry_of(width as int, height as int, text@, cursor as int, active),
{
    let (_, text_width): (u16, u16) = input_text_geometry(width);
    let input_layout = InputLayout::new(text, cursor, text_width);
    let main: u16 = at_most(COMPOSER_ACCENT_X, width);
    let content: u16 = at_most(COMPOSER_ACCENT_X + HORIZONTAL_PAD, width);
    let inner: u16 = (width - main).saturating_sub(2 * HORIZONTAL_PAD);
    let sidebar = Rect { x: 0, y: 0, width: at_most(SIDEBAR_WIDTH, width), height };
    if !active {
        return ScreenGeometry {
            sidebar,
            messages: Rect { x: content, y: 0, width: inner, height },
            composer: Rect::default(),
            input: Rect::default(),
            input_layout,
            first_input_line: 0,
        };
    }
    assert(input_layout.lines.deep_view().len() == input_layout.lines.len());
    let lines: usize = input_layout.lines.len();
    let composer: u16 = if lines < height as usize && lines + INPUT_FIXED_ROWS as usize
        <= height as usize {
        (lines + INPUT_FIXED_ROWS as usize) as u16
    } else {
        height
    };
    let gap: u16 = at_most(GAP_ROWS, height - composer);
    let top: u16 = height - composer - gap;
    let rows: u16 = if composer <= 1 + INPUT_FIXED_ROWS {
        at_most(1, composer)
    } else if lines < (composer - INPUT_FIXED_ROWS) as usize {
        lines as u16
    } else {
        composer - INPUT_FIXED_ROWS
    };
    let above: u16 = at_most(1, composer - rows);
    let row: usize = input_layout.cursor_row;
    let first_input_line: usize = if rows > 0 && row >= rows as usize {
        row - (rows as usize - 1)
    } else {
        0
    };
    ScreenGeometry {
        sidebar,
        messages: Rect { x: content, y: 0, width: inner, height: top },
        composer: Rect { x: main, y: top, width: width - main, height: composer },
        input: Rect { x: content, y: top + above, width: text_width, height: rows },
        input_layout,
        first_input_line,
    }
}

/// The regions lie on the screen and apart from each other, and the composer holds
/// the rows of its text.
pub proof fn law_regions_lie_apart(
    width: u16,
    height: u16,
    text: Seq<char>,
    cursor: int,
    active: bool,
)
    requires
        0 <= cursor,
    ensures
        ({
            let g = geometry_of(width as int, height as int, text, cursor, active);
            &&& g.sidebar.x + g.sidebar.width <= g.messages.x
            &&& g.sidebar.height <= height
            &&& g.messages.x + g.messages.width <= width
            &&& g.messages.y + g.messages.height <= height
            &&& active ==> {
                &&& g.sidebar.x + g.sidebar.width <= g.composer.x
                &&& g.composer.x + g.composer.width <= width
                &&& g.composer.y + g.composer.height <= height
                &&& g.messages.y + g.messages.height <= g.composer.y
                &&& g.composer.x <= g.input.x
                &&& g.input.x + g.input.width <= g.composer.x + g.composer.width
                &&& g.composer.y <= g.input.y
                &&& g.input.y + g.input.height <= g.composer.y + g.composer.height
            }
        }),
{
    let wide = less(less(less(width as int, 3), 2), 26);
    law_rows_cover_the_text(
        text,
        cursor,
        if wide < 1 {
            1
        } else {
            wide
        },
    );
}

/// However small the screen, the row of the cursor is visible: on any screen with a
/// row, the visible rows of the composer's text hold it.
pub proof fn law_cursor_row_is_visible(width: u16, height: u16, text: Seq<char>, cursor: int)
    requires
        0 <= cursor,
        0 < height,
    ensures
        ({
            let g = geometry_of(width as int, height as int, text, cursor, true);
            &&& g.first_input_line <= g.input_layout.cursor_row
            &&& g.input_layout.cursor_row < g.first_input_line + g.input.height
        }),
{
    let wide = less(less(less(width as int, 3), 2), 26);
    law_rows_cover_the_text(
        text,
        cursor,
        if wide < 1 {
            1
        } else {
            wide
        },
    );
}

/// The dot before a server or a channel.
#[derive(Debug, Clone, Copy, PartialEq, Eq, Structural)]
pub enum Dot {
    /// Confirmed by the server.
    Green,
    /// Being connected or joined, or waiting to be; it blinks.
    Grey,
    /// The other half of the blinking.
    Off,
    /// Stopped, or not joined.
    Red,
}

/// The dot of a connection's state, while blinking dots are `lit` or not.
pub open spec fn dot_of(state: ConnectionState, lit: bool) -> Dot {
    match state {
        ConnectionState::Connected => Dot::Green,
        ConnectionState::Connecting => if lit {
            Dot::Grey
        } else {
            Dot::Off
        },
        ConnectionState::Stopped => Dot::Red,
    }
}

#[verifier::ext_equal]
pub ghost struct SidebarEntryView {
    pub label: Seq<char>,
    pub heading: bool,
    pub dot: Option<Dot>,
    pub active: bool,
    pub cursor: bool,
    pub hovered: bool,
}

/// A row of the sidebar as it is drawn.
#[derive(Debug, PartialEq, Eq)]
pub struct SidebarEntry {
    pub label: String,
    /// The row of a server, with its conversations below.
    pub heading: bool,
    /// Private conversations have no dot.
    pub dot: Option<Dot>,
    pub active: bool,
    pub cursor: bool,
    pub hovered: bool,
}

impl View for SidebarEntry {
    type V = SidebarEntryView;

    open spec fn view(&self) -> SidebarEntryView {
        SidebarEntryView {
            label: self.label@,
            heading: self.heading,
            dot: self.dot,
            active: self.active,
            cursor: self.cursor,
            hovered: self.hovered,
        }
    }
}

impl DeepView for SidebarEntry {
    type V = SidebarEntryView;

    open spec fn deep_view(&self) -> SidebarEntryView {
        self@
    }
}

/// What the background of a row tells.
#[derive(Debug, Clone, Copy, PartialEq, Eq, Structural)]
pub enum Shade {
    /// The conversation of the row is shown.
    Active,
    /// The row is under the cursor.
    Cursor,
    /// The pointer is on the row.
    Hovered,
}

impl SidebarEntryView {
    /// The one background of a row: the active conversation comes before the cursor,
    /// and the cursor before the pointer.
    pub open spec fn shade(self) -> Option<Shade> {
        if self.active {
            Some(Shade::Active)
        } else if self.cursor {
            Some(Shade::Cursor)
        } else if self.hovered {
            Some(Shade::Hovered)
        } else {
            None
        }
    }
}

impl SidebarEntry {
    /// What the background of the row tells, if it has one.
    pub fn shade(&self) -> (shade: Option<Shade>)
        ensures
            shade == self@.shade(),
    {
        if self.active {
            Some(Shade::Active)
        } else if self.cursor {
            Some(Shade::Cursor)
        } else if self.hovered {
            Some(Shade::Hovered)
        } else {
            None
        }
    }
}

/// The name on a row: a peer's is marked, and an unread conversation too.
pub open spec fn label_of(kind: BufferKindView, server: Seq<char>, unread: bool) -> Seq<char> {
    (match kind {
        BufferKindView::Server => server,
        BufferKindView::Channel(channel) => channel,
        BufferKindView::Query(peer) => seq!['@'] + peer,
    }) + (if unread {
        seq!['*']
    } else {
        Seq::empty()
    })
}

impl AppView {
    pub open spec fn is_unread(self, row: SidebarRowView) -> bool {
        match row.id {
            Some(id) => match self.session.buffer(id) {
                Some(buffer) => buffer.unread,
                None => false,
            },
            None => false,
        }
    }

    pub open spec fn row_dot(self, row: SidebarRowView) -> Option<Dot> {
        match row.kind {
            BufferKindView::Server => Some(
                dot_of(self.session.connection_state(row.server, None), self.dot),
            ),
            BufferKindView::Channel(channel) => Some(
                dot_of(self.session.connection_state(row.server, Some(channel)), self.dot),
            ),
            BufferKindView::Query(_) => None,
        }
    }

    /// A row of the sidebar as it is drawn. The cursor shows while the sidebar has
    /// the focus.
    pub open spec fn entry(self, index: int) -> SidebarEntryView {
        let row = self.sidebar_rows()[index];
        SidebarEntryView {
            label: label_of(row.kind, row.server, self.is_unread(row)),
            heading: row.kind is Server,
            dot: self.row_dot(row),
            active: row.id is Some && row.id == self.session.active,
            cursor: self.focus == Focus::Sidebar && self.cursor is Some && self.cursor->0.row
                == index,
            hovered: self.hovered is Some && self.hovered->0.row == index,
        }
    }

    /// The rows that a sidebar of this height shows.
    pub open spec fn entries(self, height: int) -> Seq<SidebarEntryView> {
        Seq::new(
            smaller(less(self.sidebar_rows().len() as int, self.sidebar_offset), height) as nat,
            |i: int| self.entry(self.sidebar_offset + i),
        )
    }
}

fn state_dot(state: ConnectionState, lit: bool) -> (dot: Dot)
    ensures
        dot == dot_of(state, lit),
{
    match state {
        ConnectionState::Connected => Dot::Green,
        ConnectionState::Connecting => if lit {
            Dot::Grey
        } else {
            Dot::Off
        },
        ConnectionState::Stopped => Dot::Red,
    }
}

fn row_label(row: &SidebarRow, unread: bool) -> (label: String)
    ensures
        label@ == label_of(row@.kind, row@.server, unread),
{
    let mut label = match &row.kind {
        BufferKind::Server => row.server.clone(),
        BufferKind::Channel(channel) => channel.clone(),
        BufferKind::Query(peer) => {
            let mut label = String::new();
            label.push('@');
            label.append(peer.as_str());
            assert(label@ =~= seq!['@'] + peer@);
            label
        },
    };
    let ghost name = label@;
    if unread {
        label.push('*');
        assert(label@ =~= name + seq!['*']);
    } else {
        assert(label@ =~= name + Seq::<char>::empty());
    }
    label
}

fn is_row(mark: Option<usize>, index: usize) -> (answer: bool)
    ensures
        answer == (mark == Some(index)),
{
    match mark {
        Some(row) => row == index,
        None => false,
    }
}

fn draw_row(app: &App, row: &SidebarRow, index: usize) -> (entry: SidebarEntry)
    requires
        app.wf(),
        index < app@.sidebar_rows().len(),
        row@ == app@.sidebar_rows()[index as int],
    ensures
        entry@ == app@.entry(index as int),
{
    proof {
        app.lemma_wf();
    }
    let session: &Session = app.deref();
    let unread = match row.id {
        Some(id) => match session.buffer(id) {
            Some(buffer) => buffer.unread,
            None => false,
        },
        None => false,
    };
    let lit = app.connecting_dot_visible();
    let server = row.server.as_str();
    let (dot, heading) = match &row.kind {
        BufferKind::Server => (
            Some(state_dot(session.connection_state(server, None), lit)),
            true,
        ),
        BufferKind::Channel(channel) => (
            Some(
                state_dot(session.connection_state(server, Some(channel.as_str())), lit),
            ),
            false,
        ),
        BufferKind::Query(_) => (None, false),
    };
    let active = match (row.id, session.active()) {
        (Some(id), Some(active)) => id == active,
        _ => false,
    };
    SidebarEntry {
        label: row_label(row, unread),
        heading,
        dot,
        active,
        cursor: app.focus() == Focus::Sidebar && is_row(app.sidebar_cursor(), index),
        hovered: is_row(app.sidebar_hovered(), index),
    }
}

/// The rows that a sidebar of this height shows, from its scrolled offset on.
pub fn sidebar_entries(app: &App, height: u16) -> (entries: Vec<SidebarEntry>)
    requires
        app.wf(),
    ensures
        entries.deep_view() == app@.entries(height as int),
{
    let rows = app.sidebar_rows();
    let ghost all = app@.sidebar_rows();
    let offset: usize = app.sidebar_scroll_offset();
    let mut entries: Vec<SidebarEntry> = Vec::new();
    let mut i: u16 = 0;
    while i < height && offset < rows.len() && (i as usize) < rows.len() - offset
        invariant
            app.wf(),
            i <= height,
            offset == app@.sidebar_offset,
            rows.deep_view() == all,
            all == app@.sidebar_rows(),
            offset < rows.len() ==> i <= rows.len() - offset,
            offset >= rows.len() ==> i == 0,
            entries.deep_view() =~= Seq::new(
                i as nat,
                |i: int| app@.entry(app@.sidebar_offset + i),
            ),
        decreases height - i,
    {
        let index: usize = offset + i as usize;
        assert(all[index as int] == rows@[index as int]@);
        let entry = draw_row(app, &rows[index], index);
        let ghost before = entries.deep_view();
        entries.push(entry);
        assert(entries.deep_view() =~= before.push(entry@));
        i = i + 1;
    }
    assert(all.len() == rows.len());
    entries
}

/// One visible row of the composer, parted where the cursor is.
pub open spec fn drawn_line(line: InputLineView, cursor: Option<int>) -> InputSpansView {
    match cursor {
        Some(at) => if line.start <= at < line.start + line.text.len() {
            let k = at - line.start;
            InputSpansView {
                before: line.text.subrange(0, k),
                cursor: Some(line.text.subrange(k, k + 1)),
                after: line.text.subrange(k + 1, line.text.len() as int),
            }
        } else {
            InputSpansView { before: line.text, cursor: Some(seq![' ']), after: Seq::empty() }
        },
        None => InputSpansView { before: line.text, cursor: None, after: Seq::empty() },
    }
}

/// The visible rows of the composer. The cursor stands on its row only; behind the
/// last character it covers a blank.
pub open spec fn drawn_input(g: GeometryView, cursor: int, focused: bool) -> Seq<InputSpansView> {
    let count = smaller(
        less(g.input_layout.lines.len() as int, g.first_input_line),
        g.input.height as int,
    );
    Seq::new(
        count as nat,
        |i: int|
            drawn_line(
                g.input_layout.lines[g.first_input_line + i],
                if focused && g.first_input_line + i == g.input_layout.cursor_row {
                    Some(cursor)
                } else {
                    None
                },
            ),
    )
}

fn draw_line(line: &str, start: usize, cursor: Option<usize>) -> (spans: InputSpans)
    ensures
        spans@ == drawn_line(
            (InputLineView { text: line@, start: start as int, end: start + line@.len() }),
            match cursor {
                Some(at) => Some(at as int),
                None => None,
            },
        ),
{
    let chars = text::chars_of(line);
    match cursor {
        Some(at) => {
            if start <= at && at - start < chars.len() {
                let k: usize = at - start;
                InputSpans {
                    before: text::part(&chars, 0, k),
                    cursor: Some(text::part(&chars, k, k + 1)),
                    after: text::part(&chars, k + 1, chars.len()),
                }
            } else {
                let mut blank = String::new();
                blank.push(' ');
                assert(blank@ =~= seq![' ']);
                let after = String::new();
                assert(after@ =~= Seq::empty());
                InputSpans { before: line.to_owned(), cursor: Some(blank), after }
            }
        },
        None => {
            let after = String::new();
            assert(after@ =~= Seq::empty());
            InputSpans { before: line.to_owned(), cursor: None, after }
        },
    }
}

/// The visible rows of the composer's text, with the cursor where the composer has
/// the focus.
pub fn visible_input(g: &ScreenGeometry, cursor: usize, focused: bool) -> (rows: Vec<InputSpans>)
    ensures
        rows.deep_view() == drawn_input(g@, cursor as int, focused),
{
    let lines = &g.input_layout.lines;
    let ghost all = g@.input_layout.lines;
    let first: usize = g.first_input_line;
    let mut rows: Vec<InputSpans> = Vec::new();
    let mut i: u16 = 0;
    while i < g.input.height && first < lines.len() && (i as usize) < lines.len() - first
        invariant
            i <= g.input.height,
            first == g@.first_input_line,
            lines == &g.input_layout.lines,
            lines.deep_view() == all,
            all == g@.input_layout.lines,
            first < lines.len() ==> i <= lines.len() - first,
            first >= lines.len() ==> i == 0,
            rows.deep_view() =~= Seq::new(
                i as nat,
                |i: int|
                    drawn_line(
                        g@.input_layout.lines[g@.first_input_line + i],
                        if focused && g@.first_input_line + i == g@.input_layout.cursor_row {
                            Some(cursor as int)
                        } else {
                            None
                        },
                    ),
            ),
        decreases g.input.height - i,
    {
        let index: usize = first + i as usize;
        assert(all[index as int] == lines@[index as int]@);
        let here = if focused && index == g.input_layout.cursor_row {
            Some(cursor)
        } else {
            None
        };
        let row = draw_line(lines[index].text.as_str(), lines[index].start, here);
        let ghost before = rows.deep_view();
        rows.push(row);
        assert(rows.deep_view() =~= before.push(row@));
        i = i + 1;
    }
    assert(all.len() == lines.len());
    rows
}

} // verus!
