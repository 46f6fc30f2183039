//! What keys, the mouse and the size of the terminal do to the view.

use vstd::prelude::*;

use crate::text;
use crate::tui::mouse::{self, region, MouseTarget};
use crate::tui::render::{geometry, geometry_of, GeometryView, ScreenGeometry};
use crate::tui::view::{App, AppView, Focus};

verus! {

/// Rows that one step of the mouse wheel scrolls.
pub const MOUSE_SCROLL_LINES: i32 = 3;

/// A key that was pressed.
#[derive(Debug, Clone, Copy, PartialEq, Eq, Structural)]
pub enum Key {
    Tab,
    PageUp,
    PageDown,
    Esc,
    Enter,
    Char(char),
    Backspace,
    Delete,
    Left,
    Right,
    Home,
    End,
    Other,
}

/// What a key does where the focus is.
#[derive(Debug, Clone, Copy, PartialEq, Eq, Structural)]
pub enum KeyAction {
    Nothing,
    MoveFocus,
    PageUp,
    PageDown,
    Quit,
    SidebarDown,
    SidebarUp,
    SidebarEnter,
    SelectNext,
    SelectPrev,
    Submit,
    Type(char),
    Backspace,
    Delete,
    CursorLeft,
    CursorRight,
    CursorHome,
    CursorEnd,
}

/// The meaning of a key. Escape and control with `c` quit; `j` and `k` move in the
/// pane that has the focus; the composer takes every other character that is typed
/// without control and is none itself.
pub open spec fn meaning(key: Key, ctrl: bool, focus: Focus) -> KeyAction {
    match key {
        Key::Tab => KeyAction::MoveFocus,
        Key::PageUp => KeyAction::PageUp,
        Key::PageDown => KeyAction::PageDown,
        Key::Esc => KeyAction::Quit,
        Key::Char(c) => if ctrl {
            if c == 'c' {
                KeyAction::Quit
            } else {
                KeyAction::Nothing
            }
        } else if focus == Focus::Composer {
            if text::control(c) {
                KeyAction::Nothing
            } else {
                KeyAction::Type(c)
            }
        } else if c == 'j' {
            if focus == Focus::Sidebar {
                KeyAction::SidebarDown
            } else {
                KeyAction::SelectNext
            }
        } else if c == 'k' {
            if focus == Focus::Sidebar {
                KeyAction::SidebarUp
            } else {
                KeyAction::SelectPrev
            }
        } else {
            KeyAction::Nothing
        },
        Key::Enter => match focus {
            Focus::Sidebar => KeyAction::SidebarEnter,
            Focus::Composer => KeyAction::Submit,
            Focus::Messages => KeyAction::Nothing,
        },
        Key::Backspace => if focus == Focus::Composer {
            KeyAction::Backspace
        } else {
            KeyAction::Nothing
        },
        Key::Delete => if focus == Focus::Composer {
            KeyAction::Delete
        } else {
            KeyAction::Nothing
        },
        Key::Left => if focus == Focus::Composer {
            KeyAction::CursorLeft
        } else {
            KeyAction::Nothing
        },
        Key::Right => if focus == Focus::Composer {
            KeyAction::CursorRight
        } else {
            KeyAction::Nothing
        },
        Key::Home => if focus == Focus::Composer {
            KeyAction::CursorHome
        } else {
            KeyAction::Nothing
        },
        Key::End => if focus == Focus::Composer {
            KeyAction::CursorEnd
        } else {
            KeyAction::Nothing
        },
        Key::Other => KeyAction::Nothing,
    }
}

/// Find what a key does.
pub fn key_action(key: Key, ctrl: bool, focus: Focus) -> (action: KeyAction)
    ensures
        action == meaning(key, ctrl, focus),
{
    let composing = focus == Focus::Composer;
    match key {
        Key::Tab => KeyAction::MoveFocus,
        Key::PageUp => KeyAction::PageUp,
        Key::PageDown => KeyAction::PageDown,
        Key::Esc => KeyAction::Quit,
        Key::Char(c) => {
            if ctrl {
                return if c == 'c' {
                    KeyAction::Quit
                } else {
                    KeyAction::Nothing
                };
            }
            match focus {
                Focus::Composer => {
                    let code: u32 = c as u32;
                    if code <= 0x1f || (0x7f <= code && code <= 0x9f) {
                        KeyAction::Nothing
                    } else {
                        KeyAction::Type(c)
                    }
                },
                Focus::Sidebar => if c == 'j' {
                    KeyAction::SidebarDown
                } else if c == 'k' {
                    KeyAction::SidebarUp
                } else {
                    KeyAction::Nothing
                },
                Focus::Messages => if c == 'j' {
                    KeyAction::SelectNext
                } else if c == 'k' {
                    KeyAction::SelectPrev
                } else {
                    KeyAction::Nothing
                },
            }
        },
        Key::Enter => match focus {
            Focus::Sidebar => KeyAction::SidebarEnter,
            Focus::Composer => KeyAction::Submit,
            Focus::Messages => KeyAction::Nothing,
        },
        Key::Backspace if composing => KeyAction::Backspace,
        Key::Delete if composing => KeyAction::Delete,
        Key::Left if composing => KeyAction::CursorLeft,
        Key::Right if composing => KeyAction::CursorRight,
        Key::Home if composing => KeyAction::CursorHome,
        Key::End if composing => KeyAction::CursorEnd,
        _ => KeyAction::Nothing,
    }
}

/// What the mouse did.
#[derive(Debug, Clone, Copy, PartialEq, Eq, Structural)]
pub enum MouseKind {
    ScrollUp,
    ScrollDown,
    LeftDown,
    Other,
}

impl AppView {
    /// The view after a key; a submission is no part of it.
    pub open spec fn after_key(self, action: KeyAction) -> AppView {
        match action {
            KeyAction::Nothing => self,
            KeyAction::MoveFocus => self.tab(),
            KeyAction::PageUp => self.scrolled_by(-self.page()),
            KeyAction::PageDown => self.scrolled_by(self.page()),
            KeyAction::Quit => AppView { running: false, ..self },
            KeyAction::SidebarDown => self.move_cursor(true),
            KeyAction::SidebarUp => self.move_cursor(false),
            KeyAction::SidebarEnter => self.enter(),
            KeyAction::SelectNext => self.move_selection(true),
            KeyAction::SelectPrev => self.move_selection(false),
            KeyAction::Submit => self,
            KeyAction::Type(c) => self.with_draft(self.session.draft().insert(c)),
            KeyAction::Backspace => self.with_draft(self.session.draft().backspace()),
            KeyAction::Delete => self.with_draft(self.session.draft().delete()),
            KeyAction::CursorLeft => self.with_draft(self.session.draft().left()),
            KeyAction::CursorRight => self.with_draft(self.session.draft().right()),
            KeyAction::CursorHome => self.with_draft(self.session.draft().home()),
            KeyAction::CursorEnd => self.with_draft(self.session.draft().end()),
        }
    }

    /// The regions of a terminal of this size.
    pub open spec fn geometry(self, width: u16, height: u16) -> GeometryView {
        geometry_of(
            width as int,
            height as int,
            self.session.draft().text,
            self.session.draft().cursor,
            self.session.active_buffer() is Some,
        )
    }

    /// The view fitted to a terminal of this size.
    pub open spec fn fitted(self, width: u16, height: u16) -> AppView {
        let g = self.geometry(width, height);
        let app = self.sidebar_resized(g.sidebar.height);
        if (app.width, app.height) != (g.messages.width, g.messages.height) {
            AppView { width: g.messages.width, height: g.messages.height, ..app }.sync_layout(
                app.at_bottom(),
            )
        } else {
            app.sync_view()
        }
    }

    /// The wheel scrolls what is under the pointer.
    pub open spec fn wheeled(self, target: MouseTarget, delta: int) -> AppView {
        match target {
            MouseTarget::SidebarRow(_) => self.sidebar_scrolled_to(self.sidebar_offset + delta),
            MouseTarget::MessageRow(_) => self.scrolled_by(delta),
            MouseTarget::MessageBlank => self.scrolled_by(delta),
            _ => self,
        }
    }

    /// A click uses what is under the pointer.
    pub open spec fn clicked(self, target: MouseTarget) -> AppView {
        match target {
            MouseTarget::SidebarRow(row) => self.click_row(row + self.sidebar_offset),
            MouseTarget::MessageRow(row) => match self.message_at_row(row as int) {
                Some(index) => self.click_message(index),
                None => AppView { focus: Focus::Messages, ..self },
            },
            MouseTarget::MessageBlank => AppView { focus: Focus::Messages, ..self },
            MouseTarget::Composer => AppView { focus: Focus::Composer, ..self },
            MouseTarget::Nothing => self,
        }
    }

    /// The pointer is over a row or a message, scrolled as they are now.
    pub open spec fn pointed(self, target: MouseTarget) -> AppView {
        let app = self.hover_sidebar(
            match target {
                MouseTarget::SidebarRow(row) => Some(row + self.sidebar_offset),
                _ => None,
            },
        );
        app.hover_message(
            match target {
                MouseTarget::MessageRow(row) => app.message_at_row(row as int),
                _ => None,
            },
        )
    }

    pub open spec fn after_mouse(
        self,
        kind: MouseKind,
        column: u16,
        row: u16,
        width: u16,
        height: u16,
    ) -> AppView {
        let target = region(column as int, row as int, self.geometry(width, height));
        let acted = match kind {
            MouseKind::ScrollUp => self.wheeled(target, -3),
            MouseKind::ScrollDown => self.wheeled(target, 3),
            MouseKind::LeftDown => self.clicked(target),
            MouseKind::Other => self,
        };
        acted.pointed(target)
    }
}

/// Do what a key means. Answers whether the composer may have another height now.
pub fn apply_key(app: &mut App, action: KeyAction) -> (relayout: bool)
    requires
        old(app).wf(),
        old(app)@.countable(),
        old(app)@.session.next_buffer_id < u64::MAX,
    ensures
        final(app).wf(),
        final(app)@ == old(app)@.after_key(action),
        relayout == (action is Type || action is Backspace || action is Delete || action is Submit),
{
    match action {
        KeyAction::Nothing => {},
        KeyAction::MoveFocus => app.tab(),
        KeyAction::PageUp => app.scroll_page_up(),
        KeyAction::PageDown => app.scroll_page_down(),
        KeyAction::Quit => app.quit(),
        KeyAction::SidebarDown => app.sidebar_down(),
        KeyAction::SidebarUp => app.sidebar_up(),
        KeyAction::SidebarEnter => app.sidebar_enter(),
        KeyAction::SelectNext => app.select_next(),
        KeyAction::SelectPrev => app.select_prev(),
        KeyAction::Submit => {
            return true;
        },
        KeyAction::Type(c) => {
            app.type_char(c);
            return true;
        },
        KeyAction::Backspace => {
            app.backspace();
            return true;
        },
        KeyAction::Delete => {
            app.delete();
            return true;
        },
        KeyAction::CursorLeft => app.cursor_left(),
        KeyAction::CursorRight => app.cursor_right(),
        KeyAction::CursorHome => app.cursor_home(),
        KeyAction::CursorEnd => app.cursor_end(),
    }
    false
}

/// The regions of a terminal of this size.
pub fn screen(app: &App, width: u16, height: u16) -> (regions: ScreenGeometry)
    ensures
        regions@ == app@.geometry(width, height),
{
    geometry(
        width,
        height,
        app.input(),
        app.input_cursor(),
        app.active_buffer().is_some(),
    )
}

/// Fit the view to a terminal of this size.
pub fn fit_app(app: &mut App, width: u16, height: u16)
    requires
        old(app).wf(),
        old(app)@.countable(),
    ensures
        final(app).wf(),
        final(app)@ == old(app)@.fitted(width, height),
{
    let g = screen(app, width, height);
    app.set_sidebar_height(g.sidebar.height);
    let (shown_width, shown_height): (u16, u16) = app.size();
    if shown_width != g.messages.width || shown_height != g.messages.height {
        app.resize(g.messages.width, g.messages.height);
    } else {
        app.sync_view();
    }
}

fn wheel(app: &mut App, target: MouseTarget, delta: i32)
    requires
        old(app).wf(),
    ensures
        final(app).wf(),
        final(app)@ == old(app)@.wheeled(target, delta as int),
{
    match target {
        MouseTarget::SidebarRow(_) => app.scroll_sidebar(delta),
        MouseTarget::MessageRow(_) | MouseTarget::MessageBlank => app.scroll_lines(delta),
        _ => {},
    }
}

fn click(app: &mut App, target: MouseTarget)
    requires
        old(app).wf(),
        old(app)@.countable(),
        old(app)@.session.next_buffer_id < u64::MAX,
    ensures
        final(app).wf(),
        final(app)@ == old(app)@.clicked(target),
{
    match target {
        MouseTarget::SidebarRow(row) => {
            let found = app.sidebar_rows();
            assert(found.deep_view().len() == found.len());
            app.click_sidebar_row(row.saturating_add(app.sidebar_scroll_offset()));
        },
        MouseTarget::MessageRow(row) => match app.message_at_row(row) {
            Some(index) => app.click_message(index),
            None => app.focus_messages(),
        },
        MouseTarget::MessageBlank => app.focus_messages(),
        MouseTarget::Composer => app.focus_composer(),
        MouseTarget::Nothing => {},
    }
}

/// Route one mouse event: the wheel scrolls, a click acts, and the hover follows the
/// pointer, under which a scroll moves the content too.
pub fn handle_mouse(app: &mut App, kind: MouseKind, column: u16, row: u16, width: u16, height: u16)
    requires
        old(app).wf(),
        old(app)@.countable(),
        old(app)@.session.next_buffer_id < u64::MAX,
    ensures
        final(app).wf(),
        final(app)@ == old(app)@.after_mouse(kind, column, row, width, height),
{
    let g = screen(app, width, height);
    let target = mouse::hit(column, row, &g);
    match kind {
        MouseKind::ScrollUp => wheel(app, target, -MOUSE_SCROLL_LINES),
        MouseKind::ScrollDown => wheel(app, target, MOUSE_SCROLL_LINES),
        MouseKind::LeftDown => click(app, target),
        MouseKind::Other => {},
    }
    let found = app.sidebar_rows();
    assert(found.deep_view().len() == found.len());
    let hovered: Option<usize> = match target {
        MouseTarget::SidebarRow(row) => Some(row.saturating_add(app.sidebar_scroll_offset())),
        _ => None,
    };
    app.set_hover_sidebar(hovered);
    let message: Option<usize> = match target {
        MouseTarget::MessageRow(row) => app.message_at_row(row),
        _ => None,
    };
    app.set_hover_message(message);
}

} // verus!
