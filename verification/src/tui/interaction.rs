//! Laws of what keys and the mouse do.

use vstd::prelude::*;

use crate::application::laws::law_drafts_are_separate;
use crate::application::{has_id, SessionView};
use crate::model::DraftView;
use crate::sequence::{lemma_first_index, lemma_is_first_index};
use crate::tui::events::{meaning, Key, KeyAction, MouseKind};
use crate::tui::render::GeometryView;
use crate::tui::sidebar::{has_key, SidebarRowView};
use crate::tui::state::is_message;
use crate::tui::view::{AppView, Focus};
use crate::ui::Rect;

verus! {

/// The cell lies in the region.
pub open spec fn within(r: Rect, column: u16, row: u16) -> bool {
    r.x <= column < r.x + r.width && r.y <= row < r.y + r.height
}

/// The cell shows messages: it is in their region, and in no other.
pub open spec fn over_messages(g: GeometryView, column: u16, row: u16) -> bool {
    within(g.messages, column, row) && !within(g.sidebar, column, row) && !within(
        g.composer,
        column,
        row,
    )
}

/// What a key does to the view.
pub open spec fn pressed(app: AppView, key: Key, ctrl: bool) -> AppView {
    app.after_key(meaning(key, ctrl, app.focus))
}

/// The larger of two numbers.
pub open spec fn larger(a: int, b: int) -> int {
    if a < b {
        b
    } else {
        a
    }
}

/// Over the messages, one step of the wheel moves them by three rows, up or down as
/// the wheel goes and no further than there are rows; the sidebar stays.
pub proof fn law_the_wheel_scrolls_the_messages(
    app: AppView,
    column: u16,
    row: u16,
    width: u16,
    height: u16,
)
    requires
        app.wf(),
        over_messages(app.geometry(width, height), column, row),
    ensures
        ({
            let up = app.after_mouse(MouseKind::ScrollUp, column, row, width, height);
            let down = app.after_mouse(MouseKind::ScrollDown, column, row, width, height);
            &&& app.scroll_offset() >= 3 ==> up.scroll_offset() == app.scroll_offset() - 3
            &&& app.scroll_offset() < 3 ==> up.scroll_offset() == 0
            &&& app.scroll_offset() + 3 <= app.max_offset() ==> down.scroll_offset()
                == app.scroll_offset() + 3
            &&& app.scroll_offset() + 3 > app.max_offset() ==> down.scroll_offset()
                == app.max_offset()
            &&& up.sidebar_offset == app.sidebar_offset == down.sidebar_offset
            &&& up.session == app.session && down.session == app.session
            &&& up.focus == app.focus && down.focus == app.focus
            &&& up.max_offset() == app.max_offset() == down.max_offset()
        }),
{
}

/// Over the sidebar, one step of the wheel moves its rows by three, up or down as
/// the wheel goes and no further than there are rows; the messages stay.
pub proof fn law_the_wheel_scrolls_the_sidebar(
    app: AppView,
    column: u16,
    row: u16,
    width: u16,
    height: u16,
)
    requires
        app.wf(),
        within(app.geometry(width, height).sidebar, column, row),
        0 <= app.sidebar_offset <= larger(app.sidebar_rows().len() - app.sidebar_height, 0),
    ensures
        ({
            let up = app.after_mouse(MouseKind::ScrollUp, column, row, width, height);
            let down = app.after_mouse(MouseKind::ScrollDown, column, row, width, height);
            let most = larger(app.sidebar_rows().len() - app.sidebar_height, 0);
            &&& app.sidebar_offset >= 3 ==> up.sidebar_offset == app.sidebar_offset - 3
            &&& app.sidebar_offset < 3 ==> up.sidebar_offset == 0
            &&& app.sidebar_offset + 3 <= most ==> down.sidebar_offset == app.sidebar_offset + 3
            &&& app.sidebar_offset + 3 > most ==> down.sidebar_offset == most
            &&& up.scroll_offset() == app.scroll_offset() == down.scroll_offset()
            &&& up.session == app.session && down.session == app.session
            &&& up.focus == app.focus && down.focus == app.focus
        }),
{
}

/// Over anything else the wheel scrolls nothing.
pub proof fn law_the_wheel_scrolls_nothing_else(
    app: AppView,
    column: u16,
    row: u16,
    width: u16,
    height: u16,
)
    requires
        !within(app.geometry(width, height).sidebar, column, row),
        within(app.geometry(width, height).composer, column, row) || !within(
            app.geometry(width, height).messages,
            column,
            row,
        ),
    ensures
        ({
            let up = app.after_mouse(MouseKind::ScrollUp, column, row, width, height);
            let down = app.after_mouse(MouseKind::ScrollDown, column, row, width, height);
            &&& up.scroll_offset() == app.scroll_offset() == down.scroll_offset()
            &&& up.sidebar_offset == app.sidebar_offset == down.sidebar_offset
            &&& up.session == app.session && down.session == app.session
            &&& up.focus == app.focus && down.focus == app.focus
        }),
{
}

/// The last row that can be reached is the one below which the pane has no row left
/// to fill.
pub proof fn law_scrolling_ends_at_the_last_row(app: AppView)
    requires
        app.scroll_offset() >= 0,
    ensures
        app.total_height() > app.height ==> app.max_offset() + app.height == app.total_height(),
        app.total_height() <= app.height ==> app.max_offset() == 0,
        app.at_bottom() <==> app.scroll_offset() + app.height >= app.total_height(),
{
}

/// A page is a third of the pane, and at least a row. Both page keys work whatever
/// has the focus, and move the messages alone.
pub proof fn law_pages_are_a_third_of_the_pane(app: AppView, ctrl: bool)
    requires
        app.wf(),
    ensures
        ({
            let page = app.page();
            let up = pressed(app, Key::PageUp, ctrl);
            let down = pressed(app, Key::PageDown, ctrl);
            &&& app.height >= 3 ==> 3 * page <= app.height < 3 * page + 3
            &&& app.height < 3 ==> page == 1
            &&& app.scroll_offset() >= page ==> up.scroll_offset() == app.scroll_offset() - page
            &&& app.scroll_offset() < page ==> up.scroll_offset() == 0
            &&& app.scroll_offset() + page <= app.max_offset() ==> down.scroll_offset()
                == app.scroll_offset() + page
            &&& app.scroll_offset() + page > app.max_offset() ==> down.scroll_offset()
                == app.max_offset()
            &&& up.focus == app.focus && down.focus == app.focus
            &&& up.session == app.session && down.session == app.session
            &&& up.sidebar_offset == app.sidebar_offset == down.sidebar_offset
            &&& up.running == app.running && down.running == app.running
        }),
{
}

/// Escape and control with `c` quit, whatever has the focus; no other key does, and
/// quitting changes nothing else.
pub proof fn law_two_keys_quit(app: AppView, key: Key, ctrl: bool)
    ensures
        key == Key::Esc || (ctrl && key == Key::Char('c')) ==> pressed(app, key, ctrl) == (AppView {
            running: false,
            ..app
        }),
        key != Key::Esc && !(ctrl && key == Key::Char('c')) ==> pressed(app, key, ctrl).running
            == app.running,
        ctrl && key != Key::Char('c') && key is Char ==> pressed(app, key, ctrl) == app,
        key == Key::Other ==> pressed(app, key, ctrl) == app,
{
}

/// What is typed goes into the composer that has the focus, where the cursor is, as
/// long as there is room; control characters are left out.
pub proof fn law_typing_edits_the_draft(app: AppView, c: char)
    requires
        app.focus == Focus::Composer,
        app.session.draft().wf(),
    ensures
        ({
            let before = app.session.draft();
            let after = pressed(app, Key::Char(c), false).session.draft();
            let special = (c as u32) < 0x20 || 0x7f <= c as u32 <= 0x9f;
            &&& special ==> pressed(app, Key::Char(c), false) == app
            &&& !special && before.text.len() < 512 ==> {
                &&& after.text == before.text.take(before.cursor) + seq![c] + before.text.skip(
                    before.cursor,
                )
                &&& after.cursor == before.cursor + 1
            }
            &&& before.text.len() >= 512 ==> after == before
        }),
{
    let before = app.session.draft();
    lemma_draft(app.session, before.insert(c));
    if before.text.len() < 512 {
        assert(before.text.insert(before.cursor, c) =~= before.text.take(before.cursor) + seq![c]
            + before.text.skip(before.cursor));
    }
}

proof fn lemma_draft(session: SessionView, draft: DraftView)
    ensures
        session.with_draft(draft).draft() == draft,
{
    if session.buffers.len() > 0 {
        law_drafts_are_separate(session, draft, 0);
    } else if session.active is Some {
        lemma_first_index(session.buffers, has_id(session.active->0));
    }
}

/// The keys that edit take the character before or after the cursor, and those that
/// move step by one character or go to an end.
pub proof fn law_editing_keys_work_at_the_cursor(app: AppView, ctrl: bool)
    requires
        app.focus == Focus::Composer,
        app.session.draft().wf(),
    ensures
        ({
            let before = app.session.draft();
            let text = before.text;
            let at = before.cursor;
            let back = pressed(app, Key::Backspace, ctrl).session.draft();
            let delete = pressed(app, Key::Delete, ctrl).session.draft();
            let left = pressed(app, Key::Left, ctrl).session.draft();
            let right = pressed(app, Key::Right, ctrl).session.draft();
            let home = pressed(app, Key::Home, ctrl).session.draft();
            let end = pressed(app, Key::End, ctrl).session.draft();
            &&& at > 0 ==> back.text == text.take(at - 1) + text.skip(at) && back.cursor == at - 1
            &&& at == 0 ==> back == before
            &&& at < text.len() ==> delete.text == text.take(at) + text.skip(at + 1)
                && delete.cursor == at
            &&& at == text.len() ==> delete == before
            &&& left.text == text && left.cursor == larger(at - 1, 0)
            &&& right.text == text
            &&& at < text.len() ==> right.cursor == at + 1
            &&& at == text.len() ==> right.cursor == at
            &&& home.text == text && home.cursor == 0
            &&& end.text == text && end.cursor == text.len()
        }),
{
    let before = app.session.draft();
    let text = before.text;
    let at = before.cursor;
    lemma_draft(app.session, before.backspace());
    lemma_draft(app.session, before.delete());
    lemma_draft(app.session, before.left());
    lemma_draft(app.session, before.right());
    lemma_draft(app.session, before.home());
    lemma_draft(app.session, before.end());
    if at > 0 {
        assert(text.remove(at - 1) =~= text.take(at - 1) + text.skip(at));
    }
    if at < text.len() {
        assert(text.remove(at) =~= text.take(at) + text.skip(at + 1));
    }
}

/// No key but the composer's own edits a draft, and none of these does anything
/// where something else has the focus.
pub proof fn law_drafts_are_edited_in_the_composer(app: AppView, key: Key, ctrl: bool)
    requires
        app.focus != Focus::Composer,
        key is Backspace || key is Delete || key is Left || key is Right || key is Home
            || key is End,
    ensures
        pressed(app, key, ctrl) == app,
{
}

/// Only `j` and `k` mean anything outside the composer, and enter means nothing among
/// the messages. In the composer it submits, which by itself changes nothing.
pub proof fn law_other_keys_do_nothing(app: AppView, c: char, ctrl: bool)
    ensures
        app.focus != Focus::Composer && c != 'j' && c != 'k' ==> pressed(app, Key::Char(c), false)
            == app,
        app.focus != Focus::Sidebar ==> pressed(app, Key::Enter, ctrl) == app,
        meaning(Key::Enter, ctrl, app.focus) == KeyAction::Submit <==> app.focus
            == Focus::Composer,
{
}

/// With the focus on the sidebar, `j` and `k` move its cursor a row down and up, and
/// not past its ends; with the focus on the messages they leave it alone.
pub proof fn law_j_and_k_move_the_cursor(app: AppView, at: int)
    requires
        app.focus == Focus::Sidebar,
        0 <= at < app.sidebar_rows().len(),
        app.sync_sidebar().cursor is Some,
        app.sync_sidebar().cursor->0.row == at,
    ensures
        ({
            let all = app.sidebar_rows();
            let down = pressed(app, Key::Char('j'), false);
            let up = pressed(app, Key::Char('k'), false);
            &&& down.cursor is Some && up.cursor is Some
            &&& at + 1 < all.len() ==> down.cursor->0.row == at + 1 && down.cursor->0.key == Some(
                all[at + 1].key(),
            )
            &&& at + 1 == all.len() ==> down.cursor->0.row == at
            &&& at > 0 ==> up.cursor->0.row == at - 1 && up.cursor->0.key == Some(
                all[at - 1].key(),
            )
            &&& at == 0 ==> up.cursor->0.row == 0
            &&& down.session == app.session && up.session == app.session
            &&& down.focus == app.focus && up.focus == app.focus
        }),
{
}

/// With the focus on the messages, `j` selects the next newer message and `k` the
/// next older one, and not past the ends.
pub proof fn law_j_and_k_move_the_selection(app: AppView, at: int)
    requires
        app.focus == Focus::Messages,
        app.selected() == Some(at),
        forall|i: int, j: int|
            0 <= i < j < app.messages().len() ==> (#[trigger] app.messages()[i]).id
                != (#[trigger] app.messages()[j]).id,
    ensures
        ({
            let newer = pressed(app, Key::Char('j'), false);
            let older = pressed(app, Key::Char('k'), false);
            &&& at + 1 < app.messages().len() ==> newer.selected() == Some(at + 1)
            &&& at + 1 == app.messages().len() ==> newer.selected() == Some(at)
            &&& at > 0 ==> older.selected() == Some(at - 1)
            &&& at == 0 ==> older.selected() == Some(at)
            &&& newer.session == app.session && older.session == app.session
            &&& newer.focus == app.focus && older.focus == app.focus
        }),
{
    let messages = app.messages();
    lemma_first_index(messages, is_message(app.state()->0.selected->0));
    let next = if at + 1 < messages.len() {
        at + 1
    } else {
        at
    };
    let last = if at > 0 {
        at - 1
    } else {
        0
    };
    lemma_is_first_index(messages, is_message(messages[next].id), next);
    lemma_is_first_index(messages, is_message(messages[last].id), last);
    assert(app.ensure_selection() == app);
}

/// Enter and a click on a row of the sidebar show the conversation of the row, and
/// give the composer the focus.
pub proof fn law_a_row_shows_its_conversation(app: AppView, row: int)
    requires
        app.session.wf(),
        0 <= row < app.sidebar_rows().len(),
        app.sidebar_rows()[row].id is Some,
        app.session.select(app.sidebar_rows()[row].id->0).active == app.sidebar_rows()[row].id,
    ensures
        ({
            let shown = app.click_row(row);
            &&& shown.session.active == app.sidebar_rows()[row].id
            &&& shown.focus == Focus::Composer
            &&& shown.cursor is None
            &&& shown.session.history == app.session.history
        }),
        app.focus == Focus::Sidebar && app.sync_sidebar().cursor is Some
            && app.sync_sidebar().cursor->0.row == row ==> {
            let shown = pressed(app, Key::Enter, false);
            &&& shown.session.active == app.sidebar_rows()[row].id
            &&& shown.focus == Focus::Composer
        },
{
    let id = app.sidebar_rows()[row].id->0;
    lemma_entered(app.with_session(app.session.select(id)));
    let synced = app.sync_sidebar();
    assert(synced.session == app.session);
    lemma_entered(synced.with_session(app.session.select(id)));
}

/// Coming into view changes neither which conversation is active nor what was said.
proof fn lemma_entered(app: AppView)
    ensures
        app.entered().session.active == app.session.active,
        app.entered().session.history == app.session.history,
        app.entered().focus == app.focus,
{
}

/// A click in the sidebar uses the row under the pointer, as far as it is scrolled;
/// below the last row it does nothing but forget what it pointed at.
pub proof fn law_clicks_use_the_row_under_the_pointer(
    app: AppView,
    column: u16,
    row: u16,
    width: u16,
    height: u16,
)
    requires
        app.session.wf(),
        app.sidebar_offset >= 0,
        within(app.geometry(width, height).sidebar, column, row),
    ensures
        ({
            let g = app.geometry(width, height);
            let line = row - g.sidebar.y + app.sidebar_offset;
            let after = app.after_mouse(MouseKind::LeftDown, column, row, width, height);
            &&& line < app.sidebar_rows().len() && app.sidebar_rows()[line].id is Some
                && app.session.select(app.sidebar_rows()[line].id->0).active
                == app.sidebar_rows()[line].id ==> {
                &&& after.session.active == app.sidebar_rows()[line].id
                &&& after.focus == Focus::Composer
            }
            &&& line >= app.sidebar_rows().len() ==> after.session == app.session && after.focus
                == app.focus && after.hovered is None
        }),
{
    let g = app.geometry(width, height);
    let line = row - g.sidebar.y + app.sidebar_offset;
    if line < app.sidebar_rows().len() && app.sidebar_rows()[line].id is Some
        && app.session.select(app.sidebar_rows()[line].id->0).active
        == app.sidebar_rows()[line].id {
        law_a_row_shows_its_conversation(app, line);
    }
}

/// A click on a message selects it, one beside any message selects none, and either
/// gives the messages the focus; a click in the composer gives it the focus.
pub proof fn law_clicks_select_messages(
    app: AppView,
    column: u16,
    row: u16,
    width: u16,
    height: u16,
)
    requires
        app.wf(),
        !within(app.geometry(width, height).sidebar, column, row),
    ensures
        ({
            let g = app.geometry(width, height);
            let after = app.after_mouse(MouseKind::LeftDown, column, row, width, height);
            let hit = app.message_at_row(row - g.messages.y);
            &&& over_messages(g, column, row) ==> {
                &&& after.focus == Focus::Messages
                &&& after.session == app.session
                &&& after.scroll_offset() == app.scroll_offset()
                &&& hit is Some && 0 <= hit->0 < app.messages().len() ==> after.state()->0.selected
                    == Some(app.messages()[hit->0].id) && after.state()->0.hovered == Some(
                    app.messages()[hit->0].id,
                )
                &&& hit is None && app.state() is Some ==> after.state()->0.selected
                    == app.state()->0.selected && after.state()->0.hovered is None
            }
            &&& within(g.composer, column, row) ==> after.focus == Focus::Composer
                && after.session == app.session && after.selected() == app.selected()
            &&& !within(g.composer, column, row) && !within(g.messages, column, row) ==> after.focus
                == app.focus && after.session == app.session
        }),
{
}

/// What the pointer is over is what is hovered, and moving it does nothing else.
pub proof fn law_the_hover_follows_the_pointer(
    app: AppView,
    column: u16,
    row: u16,
    width: u16,
    height: u16,
)
    requires
        app.wf(),
        app.sidebar_offset >= 0,
    ensures
        ({
            let g = app.geometry(width, height);
            let after = app.after_mouse(MouseKind::Other, column, row, width, height);
            let line = row - g.sidebar.y + app.sidebar_offset;
            &&& within(g.sidebar, column, row) && line < app.sidebar_rows().len()
                ==> after.hovered is Some && after.hovered->0.row == line && after.hovered->0.key
                == Some(app.sidebar_rows()[line].key())
            &&& !within(g.sidebar, column, row) || line >= app.sidebar_rows().len()
                ==> after.hovered is None
            &&& !over_messages(g, column, row) && app.state() is Some
                ==> after.state()->0.hovered is None
            &&& after.session == app.session
            &&& after.focus == app.focus
            &&& after.cursor == app.cursor
            &&& after.scroll_offset() == app.scroll_offset()
            &&& after.selected() == app.selected()
            &&& after.sidebar_offset == app.sidebar_offset
        }),
{
}

/// Where the regions lie: the sidebar takes 22 columns on the left, the messages
/// begin in column 26 and leave 2 columns on the right, the composer begins in
/// column 24 and ends two rows above the end of the screen.
pub proof fn law_regions_have_their_places(app: AppView, width: u16, height: u16)
    requires
        width >= 40,
        height >= 10,
        app.session.draft().wf(),
    ensures
        ({
            let g = app.geometry(width, height);
            let lines = g.input_layout.lines.len();
            &&& g.sidebar.x == 0 && g.sidebar.y == 0 && g.sidebar.width == 22 && g.sidebar.height
                == height
            &&& g.messages.x == 26 && g.messages.y == 0 && g.messages.width == width - 28
            &&& app.session.active_buffer() is None ==> g.messages.height == height
                && g.composer.width == 0 && g.composer.height == 0
            &&& app.session.active_buffer() is Some && lines + 5 <= height && lines > 0 ==> {
                &&& g.composer.x == 24
                &&& g.composer.width == width - 24
                &&& g.composer.height == lines + 3
                &&& g.composer.y + g.composer.height + 2 == height
                &&& g.messages.height == g.composer.y
                &&& g.input.x == 26
                &&& g.input.y == g.composer.y + 1
                &&& g.input.height == lines
            }
        }),
{
}

/// A row moves the sidebar as little as brings it into view.
pub proof fn law_rows_are_brought_into_view(app: AppView, row: int)
    requires
        0 <= row < app.sidebar_rows().len(),
        app.sidebar_height > 0,
        0 <= app.sidebar_offset <= larger(app.sidebar_rows().len() - app.sidebar_height, 0),
    ensures
        ({
            let after = app.row_revealed(row);
            &&& after.sidebar_offset <= row < after.sidebar_offset + app.sidebar_height
            &&& app.sidebar_offset <= row < app.sidebar_offset + app.sidebar_height
                ==> after.sidebar_offset == app.sidebar_offset
            &&& row < app.sidebar_offset ==> after.sidebar_offset == row
            &&& row >= app.sidebar_offset + app.sidebar_height ==> after.sidebar_offset
                + app.sidebar_height == row + 1
            &&& after.session == app.session
            &&& after.scroll_offset() == app.scroll_offset()
        }),
{
}

/// Cursor and hover stay on what they are about while rows come and go.
pub proof fn law_marks_stay_on_their_rows(app: AppView, row: int)
    requires
        app.cursor is Some,
        app.cursor->0.key is Some,
        0 <= row < app.sidebar_rows().len(),
        app.sidebar_rows()[row].key() == app.cursor->0.key->0,
        forall|i: int|
            0 <= i < row ==> (#[trigger] app.sidebar_rows()[i]).key() != app.cursor->0.key->0,
    ensures
        app.sync_sidebar().cursor is Some,
        app.sync_sidebar().cursor->0.row == row,
        app.sync_sidebar().cursor->0.key == app.cursor->0.key,
        app.hovered == app.cursor ==> app.sync_sidebar().hovered == app.sync_sidebar().cursor,
{
    let rows: Seq<SidebarRowView> = app.sidebar_rows();
    let key = app.cursor->0.key->0;
    assert forall|i: int| 0 <= i < row implies !has_key(key)(#[trigger] rows[i]) by {
        assert(rows[i].key() != key);
    }
    lemma_is_first_index(rows, has_key(key), row);
}

} // verus!
