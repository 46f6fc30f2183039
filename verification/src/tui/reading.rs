//! Laws of what is shown where: reading positions, selection and the size of the
//! screen.

use vstd::prelude::*;

use crate::application::laws::lemma_index_of;
use crate::application::SubmissionEffect;
use crate::model::{BufferId, MessageId, MessageView, RoutedMessageView};
use crate::sequence::{lemma_first_index, lemma_is_first_index};
use crate::tui::layout::LayoutView;
use crate::tui::sidebar::{shows, SidebarRowView};
use crate::tui::state::{is_message, ViewStateView};
use crate::tui::view::{AppView, Focus};

verus! {

/// The pane draws the rows from its offset on, as many as fit.
pub proof fn law_the_pane_draws_what_fits(layout: LayoutView, offset: int, height: int, i: int)
    requires
        0 <= offset,
        0 <= height,
    ensures
        ({
            let drawn = layout.visible(offset, height);
            let left = layout.total() - offset;
            &&& left >= height && left > 0 ==> drawn.len() == height
            &&& 0 <= left < height ==> drawn.len() == left
            &&& left <= 0 ==> drawn.len() == 0
            &&& 0 <= i < drawn.len() ==> drawn[i] == layout.line_at(offset + i)
        }),
{
}

/// A view in line with a history shows that history: following, it ends with the
/// newest row; a selected or hovered message that is still there stays so, and where
/// a selected one is gone the oldest takes its place, while the hover ends.
pub proof fn law_views_show_their_history(
    state: ViewStateView,
    messages: Seq<MessageView>,
    width: u16,
    height: u16,
    follow: bool,
    id: MessageId,
)
    ensures
        ({
            let after = state.synced(messages, width, height, follow);
            let there = exists|i: int|
                0 <= i < messages.len() && (#[trigger] messages[i]).id == id;
            &&& after.layout.width == width
            &&& after.layout.messages.len() == messages.len()
            &&& forall|i: int|
                0 <= i < messages.len() ==> {
                    &&& (#[trigger] after.layout.messages[i]).id == messages[i].id
                    &&& after.layout.messages[i].said.nick == messages[i].content.nick
                    &&& after.layout.messages[i].said.text == messages[i].content.text
                }
            &&& follow && after.layout.total() > height ==> after.offset + height
                == after.layout.total()
            &&& follow && after.layout.total() <= height ==> after.offset == 0
            &&& state.selected == Some(id) && there ==> after.selected == Some(id)
            &&& state.selected == Some(id) && !there && messages.len() > 0 ==> after.selected
                == Some(messages[0].id)
            &&& state.selected is None ==> after.selected is None
            &&& state.hovered == Some(id) && there ==> after.hovered == Some(id)
            &&& state.hovered == Some(id) && !there ==> after.hovered is None
            &&& after.viewed == state.viewed
        }),
{
    lemma_first_index(messages, is_message(id));
    match crate::sequence::first_index(messages, is_message(id)) {
        Some(at) => {
            assert(messages[at].id == id);
        },
        None => {
            assert forall|i: int| 0 <= i < messages.len() implies (#[trigger] messages[i]).id
                != id by {
                assert(!is_message(id)(messages[i]));
            }
        },
    }
}

/// A selected message is brought into view with the separators around it where the
/// pane is high enough, and nothing moves where it is in view already.
pub proof fn law_the_selection_is_brought_into_view(
    state: ViewStateView,
    height: u16,
    index: int,
)
    requires
        state.selected is Some,
        state.layout.index_of(state.selected->0) == Some(index),
        0 <= index < state.layout.messages.len(),
        0 <= state.offset <= state.max_offset(height),
        state.layout.height(index) + 2 <= height,
    ensures
        ({
            let after = state.revealed(height);
            let first = state.layout.start(index);
            let last = first + state.layout.height(index) - 1;
            &&& after.offset < first
            &&& last + 1 < after.offset + height
            &&& state.offset < first && last + 1 < state.offset + height ==> after == state
            &&& after.selected == state.selected && after.layout == state.layout
        }),
{
    state.layout.lemma_next_start(index);
    state.layout.lemma_total(index);
}

/// The pane shows all rows of a message.
pub open spec fn in_view(state: ViewStateView, height: u16, index: int) -> bool {
    state.offset <= state.layout.start(index) && state.layout.start(index) + state.layout.height(
        index,
    ) <= state.offset + height
}

/// With the focus on the messages and none selected, the last one that is in view as
/// a whole is selected, or else the newest.
pub proof fn law_the_last_message_in_view_is_selected(app: AppView, state: ViewStateView, k: int)
    requires
        app.state() == Some(state),
        app.selected() is None,
        app.focus == Focus::Sidebar,
        state.layout.messages.len() == app.messages().len(),
    ensures
        ({
            let after = app.tab();
            &&& after.focus == Focus::Messages
            &&& 0 <= k < state.layout.messages.len() && in_view(state, app.height, k) && (forall|i: int|
                k < i < state.layout.messages.len() ==> !(#[trigger] in_view(state, app.height, i))) ==> after.state()->0.selected
                == Some(state.layout.messages[k].id)
            &&& (forall|i: int| 0 <= i < state.layout.messages.len() ==> !(#[trigger] in_view(state, app.height, i)))
                && app.messages().len() > 0 ==> after.state()->0.selected == Some(
                app.messages().last().id,
            )
            &&& after.scroll_offset() == app.scroll_offset()
            &&& after.session == app.session
        }),
{
    let count = state.layout.messages.len() as int;
    if 0 <= k < count && in_view(state, app.height, k) && (forall|i: int| k < i < count ==> !(#[trigger] in_view(state, app.height, i))) {
        assert forall|i: int| k < i < count implies !(state.offset <= #[trigger] state.layout.start(i)
            && state.layout.start(i) + state.layout.height(i) <= state.offset + app.height) by {
            assert(!in_view(state, app.height, i));
        }
        lemma_last_within(state.layout, state.offset, state.offset + app.height, count, k);
    }
    if forall|i: int| 0 <= i < count ==> !(#[trigger] in_view(state, app.height, i)) {
        assert forall|i: int| 0 <= i < count implies !(state.offset <= #[trigger] state.layout.start(i)
            && state.layout.start(i) + state.layout.height(i) <= state.offset + app.height) by {
            assert(!in_view(state, app.height, i));
        }
        lemma_none_within(state.layout, state.offset, state.offset + app.height, count);
    }
}

proof fn lemma_last_within(layout: LayoutView, top: int, bottom: int, count: int, k: int)
    requires
        0 <= k < count <= layout.messages.len(),
        top <= layout.start(k) && layout.start(k) + layout.height(k) <= bottom,
        forall|i: int|
            k < i < count ==> !(top <= #[trigger] layout.start(i) && layout.start(i)
                + layout.height(i) <= bottom),
    ensures
        layout.last_within(top, bottom, count) == Some(layout.messages[k].id),
    decreases count,
{
    if k < count - 1 {
        assert(!(top <= layout.start(count - 1) && layout.start(count - 1) + layout.height(
            count - 1,
        ) <= bottom));
        lemma_last_within(layout, top, bottom, count - 1, k);
    }
}

proof fn lemma_none_within(layout: LayoutView, top: int, bottom: int, count: int)
    requires
        count <= layout.messages.len(),
        forall|i: int|
            0 <= i < count ==> !(top <= #[trigger] layout.start(i) && layout.start(i)
                + layout.height(i) <= bottom),
    ensures
        layout.last_within(top, bottom, count) is None,
    decreases count,
{
    if count > 0 {
        assert(!(top <= layout.start(count - 1) && layout.start(count - 1) + layout.height(
            count - 1,
        ) <= bottom));
        lemma_none_within(layout, top, bottom, count - 1);
    }
}

/// A conversation that shows its newest row in a pane with cells counts as read.
pub proof fn law_what_is_seen_is_read(app: AppView, follow: bool, index: int)
    requires
        app.session.wf(),
        0 <= index < app.session.buffers.len(),
        app.session.active == Some(app.session.buffers[index].id),
        app.width > 0,
        app.height > 0,
    ensures
        app.sync_layout(follow).at_bottom() ==> !app.sync_layout(follow).session.buffers[index].unread,
        !app.sync_layout(follow).at_bottom() ==> app.sync_layout(follow).session == app.session,
        follow ==> app.sync_layout(follow).at_bottom(),
{
    lemma_index_of(app.session, index);
}

/// A message that comes in is routed by the session, whatever the view shows, and
/// moves neither the focus nor the size.
pub proof fn law_messages_reach_the_session(app: AppView, message: RoutedMessageView)
    ensures
        app.push(message).session.history == app.session.push(message).0.history,
        app.push(message).session.active == app.session.push(message).0.active,
        app.push(message).focus == app.focus,
        app.push(message).width == app.width && app.push(message).height == app.height,
        app.push(message).running == app.running,
{
}

/// The conversation that a submission leads to is shown, and the composer has the
/// focus; without one nothing changes.
pub proof fn law_submissions_lead_to_their_conversation(app: AppView, id: BufferId, index: int)
    requires
        app.session.wf(),
        0 <= index < app.session.buffers.len(),
        app.session.buffers[index].id == id,
    ensures
        app.apply_effect(SubmissionEffect::Nothing) == app,
        ({
            let after = app.apply_effect(SubmissionEffect::Activate(id));
            &&& !app.session.buffers[index].hidden ==> after.session.active == Some(id)
            &&& app.session.buffers[index].hidden ==> after.session.active == app.session.active
            &&& after.focus == Focus::Composer
            &&& after.cursor is None
            &&& after.session.history == app.session.history
        }),
        app.select_buffer(index).session.active == Some(id),
        app.select_buffer(index).session.history == app.session.history,
        app.select_buffer(app.session.buffers.len() as int) == app,
{
    lemma_index_of(app.session, index);
}

/// The sidebar's cursor starts on the row of the active conversation.
pub proof fn law_the_cursor_starts_at_the_active_row(app: AppView, index: int, row: int)
    requires
        app.session.wf(),
        0 <= index < app.session.buffers.len(),
        app.session.active == Some(app.session.buffers[index].id),
        app.focus == Focus::Composer,
        0 <= row < app.sidebar_rows().len(),
        app.sidebar_rows()[row].id == app.session.active,
        forall|i: int|
            0 <= i < row ==> (#[trigger] app.sidebar_rows()[i]).id != app.session.active,
    ensures
        app.tab().focus == Focus::Sidebar,
        app.tab().cursor is Some,
        app.tab().cursor->0.row == row,
        app.tab().cursor->0.key == Some(app.sidebar_rows()[row].key()),
{
    lemma_index_of(app.session, index);
    let rows: Seq<SidebarRowView> = app.sidebar_rows();
    let id = app.session.buffers[index].id;
    assert forall|i: int| 0 <= i < row implies !shows(id)(#[trigger] rows[i]) by {
        assert(rows[i].id != app.session.active);
    }
    lemma_is_first_index(rows, shows(id), row);
}

/// Fitting the view to a screen gives the message pane and the sidebar their sizes,
/// keeps a view at the newest rows there, and touches nothing that was said.
pub proof fn law_views_fit_the_screen(app: AppView, width: u16, height: u16)
    ensures
        ({
            let g = app.geometry(width, height);
            let after = app.fitted(width, height);
            &&& after.width == g.messages.width
            &&& after.height == g.messages.height
            &&& after.sidebar_height == g.sidebar.height
            &&& after.session.history == app.session.history
            &&& after.session.active == app.session.active
            &&& after.focus == app.focus
            &&& app.at_bottom() && (app.width, app.height) != (
                g.messages.width,
                g.messages.height,
            ) ==> after.at_bottom()
        }),
{
    let g = app.geometry(width, height);
    let resized = app.sidebar_resized(g.sidebar.height);
    assert(resized.session == app.session);
    assert(resized.views == app.views);
}

/// Rows of the sidebar are about the same thing if they are the own rows of one
/// server, whatever its case, or show one conversation.
pub proof fn law_rows_are_known_by_what_they_show(a: SidebarRowView, b: SidebarRowView)
    ensures
        a.kind is Server && b.kind is Server ==> (a.key() == b.key() <==> crate::text::same_name(
            a.server,
            b.server,
        )),
        !(a.kind is Server) && !(b.kind is Server) && a.id is Some && b.id is Some ==> (a.key()
            == b.key() <==> a.id == b.id),
        a.kind is Server && !(b.kind is Server) && b.id is Some ==> a.key() != b.key(),
{
}

/// A view begins on the sidebar, running, with nothing to show and its dots lit.
pub proof fn law_views_begin_empty(width: u16, height: u16, messages: nat, budget: nat)
    ensures
        ({
            let app = AppView::empty(width, height, messages, budget);
            &&& app.session.buffers.len() == 0 && app.session.active is None
            &&& app.session.history.capacity == messages
            &&& app.focus == Focus::Sidebar
            &&& app.cursor is Some && app.cursor->0.row == 0
            &&& app.hovered is None
            &&& app.running && app.dot
            &&& app.width == width && app.height == height
            &&& app.scroll_offset() == 0 && app.max_offset() == 0
            &&& app.sidebar_offset == 0
        }),
{
}

} // verus!
