//! What holds of the view across several operations.

use vstd::prelude::*;

use crate::model::{BufferId, MessageView, RoutedMessageView};
use crate::sequence::lemma_first_index;
use crate::tui::layout::{
    in_order, laid_all, law_anchor_finds_its_row, law_anchor_shows_the_same_line, LayoutView,
};
use crate::tui::state::ViewStateView;
use crate::tui::view::{lemma_history_in_order, AppView, Focus};

verus! {

/// The focus goes from the sidebar to the messages to the composer and back, as
/// long as there is anything to show in the sidebar.
pub proof fn law_tab_cycles_the_focus(app: AppView)
    requires
        app.session.buffers.len() > 0,
    ensures
        app.focus == Focus::Sidebar ==> app.tab().focus == Focus::Messages,
        app.focus == Focus::Messages ==> app.tab().focus == Focus::Composer,
        app.focus == Focus::Composer ==> app.tab().focus == Focus::Sidebar,
        app.tab().tab().tab().focus == app.focus,
{
}

/// A view that follows the newest rows still shows them after a message came.
pub proof fn law_a_following_view_stays_at_the_bottom(app: AppView, message: RoutedMessageView)
    requires
        app.follows() || app.session.buffers.len() == 0,
    ensures
        app.push(message).at_bottom(),
{
}

/// The position of a reader who does not follow stays, whatever is added below
/// or evicted above: the topmost row shows the same line as before, as long as
/// its message is there and there are rows enough below it.
pub proof fn law_the_reading_position_stays(
    state: ViewStateView,
    messages: Seq<MessageView>,
    height: u16,
)
    requires
        in_order(state.layout.messages),
        in_order(laid_all(messages)),
        0 <= state.offset < state.layout.total() <= usize::MAX,
        ({
            let index = state.layout.holder(state.offset, 0);
            let last = state.layout.messages.len() - 1;
            laid_all(messages).contains(
                state.layout.messages[if index > last {
                    last
                } else {
                    index
                }],
            )
        }),
    ensures
        ({
            let after = state.synced(messages, state.layout.width, height, false);
            let row = after.layout.resolve(state.layout.anchor(state.offset));
            &&& row is Some
            &&& row->0 <= after.max_offset(height) ==> after.layout.line_at(after.offset)
                == state.layout.line_at(state.offset)
            &&& row->0 > after.max_offset(height) ==> after.offset == after.max_offset(height)
        }),
{
    law_anchor_shows_the_same_line(
        state.layout,
        LayoutView::of(messages, state.layout.width),
        state.offset,
    );
}

/// The first visit of a conversation is at its newest rows.
pub proof fn law_the_first_visit_is_at_the_newest(app: AppView, id: BufferId)
    requires
        app.session.select(id).active == Some(id),
        !app.state_of(id).viewed,
    ensures
        app.activate(id).at_bottom(),
        app.activate(id).state_of(id).viewed,
{
    let entered = app.with_session(app.session.select(id));
    let synced = entered.with_state(
        ViewStateView { viewed: true, hovered: None, ..entered.state_of(id) },
    ).sync_layout(true).sync_sidebar();
    assert(app.activate(id) == synced.row_revealed(synced.active_row()));
}

/// A later visit is where the conversation was left, if nothing came meanwhile.
pub proof fn law_returning_restores_the_position(app: AppView, id: BufferId)
    requires
        app.session.wf(),
        app.session.select(id).active == Some(id),
        app.state_of(id).viewed,
        app.state_of(id).layout == LayoutView::of(app.session.history.of(id), app.width),
        0 <= app.state_of(id).offset <= app.state_of(id).max_offset(app.height),
        app.state_of(id).offset < app.state_of(id).layout.total() <= usize::MAX,
    ensures
        app.activate(id).scroll_offset() == app.state_of(id).offset,
{
    let state = app.state_of(id);
    lemma_history_in_order(app.session.history, id);
    law_anchor_finds_its_row(state.layout, state.offset);
    let entered = app.with_session(app.session.select(id));
    let marked = entered.with_state(ViewStateView { viewed: true, hovered: None, ..state });
    let synced = marked.sync_layout(false).sync_sidebar();
    assert(marked.state_of(id).layout == state.layout);
    assert(app.activate(id) == synced.row_revealed(synced.active_row()));
}

/// Showing one conversation does not move any other, and takes nothing away.
pub proof fn law_views_are_separate(app: AppView, id: BufferId, other: BufferId)
    requires
        other != id,
    ensures
        app.activate(id).state_of(other) == app.state_of(other),
        app.activate(id).session.history == app.session.history,
{
    let entered = app.with_session(app.session.select(id));
    let synced = entered.with_state(
        ViewStateView { viewed: true, hovered: None, ..entered.state_of(id) },
    ).sync_layout(!entered.state_of(id).viewed).sync_sidebar();
    if entered.session.active == Some(id) {
        assert(app.activate(id) == synced.row_revealed(synced.active_row()));
    }
}

/// A conversation loses its unread mark only while it is the active one, in a
/// pane that has cells, at its newest rows.
pub proof fn law_unread_until_seen(app: AppView, follow: bool, i: int)
    requires
        0 <= i < app.session.buffers.len(),
        app.session.buffers[i].unread,
        !app.sync_layout(follow).session.buffers[i].unread,
    ensures
        app.session.active == Some(app.session.buffers[i].id),
        app.width > 0,
        app.height > 0,
        app.sync_layout(follow).at_bottom(),
{
    if app.session.active is Some {
        lemma_first_index(
            app.session.buffers,
            crate::application::has_id(app.session.active->0),
        );
    }
}

/// A change of size deletes nothing, and a view at the bottom stays there.
pub proof fn law_resizing_deletes_nothing(app: AppView, width: u16, height: u16)
    ensures
        ({
            let after = (AppView { width, height, ..app }).sync_layout(app.at_bottom());
            &&& after.session.history == app.session.history
            &&& app.at_bottom() ==> after.at_bottom()
        }),
{
}

} // verus!
