//! Laws of the plain view: where messages go, and what keys do.

use vstd::prelude::*;

use crate::app::channel::{drops, ChannelView};
use crate::app::{is_channel, is_on, server_names, AppView, Focus};
use crate::layout::{all_said, start_row, total_rows};
use crate::message::ChatMessageView;
use crate::protocol::listed;
use crate::sequence::{
    lemma_first_index, lemma_is_first_index, lemma_no_first_index, lemma_selected_at,
    lemma_selected_order, selected,
};
use crate::text;

verus! {

/// The first channel of this name on this server stands at `index`.
pub open spec fn stands_at(app: AppView, index: int, server: Seq<char>, channel: Seq<char>) -> bool {
    &&& 0 <= index < app.channels.len()
    &&& text::same_name(app.channels[index].server, server)
    &&& text::same_name(app.channels[index].channel, channel)
    &&& forall|i: int|
        0 <= i < index ==> !(text::same_name((#[trigger] app.channels[i]).server, server)
            && text::same_name(app.channels[i].channel, channel))
}

proof fn lemma_stands_at(app: AppView, index: int, server: Seq<char>, channel: Seq<char>)
    requires
        stands_at(app, index, server, channel),
    ensures
        app.find(server, channel) == Some(index),
{
    lemma_is_first_index(app.channels, is_channel(server, channel), index);
}

/// However many rows are too many, the newest message is left.
proof fn lemma_one_is_left(messages: Seq<ChatMessageView>, width: u16, cap: nat)
    requires
        messages.len() > 0,
    ensures
        drops(messages, width, cap) < messages.len(),
    decreases messages.len(),
{
    if messages.len() > 1 {
        lemma_one_is_left(messages.drop_first(), width, cap);
    }
}

/// A message is the newest one of its channel afterwards; before it stand the newest
/// of the earlier ones, in their order.
pub proof fn law_messages_are_added_to_their_channel(
    app: AppView,
    message: ChatMessageView,
    index: int,
)
    requires
        app.wf(),
        app.message_cap > 0,
        stands_at(app, index, message.server, message.channel),
    ensures
        ({
            let before = app.channels[index].messages;
            let after = app.push(message).channels[index].messages;
            let gone = before.len() + 1 - after.len();
            &&& after.len() > 0
            &&& after.last() == message
            &&& 0 <= gone
            &&& after == before.push(message).skip(gone)
            &&& app.active != Some(index) && before.len() < app.message_cap ==> gone == 0
            &&& app.push(message).active == app.active
            &&& app.push(message).channels.len() == app.channels.len()
        }),
{
    lemma_stands_at(app, index, message.server, message.channel);
    let state = app.channels[index];
    let grown = state.appended(message, app.message_cap);
    let dropped = drops(grown.messages, app.width, app.line_cap) as int;
    let all = state.messages.push(message);
    let excess = all.len() - grown.messages.len();
    lemma_one_is_left(grown.messages, app.width, app.line_cap);
    assert(all.skip(excess).skip(dropped) =~= all.skip(excess + dropped));
    assert(all.skip(excess).last() == message);
}

/// The first message of all opens its channel and shows it.
pub proof fn law_the_first_message_opens_its_channel(app: AppView, message: ChatMessageView)
    requires
        app.wf(),
        app.message_cap > 0,
        app.channels.len() == 0,
    ensures
        ({
            let after = app.push(message);
            &&& after.channels.len() == 1
            &&& after.active == Some(0int)
            &&& after.channels[0].server == message.server
            &&& after.channels[0].channel == message.channel
            &&& after.channels[0].messages == seq![message]
        }),
{
    lemma_no_first_index(app.channels, is_channel(message.server, message.channel));
    let state = ChannelView::new(message.server, message.channel);
    let grown = state.appended(message, app.message_cap);
    assert(grown.messages =~= seq![message]);
    assert(drops(grown.messages, app.width, app.line_cap) == 0);
    assert(grown.messages.skip(0) =~= grown.messages);
}

/// A channel that is opened anew stands behind the others, empty; one that is shown
/// is the one that was asked for.
pub proof fn law_channels_open_empty(
    app: AppView,
    server: Seq<char>,
    channel: Seq<char>,
    index: int,
)
    requires
        app.wf(),
    ensures
        ({
            let opened = app.open_channel(server, channel);
            let none = forall|i: int|
                0 <= i < app.channels.len() ==> !(text::same_name(
                    (#[trigger] app.channels[i]).server,
                    server,
                ) && text::same_name(app.channels[i].channel, channel));
            &&& none ==> {
                &&& opened.channels.len() == app.channels.len() + 1
                &&& opened.channels.drop_last() == app.channels
                &&& opened.channels.last().server == server
                &&& opened.channels.last().channel == channel
                &&& opened.channels.last().messages.len() == 0
                &&& opened.active == app.active
            }
            &&& !none ==> opened == app
        }),
        0 <= index < app.channels.len() ==> app.select_channel(index).active == Some(index),
        !(0 <= index < app.channels.len()) ==> app.select_channel(index) == app,
{
    let opened = app.open_channel(server, channel);
    lemma_first_index(app.channels, is_channel(server, channel));
    if app.find(server, channel) is None {
        assert forall|i: int| 0 <= i < app.channels.len() implies !(text::same_name(
            (#[trigger] app.channels[i]).server,
            server,
        ) && text::same_name(app.channels[i].channel, channel)) by {
            assert(!is_channel(server, channel)(app.channels[i]));
        }
        assert(opened.channels.drop_last() =~= app.channels);
    } else {
        let at = app.find(server, channel)->0;
        assert(is_channel(server, channel)(app.channels[at]));
    }
}

/// A page is a third of the pane, and at least a row. Going up ends at the first row
/// and going down at the last.
pub proof fn law_pages_are_a_third_of_the_pane(app: AppView)
    requires
        app.wf(),
    ensures
        ({
            let page = app.page();
            let up = app.page_up();
            let down = app.scrolled_to(app.scroll_offset() + page);
            &&& app.height >= 3 ==> 3 * page <= app.height < 3 * page + 3
            &&& app.height < 3 ==> page == 1
            &&& app.scroll_offset() >= page ==> up.scroll_offset() == app.scroll_offset() - page
            &&& app.scroll_offset() < page ==> up.scroll_offset() == 0
            &&& app.scroll_offset() + page <= app.max_offset() ==> down.scroll_offset()
                == app.scroll_offset() + page
            &&& app.scroll_offset() + page > app.max_offset() ==> down.scroll_offset()
                == app.max_offset()
            &&& app.total_height() > app.height ==> app.max_offset() + app.height
                == app.total_height()
            &&& app.total_height() <= app.height ==> app.max_offset() == 0
        }),
{
}

/// The selection moves to the next newer or older message, and not past the ends.
pub proof fn law_the_selection_moves_by_one(app: AppView, at: int)
    requires
        app.wf(),
        app.focus == Focus::Messages,
        app.selected() == Some(at),
        at < app.active_channel()->0.messages.len(),
    ensures
        ({
            let messages = app.active_channel()->0.messages;
            &&& at + 1 < messages.len() ==> app.select_next().selected() == Some(at + 1)
            &&& at + 1 == messages.len() ==> app.select_next().selected() == Some(at)
            &&& at > 0 ==> app.select_prev().selected() == Some(at - 1)
            &&& at == 0 ==> app.select_prev().selected() == Some(at)
            &&& app.select_next().active_channel()->0.messages == messages
            &&& app.select_prev().active_channel()->0.messages == messages
        }),
{
    let index = app.active->0;
    assert(app.channels[index].sound());
    assert(app.channels.update(index, app.channels[index]) =~= app.channels);
}

/// Elsewhere the selection does not move.
pub proof fn law_the_selection_moves_with_the_focus(app: AppView)
    requires
        app.wf(),
        app.focus != Focus::Messages,
    ensures
        app.select_next() == app,
        app.select_prev() == app,
{
}

/// The cursor of the sidebar moves a row down or up, and not past the ends.
pub proof fn law_the_cursor_moves_by_one(app: AppView, at: int)
    requires
        app.wf(),
        app.cursor == Some(at),
        at < app.sidebar_rows().len(),
    ensures
        app.focus == Focus::Sidebar ==> {
            &&& at + 1 < app.sidebar_rows().len() ==> app.move_cursor(true).cursor == Some(at + 1)
            &&& at + 1 == app.sidebar_rows().len() ==> app.move_cursor(true).cursor == Some(at)
            &&& at > 0 ==> app.move_cursor(false).cursor == Some(at - 1)
            &&& at == 0 ==> app.move_cursor(false).cursor == Some(at)
            &&& app.move_cursor(true).active == app.active
            &&& app.move_cursor(false).active == app.active
        },
        app.focus != Focus::Sidebar ==> app.move_cursor(true) == app && app.move_cursor(false)
            == app,
{
}

/// Using the row of a channel shows the channel and gives the composer the focus.
pub proof fn law_a_row_shows_its_channel(app: AppView, at: int, index: int)
    requires
        app.wf(),
        app.focus == Focus::Sidebar,
        app.cursor == Some(at),
        at < app.sidebar_rows().len(),
        app.sidebar_rows()[at].channel is Some,
        stands_at(app, index, app.sidebar_rows()[at].server, app.sidebar_rows()[at].channel->0),
    ensures
        app.enter().active == Some(index),
        app.enter().focus == Focus::Composer,
        app.enter().cursor is None,
{
    lemma_stands_at(app, index, app.sidebar_rows()[at].server, app.sidebar_rows()[at].channel->0);
}

/// Using the row of a server folds it, and using it again unfolds it; no other
/// server folds with it unless they differ in case alone.
pub proof fn law_servers_fold_and_unfold(app: AppView, server: Seq<char>, other: Seq<char>, at: int)
    requires
        app.wf(),
    ensures
        app.toggle(server).server_collapsed(server) == !app.server_collapsed(server),
        app.toggle(server).toggle(server).collapsed == app.collapsed,
        text::lowercase(other) != text::lowercase(server) ==> app.toggle(server).server_collapsed(
            other,
        ) == app.server_collapsed(other),
        app.toggle(server).active == app.active,
        app.toggle(server).channels == app.channels,
        app.toggle(server).focus == app.focus,
        app.focus == Focus::Sidebar && app.cursor == Some(at) && at < app.sidebar_rows().len()
            && app.sidebar_rows()[at].channel is None && app.sidebar_rows()[at].server == server
            ==> app.enter() == app.toggle(server),
{
    let key = text::lowercase(server);
    if app.collapsed.contains(key) {
        assert(app.collapsed.remove(key).insert(key) =~= app.collapsed);
    } else {
        assert(app.collapsed.insert(key).remove(key) =~= app.collapsed);
    }
}

/// A folded server is one row; an unfolded one is followed by its channels, in the
/// order in which they were opened.
pub proof fn law_unfolded_servers_list_their_channels(
    app: AppView,
    server: Seq<char>,
    i: int,
    j: int,
)
    requires
        0 <= i < j < app.channels.len(),
        text::same_name(app.channels[i].server, server),
        text::same_name(app.channels[j].server, server),
    ensures
        ({
            let rows = app.group(server);
            &&& rows.len() >= 1
            &&& rows[0].server == server && rows[0].channel is None
            &&& app.server_collapsed(server) ==> rows.len() == 1
            &&& !app.server_collapsed(server) ==> exists|a: int, b: int|
                0 < a < b < rows.len() && (#[trigger] rows[a]).channel == Some(
                    app.channels[i].channel,
                ) && (#[trigger] rows[b]).channel == Some(app.channels[j].channel)
        }),
{
    let rows = app.group(server);
    if !app.server_collapsed(server) {
        lemma_selected_at(app.channels, is_on(server), i);
        lemma_selected_at(app.channels, is_on(server), j);
        lemma_selected_order(app.channels, is_on(server), i, j);
        let a = 1 + selected(app.channels.take(i), is_on(server)).len() as int;
        let b = 1 + selected(app.channels.take(j), is_on(server)).len() as int;
        assert(rows[a].channel == Some(app.channels[i].channel));
        assert(rows[b].channel == Some(app.channels[j].channel));
    }
}

/// A channel that is laid out anew drops its oldest messages, and no more than it has
/// to: what is left takes no more rows than allowed or is a single message, and with
/// one message more it would take too many.
pub proof fn law_rows_are_bounded(messages: Seq<ChatMessageView>, width: u16, cap: nat)
    ensures
        ({
            let gone = drops(messages, width, cap) as int;
            let left = messages.skip(gone);
            &&& 0 <= gone <= messages.len()
            &&& left.len() > 1 ==> total_rows(all_said(left), width) <= cap
            &&& messages.len() > 0 ==> left.len() > 0
            &&& gone > 0 ==> total_rows(all_said(messages.skip(gone - 1)), width) > cap
        }),
    decreases messages.len(),
{
    let gone = drops(messages, width, cap) as int;
    if messages.len() > 1 && total_rows(all_said(messages), width) > cap {
        let rest = messages.drop_first();
        law_rows_are_bounded(rest, width, cap);
        assert(messages.skip(gone) =~= rest.skip(gone - 1));
        if gone > 1 {
            assert(messages.skip(gone - 1) =~= rest.skip(gone - 2));
        } else {
            assert(messages.skip(0) =~= messages);
        }
    } else {
        assert(messages.skip(0) =~= messages);
    }
}

/// The selected message is brought into view, and nothing moves where it is in view.
pub proof fn law_the_selection_is_brought_into_view(
    state: ChannelView,
    width: u16,
    height: u16,
    index: int,
)
    requires
        state.selected == Some(index),
        0 <= index < state.messages.len(),
        0 <= state.offset <= state.max_offset(width, height),
        total_rows(state.said(), width) <= u16::MAX,
        state.said()[index].height(width) <= height,
        start_row(state.said(), index, width) + state.said()[index].height(width) <= total_rows(
            state.said(),
            width,
        ),
    ensures
        ({
            let after = state.revealed(width, height);
            let first = start_row(state.said(), index, width) as int;
            let rows = state.said()[index].height(width) as int;
            &&& after.offset <= first || after.offset == state.max_offset(width, height)
            &&& first + rows <= after.offset + height
            &&& state.offset <= first && first + rows <= state.offset + height ==> after.offset
                == state.offset
            &&& after.messages == state.messages && after.selected == state.selected
        }),
{
}

/// With none selected, the newest message that is in view as a whole is selected, or
/// else the newest of all.
pub proof fn law_the_newest_message_in_view_is_selected(
    state: ChannelView,
    width: u16,
    height: u16,
    k: int,
)
    requires
        state.selected is None,
        state.messages.len() > 0,
    ensures
        0 <= k < state.messages.len() && state.shows(k, width, height) && (forall|i: int|
            k < i < state.messages.len() ==> !#[trigger] state.shows(i, width, height))
            ==> state.with_selection(width, height).selected == Some(k),
        (forall|i: int|
            0 <= i < state.messages.len() ==> !#[trigger] state.shows(i, width, height))
            ==> state.with_selection(width, height).selected == Some(state.messages.len() - 1),
        state.shows(k, width, height) <==> state.offset <= start_row(state.said(), k, width)
            && start_row(state.said(), k, width) + state.said()[k].height(width) <= state.offset
            + height,
{
    let count = state.messages.len() as int;
    if 0 <= k < count && state.shows(k, width, height) && (forall|i: int|
        k < i < count ==> !#[trigger] state.shows(i, width, height)) {
        lemma_newest_shown(state, width, height, count, k);
    }
    if forall|i: int| 0 <= i < count ==> !#[trigger] state.shows(i, width, height) {
        lemma_none_shown(state, width, height, count);
    }
}

proof fn lemma_newest_shown(state: ChannelView, width: u16, height: u16, count: int, k: int)
    requires
        0 <= k < count,
        state.shows(k, width, height),
        forall|i: int| k < i < count ==> !#[trigger] state.shows(i, width, height),
    ensures
        state.newest_shown(count, width, height) == k,
    decreases count,
{
    if k < count - 1 {
        assert(!state.shows(count - 1, width, height));
        lemma_newest_shown(state, width, height, count - 1, k);
    }
}

proof fn lemma_none_shown(state: ChannelView, width: u16, height: u16, count: int)
    requires
        forall|i: int| 0 <= i < count ==> !#[trigger] state.shows(i, width, height),
    ensures
        state.newest_shown(count, width, height) == state.messages.len() - 1,
    decreases count,
{
    if count > 0 {
        assert(!state.shows(count - 1, width, height));
        lemma_none_shown(state, width, height, count - 1);
    }
}

/// Servers stand in the order in which their channels were opened, each once and
/// under the name that it appeared by first.
pub proof fn law_servers_keep_their_order(channels: Seq<ChannelView>, state: ChannelView)
    ensures
        server_names(Seq::empty()).len() == 0,
        (forall|i: int|
            0 <= i < channels.len() ==> !text::same_name(
                (#[trigger] channels[i]).server,
                state.server,
            )) ==> server_names(channels.push(state)) == server_names(channels).push(state.server),
        (exists|i: int|
            0 <= i < channels.len() && text::same_name((#[trigger] channels[i]).server, state.server))
            ==> server_names(channels.push(state)) == server_names(channels),
{
    assert(channels.push(state).drop_last() =~= channels);
    lemma_named_servers(channels, state.server);
}

proof fn lemma_named_servers(channels: Seq<ChannelView>, server: Seq<char>)
    ensures
        listed(server_names(channels), server) <==> exists|i: int|
            0 <= i < channels.len() && text::same_name((#[trigger] channels[i]).server, server),
    decreases channels.len(),
{
    if channels.len() > 0 {
        let rest = channels.drop_last();
        let before = server_names(rest);
        let after = server_names(channels);
        lemma_named_servers(rest, server);
        assert(forall|i: int| 0 <= i < rest.len() ==> rest[i] == channels[i]);
        if listed(after, server) {
            let k = choose|k: int| 0 <= k < after.len() && text::same_name(#[trigger] after[k], server);
            if k < before.len() {
                assert(text::same_name(before[k], server));
                let i = choose|i: int|
                    0 <= i < rest.len() && text::same_name((#[trigger] rest[i]).server, server);
                assert(text::same_name(channels[i].server, server));
            } else {
                assert(text::same_name(channels[channels.len() - 1].server, server));
            }
        }
        if exists|i: int|
            0 <= i < channels.len() && text::same_name((#[trigger] channels[i]).server, server) {
            let i = choose|i: int|
                0 <= i < channels.len() && text::same_name((#[trigger] channels[i]).server, server);
            if i < rest.len() {
                assert(text::same_name(rest[i].server, server));
                let k = choose|k: int|
                    0 <= k < before.len() && text::same_name(#[trigger] before[k], server);
                assert(text::same_name(after[k], server));
            } else if listed(before, channels.last().server) {
                let k = choose|k: int|
                    0 <= k < before.len() && text::same_name(
                        #[trigger] before[k],
                        channels.last().server,
                    );
                assert(text::same_name(after[k], server));
            } else {
                assert(text::same_name(after[before.len() as int], server));
            }
        }
    }
}

} // verus!
