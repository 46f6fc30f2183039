//! Laws of what is drawn: the sidebar, the composer and the messages.

use vstd::prelude::*;

use crate::application::laws::{lemma_index_about, lemma_index_of};
use crate::application::BufferView;
use crate::columns::span;
use crate::connection::ConnectionState;
use crate::model::{BufferKindView, ChannelState};
use crate::sequence::{lemma_is_first_index, lemma_selected_at, lemma_selected_order, selected};
use crate::text;
use crate::tui::input::{
    input_layout, lemma_row_end, law_rows_cover_the_text, row, row_end, rows_from, InputLineView,
};
use crate::tui::layout::LayoutView;
use crate::tui::render::{drawn_input, drawn_line, Dot, GeometryView, Shade, SidebarEntryView};
use crate::tui::sidebar::{
    group, is_channel_of, is_console_of, is_query_of, on_server, row_of, servers_of,
};
use crate::tui::view::{AppView, Focus};

verus! {

/// The row of a conversation says its name: a server's and a channel's as it is, a
/// peer's behind an at sign, and a star behind it while it is unread.
pub proof fn law_rows_say_their_names(app: AppView, index: int, i: int)
    requires
        app.session.wf(),
        0 <= index < app.sidebar_rows().len(),
        0 <= i < app.session.buffers.len(),
        app.sidebar_rows()[index] == row_of(app.session.buffers[i]),
    ensures
        ({
            let buffer = app.session.buffers[i];
            let label = app.entry(index).label;
            let star = if buffer.unread {
                seq!['*']
            } else {
                Seq::empty()
            };
            &&& buffer.kind matches BufferKindView::Channel(name) ==> label == name + star
            &&& buffer.kind matches BufferKindView::Query(peer) ==> label == seq!['@'] + peer + star
            &&& buffer.kind is Server ==> label == buffer.server_label + star
            &&& app.entry(index).heading <==> buffer.kind is Server
            &&& app.entry(index).active <==> app.session.active == Some(buffer.id)
        }),
{
    lemma_index_of(app.session, i);
}

/// The dot of a server is green while it is connected, grey and off in turn while it
/// is connecting, and red otherwise.
pub proof fn law_server_dots_show_the_connection(app: AppView, index: int, state: ConnectionState)
    requires
        0 <= index < app.sidebar_rows().len(),
        app.sidebar_rows()[index].kind is Server,
        app.session.servers.contains_key(text::lower(app.sidebar_rows()[index].server)),
        app.session.servers[text::lower(app.sidebar_rows()[index].server)].connection == state,
    ensures
        state == ConnectionState::Connected ==> app.entry(index).dot == Some(Dot::Green),
        state == ConnectionState::Connecting && app.dot ==> app.entry(index).dot == Some(Dot::Grey),
        state == ConnectionState::Connecting && !app.dot ==> app.entry(index).dot == Some(Dot::Off),
        state == ConnectionState::Stopped ==> app.entry(index).dot == Some(Dot::Red),
{
}

/// The dot of a channel is green while it is joined over a confirmed connection,
/// grey and off in turn while it is being joined or left, and red otherwise. Peers
/// have none.
pub proof fn law_channel_dots_show_membership(app: AppView, index: int, i: int)
    requires
        app.session.wf(),
        0 <= index < app.sidebar_rows().len(),
        0 <= i < app.session.buffers.len(),
        app.sidebar_rows()[index] == row_of(app.session.buffers[i]),
    ensures
        ({
            let buffer = app.session.buffers[i];
            let state = buffer.channel_status.state;
            let up = app.session.servers[buffer.server].connection == ConnectionState::Connected;
            let dot = app.entry(index).dot;
            &&& buffer.kind is Query ==> dot is None
            &&& buffer.kind is Channel && state == ChannelState::Joined && up ==> dot == Some(
                Dot::Green,
            )
            &&& buffer.kind is Channel && (state == ChannelState::Joining || state
                == ChannelState::Parting) ==> dot == Some(
                if app.dot {
                    Dot::Grey
                } else {
                    Dot::Off
                },
            )
            &&& buffer.kind is Channel && (state == ChannelState::NotJoined || state
                == ChannelState::Uncertain || (state == ChannelState::Joined && !up)) ==> dot
                == Some(Dot::Red)
        }),
{
    let buffer = app.session.buffers[i];
    assert(app.session.servers.contains_key(buffer.server));
    if buffer.kind is Channel {
        lemma_index_about(app.session, i, buffer.kind);
    }
}

/// The cursor is drawn on its row while the sidebar has the focus, and the hover on
/// its row. Of several backgrounds the active conversation's wins, then the cursor's.
pub proof fn law_rows_have_one_background(app: AppView, index: int, entry: SidebarEntryView)
    ensures
        app.entry(index).cursor <==> app.focus == Focus::Sidebar && app.cursor is Some
            && app.cursor->0.row == index,
        app.entry(index).hovered <==> app.hovered is Some && app.hovered->0.row == index,
        entry.active ==> entry.shade() == Some(Shade::Active),
        !entry.active && entry.cursor ==> entry.shade() == Some(Shade::Cursor),
        !entry.active && !entry.cursor && entry.hovered ==> entry.shade() == Some(Shade::Hovered),
        !entry.active && !entry.cursor && !entry.hovered ==> entry.shade() is None,
{
}

/// The sidebar draws the rows from its offset on, as many as fit.
pub proof fn law_the_sidebar_draws_what_fits(app: AppView, height: int, i: int)
    requires
        0 <= app.sidebar_offset,
        0 <= height,
    ensures
        ({
            let drawn = app.entries(height);
            let left = app.sidebar_rows().len() - app.sidebar_offset;
            &&& left >= height ==> drawn.len() == height
            &&& 0 <= left < height ==> drawn.len() == left
            &&& left < 0 ==> drawn.len() == 0
            &&& 0 <= i < drawn.len() ==> drawn[i] == app.entry(app.sidebar_offset + i)
        }),
{
}

/// The rows of a server begin with its own; below it stand the channels, and below
/// these the private conversations that are shown, each in the order in which they
/// were opened.
pub proof fn law_conversations_keep_their_order(
    buffers: Seq<BufferView>,
    server: Seq<char>,
    i: int,
    j: int,
)
    requires
        0 <= i < j < buffers.len(),
        buffers[i].server == server,
        buffers[j].server == server,
    ensures
        group(buffers, server)[0].kind is Server,
        ({
            let rows = group(buffers, server);
            let both_channels = buffers[i].kind is Channel && buffers[j].kind is Channel;
            let both_peers = buffers[i].kind is Query && buffers[j].kind is Query
                && !buffers[i].hidden && !buffers[j].hidden;
            let channel_first = buffers[i].kind is Channel && buffers[j].kind is Query
                && !buffers[j].hidden;
            let peer_first = buffers[i].kind is Query && !buffers[i].hidden && buffers[j].kind
                is Channel;
            &&& both_channels || both_peers || channel_first ==> exists|a: int, b: int|
                0 < a < b < rows.len() && #[trigger] rows[a] == row_of(buffers[i])
                    && #[trigger] rows[b] == row_of(buffers[j])
            &&& peer_first ==> exists|a: int, b: int|
                0 < a < b < rows.len() && #[trigger] rows[a] == row_of(buffers[j])
                    && #[trigger] rows[b] == row_of(buffers[i])
        }),
{
    let rows = group(buffers, server);
    let channels = selected(buffers, is_channel_of(server));
    let queries = selected(buffers, is_query_of(server));
    let channel_i = 1 + selected(buffers.take(i), is_channel_of(server)).len() as int;
    let channel_j = 1 + selected(buffers.take(j), is_channel_of(server)).len() as int;
    let query_i = 1 + channels.len() + selected(buffers.take(i), is_query_of(server)).len() as int;
    let query_j = 1 + channels.len() + selected(buffers.take(j), is_query_of(server)).len() as int;
    if buffers[i].kind is Channel {
        lemma_selected_at(buffers, is_channel_of(server), i);
        lemma_selected_order(buffers, is_channel_of(server), i, j);
        assert(rows[channel_i] == row_of(buffers[i]));
    }
    if buffers[j].kind is Channel {
        lemma_selected_at(buffers, is_channel_of(server), j);
        assert(rows[channel_j] == row_of(buffers[j]));
    }
    if buffers[i].kind is Query && !buffers[i].hidden {
        lemma_selected_at(buffers, is_query_of(server), i);
        lemma_selected_order(buffers, is_query_of(server), i, j);
        assert(rows[query_i] == row_of(buffers[i]));
    }
    if buffers[j].kind is Query && !buffers[j].hidden {
        lemma_selected_at(buffers, is_query_of(server), j);
        assert(rows[query_j] == row_of(buffers[j]));
    }
}

/// A server's own row has the name that it was opened under first, and shows its
/// console.
pub proof fn law_a_servers_row_shows_its_console(
    buffers: Seq<BufferView>,
    server: Seq<char>,
    first: int,
    console: int,
)
    requires
        0 <= first < buffers.len(),
        buffers[first].server == server,
        forall|i: int| 0 <= i < first ==> (#[trigger] buffers[i]).server != server,
        0 <= console < buffers.len(),
        buffers[console].server == server,
        buffers[console].kind is Server,
        forall|i: int|
            0 <= i < console ==> (#[trigger] buffers[i]).server != server || !(buffers[i].kind
                is Server),
    ensures
        group(buffers, server)[0].server == buffers[first].server_label,
        group(buffers, server)[0].id == Some(buffers[console].id),
{
    assert forall|i: int| 0 <= i < first implies !on_server(server)(#[trigger] buffers[i]) by {
        assert(buffers[i].server != server);
    }
    lemma_is_first_index(buffers, on_server(server), first);
    assert forall|i: int| 0 <= i < console implies !is_console_of(server)(
        #[trigger] buffers[i],
    ) by {
        assert(buffers[i].server != server || !(buffers[i].kind is Server));
    }
    lemma_is_first_index(buffers, is_console_of(server), console);
}

/// Servers stand in the order in which they were opened, each once.
pub proof fn law_servers_keep_their_order(buffers: Seq<BufferView>, buffer: BufferView)
    ensures
        servers_of(Seq::empty()).len() == 0,
        (forall|i: int| 0 <= i < buffers.len() ==> (#[trigger] buffers[i]).server != buffer.server)
            ==> servers_of(buffers.push(buffer)) == servers_of(buffers).push(buffer.server),
        (exists|i: int|
            0 <= i < buffers.len() && (#[trigger] buffers[i]).server == buffer.server)
            ==> servers_of(buffers.push(buffer)) == servers_of(buffers),
{
    assert(buffers.push(buffer).drop_last() =~= buffers);
    lemma_listed_servers(buffers, buffer.server);
}

proof fn lemma_listed_servers(buffers: Seq<BufferView>, server: Seq<char>)
    ensures
        servers_of(buffers).contains(server) <==> exists|i: int|
            0 <= i < buffers.len() && (#[trigger] buffers[i]).server == server,
    decreases buffers.len(),
{
    if buffers.len() > 0 {
        let rest = buffers.drop_last();
        let before = servers_of(rest);
        let after = servers_of(buffers);
        lemma_listed_servers(rest, server);
        assert(forall|i: int| 0 <= i < rest.len() ==> rest[i] == buffers[i]);
        if after.contains(server) {
            let k = choose|k: int| 0 <= k < after.len() && after[k] == server;
            if k < before.len() {
                assert(before[k] == server);
                let i = choose|i: int|
                    0 <= i < rest.len() && (#[trigger] rest[i]).server == server;
                assert(buffers[i].server == server);
            } else {
                assert(buffers[buffers.len() - 1].server == server);
            }
        }
        if exists|i: int| 0 <= i < buffers.len() && (#[trigger] buffers[i]).server == server {
            let i = choose|i: int|
                0 <= i < buffers.len() && (#[trigger] buffers[i]).server == server;
            if i < rest.len() {
                assert(rest[i].server == server);
                let k = choose|k: int| 0 <= k < before.len() && before[k] == server;
                assert(after[k] == server);
            } else if !before.contains(server) {
                assert(after[before.len() as int] == server);
            }
        }
    }
}

/// A row of the composer is drawn whole. Where the cursor is on it, it parts the row
/// at the character that it covers, or covers a blank behind the last one.
pub proof fn law_rows_are_drawn_whole(line: InputLineView, at: int)
    requires
        line.start <= at,
    ensures
        drawn_line(line, None).before == line.text,
        drawn_line(line, None).cursor is None,
        drawn_line(line, None).after.len() == 0,
        ({
            let drawn = drawn_line(line, Some(at));
            &&& drawn.cursor is Some
            &&& at < line.start + line.text.len() ==> {
                &&& drawn.before + drawn.cursor->0 + drawn.after == line.text
                &&& drawn.before.len() == at - line.start
                &&& drawn.cursor->0 == seq![line.text[at - line.start]]
            }
            &&& at >= line.start + line.text.len() ==> {
                &&& drawn.before == line.text
                &&& drawn.cursor->0 == seq![' ']
                &&& drawn.after.len() == 0
            }
        }),
{
    let drawn = drawn_line(line, Some(at));
    if at < line.start + line.text.len() {
        assert(drawn.before + drawn.cursor->0 + drawn.after =~= line.text);
        assert(drawn.cursor->0 =~= seq![line.text[at - line.start]]);
    }
}

/// The composer draws its rows from the first visible one on, as many as fit, and the
/// cursor on its own row alone, while it has the focus.
pub proof fn law_the_composer_draws_what_fits(
    g: GeometryView,
    cursor: int,
    focused: bool,
    i: int,
)
    requires
        0 <= g.first_input_line,
    ensures
        ({
            let drawn = drawn_input(g, cursor, focused);
            let left = g.input_layout.lines.len() - g.first_input_line;
            let line = g.first_input_line + i;
            &&& left >= g.input.height ==> drawn.len() == g.input.height
            &&& 0 <= left < g.input.height ==> drawn.len() == left
            &&& 0 <= i < drawn.len() ==> {
                &&& drawn[i].cursor is Some <==> focused && line == g.input_layout.cursor_row
                &&& drawn[i] == drawn_line(
                    g.input_layout.lines[line],
                    if focused && line == g.input_layout.cursor_row {
                        Some(cursor)
                    } else {
                        None
                    },
                )
            }
        }),
{
}

/// A row of the composer takes what fits: the character that the next row begins
/// with would be too wide for it.
pub proof fn law_rows_of_the_composer_are_full(text: Seq<char>, cursor: int, width: int, i: int)
    requires
        0 <= cursor,
        1 <= width,
        0 <= i,
        i + 1 < input_layout(text, cursor, width).lines.len(),
    ensures
        ({
            let lines = input_layout(text, cursor, width).lines;
            let line = lines[i];
            &&& line.end < text.len() ==> span(text.subrange(line.start, line.end + 1)) > width
            &&& line.end == text.len() ==> span(line.text) >= width
        }),
{
    if text.len() > 0 {
        let rows = rows_from(text, 0, width as nat);
        let lines = input_layout(text, cursor, width).lines;
        if i < rows.len() {
            lemma_rows_are_full(text, 0, width as nat, i);
            assert(lines[i] == rows[i]);
            if i + 1 < rows.len() {
                lemma_inner_rows_end_before(text, 0, width as nat, i);
            } else {
                assert(rows.last() == rows[i]);
            }
        }
    }
}

proof fn lemma_inner_rows_end_before(text: Seq<char>, start: int, width: nat, i: int)
    requires
        0 <= start <= text.len(),
        0 <= i,
        i + 1 < rows_from(text, start, width).len(),
    ensures
        rows_from(text, start, width)[i].end < text.len(),
    decreases i,
{
    let end = row_end(text, start, start, width);
    lemma_row_end(text, start, start, width);
    let rest = rows_from(text, end, width);
    if i > 0 {
        lemma_inner_rows_end_before(text, end, width, i - 1);
        assert(rows_from(text, start, width)[i] == rest[i - 1]);
    }
}

proof fn lemma_rows_are_full(text: Seq<char>, start: int, width: nat, i: int)
    requires
        0 <= start <= text.len(),
        0 <= i < rows_from(text, start, width).len(),
    ensures
        ({
            let line = rows_from(text, start, width)[i];
            &&& line.end < text.len() ==> span(text.subrange(line.start, line.end + 1)) > width
        }),
    decreases i,
{
    let end = row_end(text, start, start, width);
    lemma_row_end(text, start, start, width);
    lemma_row_is_full(text, start, start, width);
    let rest = rows_from(text, end, width);
    if i > 0 {
        lemma_rows_are_full(text, end, width, i - 1);
        assert(rows_from(text, start, width)[i] == rest[i - 1]);
    } else {
        assert(rows_from(text, start, width)[0] == row(text, start, end));
    }
}

proof fn lemma_row_is_full(text: Seq<char>, start: int, end: int, width: nat)
    requires
        0 <= start <= end <= text.len(),
        start < text.len(),
    ensures
        ({
            let stop = row_end(text, start, end, width);
            stop < text.len() ==> span(text.subrange(start, stop + 1)) > width
        }),
    decreases text.len() - end,
{
    if end < text.len() && (end == start || span(text.subrange(start, end + 1)) <= width) {
        lemma_row_is_full(text, start, end + 1, width);
    }
}

/// The cursor stands in the column behind what its row holds before it.
pub proof fn law_the_cursor_stands_behind_its_text(text: Seq<char>, cursor: int, width: int)
    requires
        0 <= cursor <= text.len(),
        1 <= width,
    ensures
        ({
            let layout = input_layout(text, cursor, width);
            let line = layout.lines[layout.cursor_row];
            layout.cursor_column == span(text.subrange(line.start, cursor))
        }),
{
    law_rows_cover_the_text(text, cursor, width);
    let layout = input_layout(text, cursor, width);
    let line = layout.lines[layout.cursor_row];
    if cursor == text.len() {
        assert(layout.lines.last() == line);
        assert(line.text =~= text.subrange(line.start, cursor));
    }
}

/// A row of the pane belongs to the message whose rows it is among, and the rows
/// between messages to none.
pub proof fn law_rows_belong_to_their_message(layout: LayoutView, index: int, row: int)
    requires
        0 <= index < layout.messages.len(),
    ensures
        layout.start(index) <= row < layout.start(index) + layout.height(index)
            ==> layout.message_at(row) == Some(index) && layout.line_at(row)
            == layout.messages[index].said.line(row - layout.start(index), layout.width),
        row == layout.start(index) - 1 ==> layout.message_at(row) is None,
        layout.start(0) == 1,
        index + 1 < layout.messages.len() ==> layout.start(index + 1) == layout.start(index)
            + layout.height(index) + 1,
        layout.height(index) >= 1,
        row < 0 ==> layout.message_at(row) is None,
        row >= layout.total() ==> layout.message_at(row) is None,
{
    layout.lemma_next_start(index);
    layout.lemma_holder(row);
    let found = layout.holder(row, 0);
    let last = layout.messages.len() - 1;
    layout.lemma_total(last);
    layout.lemma_next_start(0);
    if found < index {
        layout.lemma_ends_grow(found, index);
        layout.lemma_next_start(found);
    }
    if found > index && found > 0 {
        if found - 1 > index {
            layout.lemma_ends_grow(index, found - 1);
        }
    }
    if found < layout.messages.len() {
        layout.lemma_next_start(found);
        layout.lemma_total(found);
        if found > 0 {
            layout.lemma_next_start(found - 1);
        }
    }
}

} // verus!
