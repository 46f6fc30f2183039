//! The rows of the sidebar, and how one is found again.

use vstd::prelude::*;

use crate::application::{Buffer, BufferView};
use crate::model::{BufferId, BufferKind, BufferKindView, ServerId};
use crate::sequence::{
    first_index, lemma_is_first_index, lemma_no_first_index, lemma_selected_next, selected,
};
use crate::text;

verus! {

#[verifier::ext_equal]
pub ghost struct SidebarRowView {
    pub server: Seq<char>,
    pub kind: BufferKindView,
    pub id: Option<BufferId>,
}

/// One row of the sidebar: a server, or one of its conversations.
#[derive(Debug, PartialEq, Eq)]
pub struct SidebarRow {
    pub server: String,
    pub kind: BufferKind,
    /// The conversation that the row shows; a server without a console has none.
    pub id: Option<BufferId>,
}

impl View for SidebarRow {
    type V = SidebarRowView;

    open spec fn view(&self) -> SidebarRowView {
        SidebarRowView { server: self.server@, kind: self.kind@, id: self.id }
    }
}

impl DeepView for SidebarRow {
    type V = SidebarRowView;

    open spec fn deep_view(&self) -> SidebarRowView {
        self@
    }
}

impl Clone for SidebarRow {
    fn clone(&self) -> (copy: Self)
        ensures
            copy@ == self@,
    {
        SidebarRow { server: self.server.clone(), kind: self.kind.clone(), id: self.id }
    }
}

pub ghost enum RowKeyView {
    Server(Seq<char>),
    Conversation(BufferId),
}

/// What a row is about, wherever it stands.
#[derive(Debug)]
pub enum RowKey {
    Server(ServerId),
    Conversation(BufferId),
}

impl View for RowKey {
    type V = RowKeyView;

    open spec fn view(&self) -> RowKeyView {
        match self {
            RowKey::Server(server) => RowKeyView::Server(server@),
            RowKey::Conversation(id) => RowKeyView::Conversation(*id),
        }
    }
}

impl DeepView for RowKey {
    type V = RowKeyView;

    open spec fn deep_view(&self) -> RowKeyView {
        self@
    }
}

impl SidebarRowView {
    /// A server's own row is known by the server, the others by their conversation.
    pub open spec fn key(self) -> RowKeyView {
        match (self.kind, self.id) {
            (BufferKindView::Server, _) => RowKeyView::Server(text::lower(self.server)),
            (_, Some(id)) => RowKeyView::Conversation(id),
            (_, None) => RowKeyView::Server(text::lower(self.server)),
        }
    }
}

impl SidebarRow {
    pub fn key(&self) -> (key: RowKey)
        ensures
            key@ == self@.key(),
    {
        match (&self.kind, self.id) {
            (BufferKind::Server, _) => RowKey::Server(ServerId::new(self.server.as_str())),
            (_, Some(id)) => RowKey::Conversation(id),
            (_, None) => RowKey::Server(ServerId::new(self.server.as_str())),
        }
    }

    /// Whether the row is about what `key` says.
    pub fn has_key(&self, key: &RowKey) -> (answer: bool)
        ensures
            answer == (self@.key() == key@),
    {
        match (self.key(), key) {
            (RowKey::Server(own), RowKey::Server(other)) => own.same(other),
            (RowKey::Conversation(own), RowKey::Conversation(other)) => own == *other,
            _ => false,
        }
    }
}

pub open spec fn has_key(key: RowKeyView) -> spec_fn(SidebarRowView) -> bool {
    |row: SidebarRowView| row.key() == key
}

/// The row of a conversation.
pub open spec fn shows(id: BufferId) -> spec_fn(SidebarRowView) -> bool {
    |row: SidebarRowView| row.id == Some(id)
}

pub open spec fn on_server(server: Seq<char>) -> spec_fn(BufferView) -> bool {
    |buffer: BufferView| buffer.server == server
}

pub open spec fn is_console_of(server: Seq<char>) -> spec_fn(BufferView) -> bool {
    |buffer: BufferView| buffer.server == server && buffer.kind is Server
}

pub open spec fn is_channel_of(server: Seq<char>) -> spec_fn(BufferView) -> bool {
    |buffer: BufferView| buffer.server == server && buffer.kind is Channel
}

/// A private conversation that is not hidden.
pub open spec fn is_query_of(server: Seq<char>) -> spec_fn(BufferView) -> bool {
    |buffer: BufferView| buffer.server == server && buffer.kind is Query && !buffer.hidden
}

pub open spec fn row_of(buffer: BufferView) -> SidebarRowView {
    SidebarRowView { server: buffer.server_label, kind: buffer.kind, id: Some(buffer.id) }
}

pub open spec fn rows_of(buffers: Seq<BufferView>) -> Seq<SidebarRowView> {
    buffers.map_values(|buffer: BufferView| row_of(buffer))
}

/// The servers of conversations, in the order of their first one.
pub open spec fn servers_of(buffers: Seq<BufferView>) -> Seq<Seq<char>>
    decreases buffers.len(),
{
    if buffers.len() == 0 {
        Seq::empty()
    } else {
        let servers = servers_of(buffers.drop_last());
        if servers.contains(buffers.last().server) {
            servers
        } else {
            servers.push(buffers.last().server)
        }
    }
}

/// A server's own row, under the name it was registered by first.
pub open spec fn header(buffers: Seq<BufferView>, server: Seq<char>) -> SidebarRowView {
    SidebarRowView {
        server: match first_index(buffers, on_server(server)) {
            Some(index) => buffers[index].server_label,
            None => server,
        },
        kind: BufferKindView::Server,
        id: match first_index(buffers, is_console_of(server)) {
            Some(index) => Some(buffers[index].id),
            None => None,
        },
    }
}

/// The rows of one server: its own, its channels, its private conversations.
pub open spec fn group(buffers: Seq<BufferView>, server: Seq<char>) -> Seq<SidebarRowView> {
    seq![header(buffers, server)] + rows_of(selected(buffers, is_channel_of(server))) + rows_of(
        selected(buffers, is_query_of(server)),
    )
}

pub open spec fn groups(buffers: Seq<BufferView>, servers: Seq<Seq<char>>) -> Seq<SidebarRowView>
    decreases servers.len(),
{
    if servers.len() == 0 {
        Seq::empty()
    } else {
        groups(buffers, servers.drop_last()) + group(buffers, servers.last())
    }
}

/// All rows of the sidebar.
pub open spec fn rows(buffers: Seq<BufferView>) -> Seq<SidebarRowView> {
    groups(buffers, servers_of(buffers))
}

fn is_named(names: &Vec<ServerId>, name: &ServerId) -> (answer: bool)
    ensures
        answer == names.deep_view().contains(name@),
{
    let ghost all = names.deep_view();
    let mut i: usize = 0;
    while i < names.len()
        invariant
            i <= names.len(),
            all == names.deep_view(),
            forall|j: int| 0 <= j < i ==> all[j] != name@,
        decreases names.len() - i,
    {
        assert(all[i as int] == names@[i as int]@);
        if names[i].same(name) {
            assert(all.contains(name@));
            return true;
        }
        i = i + 1;
    }
    false
}

fn servers(buffers: &Vec<Buffer>) -> (names: Vec<ServerId>)
    ensures
        names.deep_view() == servers_of(buffers.deep_view()),
{
    let ghost all = buffers.deep_view();
    let mut names: Vec<ServerId> = Vec::new();
    let mut i: usize = 0;
    assert(names.deep_view() =~= Seq::empty());
    assert(all.take(0) =~= Seq::empty());
    while i < buffers.len()
        invariant
            i <= buffers.len(),
            all == buffers.deep_view(),
            names.deep_view() == servers_of(all.take(i as int)),
        decreases buffers.len() - i,
    {
        proof {
            assert(all[i as int] == buffers@[i as int]@);
            assert(all.take(i + 1).drop_last() =~= all.take(i as int));
        }
        let ghost before = names.deep_view();
        if !is_named(&names, &buffers[i].server) {
            names.push(buffers[i].server.clone());
            assert(names.deep_view() =~= before.push(all[i as int].server));
        }
        i = i + 1;
    }
    assert(all.take(i as int) =~= all);
    names
}

fn header_row(buffers: &Vec<Buffer>, server: &ServerId) -> (row: SidebarRow)
    ensures
        row@ == header(buffers.deep_view(), server@),
{
    let ghost all = buffers.deep_view();
    let mut label: Option<usize> = None;
    let mut console: Option<usize> = None;
    let mut i: usize = 0;
    while i < buffers.len()
        invariant
            i <= buffers.len(),
            all == buffers.deep_view(),
            match label {
                Some(index) => index < i && on_server(server@)(all[index as int]) && forall|j: int|
                    0 <= j < index ==> !on_server(server@)(#[trigger] all[j]),
                None => forall|j: int| 0 <= j < i ==> !on_server(server@)(#[trigger] all[j]),
            },
            match console {
                Some(index) => index < i && is_console_of(server@)(all[index as int]) && forall|
                    j: int,
                |
                    0 <= j < index ==> !is_console_of(server@)(#[trigger] all[j]),
                None => forall|j: int| 0 <= j < i ==> !is_console_of(server@)(#[trigger] all[j]),
            },
        decreases buffers.len() - i,
    {
        assert(all[i as int] == buffers@[i as int]@);
        if buffers[i].server.same(server) {
            if label.is_none() {
                label = Some(i);
            }
            if console.is_none() {
                match &buffers[i].kind {
                    BufferKind::Server => {
                        console = Some(i);
                    },
                    _ => {},
                }
            }
        }
        i = i + 1;
    }
    proof {
        match label {
            Some(index) => lemma_is_first_index(all, on_server(server@), index as int),
            None => lemma_no_first_index(all, on_server(server@)),
        }
        match console {
            Some(index) => lemma_is_first_index(all, is_console_of(server@), index as int),
            None => lemma_no_first_index(all, is_console_of(server@)),
        }
    }
    SidebarRow {
        server: match label {
            Some(index) => buffers[index].server_label.clone(),
            None => server.to_text(),
        },
        kind: BufferKind::Server,
        id: match console {
            Some(index) => Some(buffers[index].id),
            None => None,
        },
    }
}

/// The row of a conversation.
fn conversation_row(buffer: &Buffer) -> (row: SidebarRow)
    ensures
        row@ == row_of(buffer@),
{
    SidebarRow {
        server: buffer.server_label.clone(),
        kind: buffer.kind.clone(),
        id: Some(buffer.id),
    }
}

fn is_channel(buffer: &Buffer, server: &ServerId) -> (answer: bool)
    ensures
        answer == is_channel_of(server@)(buffer@),
{
    buffer.server.same(server) && match &buffer.kind {
        BufferKind::Channel(_) => true,
        _ => false,
    }
}

fn is_shown_query(buffer: &Buffer, server: &ServerId) -> (answer: bool)
    ensures
        answer == is_query_of(server@)(buffer@),
{
    buffer.server.same(server) && !buffer.hidden && match &buffer.kind {
        BufferKind::Query(_) => true,
        _ => false,
    }
}

/// Put the rows of a server's channels, or of its private conversations, behind
/// `rows`.
fn push_conversations(
    buffers: &Vec<Buffer>,
    server: &ServerId,
    channels: bool,
    rows: &mut Vec<SidebarRow>,
)
    ensures
        final(rows).deep_view() == old(rows).deep_view() + rows_of(
            selected(
                buffers.deep_view(),
                if channels {
                    is_channel_of(server@)
                } else {
                    is_query_of(server@)
                },
            ),
        ),
{
    let ghost all = buffers.deep_view();
    let ghost before = rows.deep_view();
    let ghost p = if channels {
        is_channel_of(server@)
    } else {
        is_query_of(server@)
    };
    let mut i: usize = 0;
    assert(all.take(0) =~= Seq::empty());
    assert(before + rows_of(selected(all.take(0), p)) =~= before);
    while i < buffers.len()
        invariant
            i <= buffers.len(),
            all == buffers.deep_view(),
            p == (if channels {
                is_channel_of(server@)
            } else {
                is_query_of(server@)
            }),
            rows.deep_view() == before + rows_of(selected(all.take(i as int), p)),
        decreases buffers.len() - i,
    {
        let ghost sofar = rows.deep_view();
        let ghost chosen = selected(all.take(i as int), p);
        proof {
            assert(all[i as int] == buffers@[i as int]@);
            lemma_selected_next(all, p, i as int);
        }
        let wanted = if channels {
            is_channel(&buffers[i], server)
        } else {
            is_shown_query(&buffers[i], server)
        };
        if wanted {
            let row = conversation_row(&buffers[i]);
            rows.push(row);
            proof {
                assert(rows.deep_view() =~= sofar.push(row@));
                assert(rows_of(chosen.push(all[i as int])) =~= rows_of(chosen).push(row@));
                assert(rows.deep_view() =~= before + rows_of(chosen.push(all[i as int])));
            }
        }
        i = i + 1;
    }
    assert(all.take(i as int) =~= all);
}

/// The rows of the sidebar. Servers stand in the order of their first conversation;
/// each is followed by its channels, then by its private conversations that are not
/// hidden, both in the order of registration.
pub fn sidebar_rows(buffers: &Vec<Buffer>) -> (found: Vec<SidebarRow>)
    ensures
        found.deep_view() == rows(buffers.deep_view()),
{
    let names = servers(buffers);
    let ghost all = names.deep_view();
    let ghost shown = buffers.deep_view();
    let mut found: Vec<SidebarRow> = Vec::new();
    let mut i: usize = 0;
    assert(found.deep_view() =~= Seq::empty());
    assert(all.take(0) =~= Seq::empty());
    while i < names.len()
        invariant
            i <= names.len(),
            all == names.deep_view(),
            shown == buffers.deep_view(),
            found.deep_view() == groups(shown, all.take(i as int)),
        decreases names.len() - i,
    {
        proof {
            assert(all[i as int] == names@[i as int]@);
            assert(all.take(i + 1).drop_last() =~= all.take(i as int));
        }
        let ghost before = found.deep_view();
        let row = header_row(buffers, &names[i]);
        found.push(row);
        assert(found.deep_view() =~= before + seq![row@]);
        push_conversations(buffers, &names[i], true, &mut found);
        push_conversations(buffers, &names[i], false, &mut found);
        assert(found.deep_view() =~= before + group(shown, all[i as int]));
        i = i + 1;
    }
    assert(all.take(i as int) =~= all);
    found
}

/// What is selected has the property and was there; what was there and has it is
/// selected.
proof fn lemma_selected(buffers: Seq<BufferView>, p: spec_fn(BufferView) -> bool, buffer: BufferView)
    ensures
        selected(buffers, p).contains(buffer) <==> buffers.contains(buffer) && p(buffer),
    decreases buffers.len(),
{
    if buffers.len() > 0 {
        let rest = buffers.drop_last();
        lemma_selected(rest, p, buffer);
        assert(rest.push(buffers.last()) =~= buffers);
        assert(buffers.contains(buffer) <==> rest.contains(buffer) || buffer == buffers.last()) by {
            if rest.contains(buffer) {
                let i = choose|i: int| 0 <= i < rest.len() && rest[i] == buffer;
                assert(buffers[i] == buffer);
            }
            if buffer == buffers.last() {
                assert(buffers[buffers.len() - 1] == buffer);
            }
            if buffers.contains(buffer) && buffer != buffers.last() {
                let i = choose|i: int| 0 <= i < buffers.len() && buffers[i] == buffer;
                assert(rest[i] == buffer);
            }
        }
        if p(buffers.last()) {
            let before = selected(rest, p);
            let after = before.push(buffers.last());
            assert(after.contains(buffer) <==> before.contains(buffer) || buffer == buffers.last())
                by {
                if before.contains(buffer) {
                    let i = choose|i: int| 0 <= i < before.len() && before[i] == buffer;
                    assert(after[i] == buffer);
                }
                assert(after[before.len() as int] == buffers.last());
            }
        }
    }
}

proof fn lemma_server_listed(buffers: Seq<BufferView>, index: int)
    requires
        0 <= index < buffers.len(),
    ensures
        servers_of(buffers).contains(buffers[index].server),
    decreases buffers.len(),
{
    let rest = servers_of(buffers.drop_last());
    let last = buffers.last().server;
    if index < buffers.len() - 1 {
        lemma_server_listed(buffers.drop_last(), index);
        assert(buffers.drop_last()[index] == buffers[index]);
        let i = choose|i: int| 0 <= i < rest.len() && rest[i] == buffers[index].server;
        assert(rest.push(last)[i] == rest[i]);
    } else {
        assert(rest.push(last)[rest.len() as int] == last);
    }
}

proof fn lemma_group_listed(
    buffers: Seq<BufferView>,
    servers: Seq<Seq<char>>,
    server: Seq<char>,
    row: int,
)
    requires
        servers.contains(server),
        0 <= row < group(buffers, server).len(),
    ensures
        groups(buffers, servers).contains(group(buffers, server)[row]),
    decreases servers.len(),
{
    let wanted = group(buffers, server)[row];
    let before = groups(buffers, servers.drop_last());
    let last = group(buffers, servers.last());
    if servers.last() == server {
        assert((before + last)[before.len() + row] == wanted);
    } else {
        let i = choose|i: int| 0 <= i < servers.len() && servers[i] == server;
        assert(servers.drop_last()[i] == server);
        lemma_group_listed(buffers, servers.drop_last(), server, row);
        let j = choose|j: int| 0 <= j < before.len() && before[j] == wanted;
        assert((before + last)[j] == wanted);
    }
}

proof fn lemma_row_in_a_group(
    buffers: Seq<BufferView>,
    servers: Seq<Seq<char>>,
    row: int,
) -> (server: Seq<char>)
    requires
        0 <= row < groups(buffers, servers).len(),
    ensures
        group(buffers, server).contains(groups(buffers, servers)[row]),
    decreases servers.len(),
{
    let before = groups(buffers, servers.drop_last());
    let last = group(buffers, servers.last());
    if row < before.len() {
        let server = lemma_row_in_a_group(buffers, servers.drop_last(), row);
        server
    } else {
        assert(last[row - before.len()] == (before + last)[row]);
        servers.last()
    }
}

/// Every channel and every private conversation that is not hidden has a row.
pub proof fn law_shown_conversations_have_a_row(buffers: Seq<BufferView>, index: int)
    requires
        0 <= index < buffers.len(),
        buffers[index].kind is Channel || (buffers[index].kind is Query && !buffers[index].hidden),
    ensures
        rows(buffers).contains(row_of(buffers[index])),
{
    let buffer = buffers[index];
    let server = buffer.server;
    let channels = selected(buffers, is_channel_of(server));
    let queries = selected(buffers, is_query_of(server));
    let all = group(buffers, server);
    assert(buffers.contains(buffer));
    lemma_selected(buffers, is_channel_of(server), buffer);
    lemma_selected(buffers, is_query_of(server), buffer);
    lemma_server_listed(buffers, index);
    if buffer.kind is Channel {
        let i = choose|i: int| 0 <= i < channels.len() && channels[i] == buffer;
        assert(all[1 + i] == row_of(buffer));
        lemma_group_listed(buffers, servers_of(buffers), server, 1 + i);
    } else {
        let i = choose|i: int| 0 <= i < queries.len() && queries[i] == buffer;
        let row = 1 + channels.len() + i;
        assert(all[row] == row_of(buffer));
        lemma_group_listed(buffers, servers_of(buffers), server, row as int);
    }
}

/// Every row but a server's own stands for a conversation that is shown: no
/// hidden private conversation has one.
pub proof fn law_rows_stand_for_shown_conversations(buffers: Seq<BufferView>, row: int)
    requires
        0 <= row < rows(buffers).len(),
        !(rows(buffers)[row].kind is Server),
    ensures
        exists|i: int|
            0 <= i < buffers.len() && row_of(#[trigger] buffers[i]) == rows(buffers)[row] && (
            buffers[i].kind is Query ==> !buffers[i].hidden),
{
    let wanted = rows(buffers)[row];
    let server = lemma_row_in_a_group(buffers, servers_of(buffers), row);
    let channels = selected(buffers, is_channel_of(server));
    let queries = selected(buffers, is_query_of(server));
    let all = group(buffers, server);
    let at = choose|at: int| 0 <= at < all.len() && all[at] == wanted;
    let buffer = if at < 1 + channels.len() {
        channels[at - 1]
    } else {
        queries[at - 1 - channels.len()]
    };
    assert(row_of(buffer) == wanted);
    if at < 1 + channels.len() {
        assert(channels.contains(buffer));
        lemma_selected(buffers, is_channel_of(server), buffer);
    } else {
        assert(queries.contains(buffer));
        lemma_selected(buffers, is_query_of(server), buffer);
    }
    let i = choose|i: int| 0 <= i < buffers.len() && buffers[i] == buffer;
    assert(row_of(buffers[i]) == wanted);
}

} // verus!
