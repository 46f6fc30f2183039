//! Private conversations: opening, hiding, renaming, and where messages go.

use std::time::SystemTime;

use vstd::prelude::*;

use crate::application::{
    change_view, has_id, index_view, lemma_still_registered, lemma_with_buffer_wf, Buffer,
    BufferView, ChangeView, Session, SessionView,
};
use crate::history::HistoryChange;
use crate::model::{
    BufferId, BufferKind, BufferKindView, Direction, DraftView, MessageContent, MessageContentView,
    MessageId, MessageKind, MessageKindView, MessageView, RoutedMessage, RoutedMessageView,
    ServerId,
};
use crate::sequence::{
    first_index, lemma_first_index, lemma_is_first_index, lemma_no_first_index,
};
use crate::text;

verus! {

/// The numeric that says there is no such nickname.
pub const ERR_NOSUCHNICK: u16 = 401;

/// A conversation with this peer that can be sent to.
pub open spec fn is_open_query(server: Seq<char>, peer: Seq<char>) -> spec_fn(BufferView) -> bool {
    |buffer: BufferView|
        buffer.server == server && !buffer.send_blocked && buffer.kind.matches(
            BufferKindView::Query(peer),
        )
}

/// A conversation with this peer that is shown.
pub open spec fn is_shown_query(server: Seq<char>, peer: Seq<char>) -> spec_fn(BufferView) -> bool {
    |buffer: BufferView|
        buffer.server == server && !buffer.hidden && buffer.kind.matches(
            BufferKindView::Query(peer),
        )
}

/// A message to ourselves whose copy `content` is.
pub open spec fn is_echo_of(
    echoes: Set<(BufferId, MessageId)>,
    id: BufferId,
    content: MessageContentView,
) -> spec_fn(MessageView) -> bool {
    |message: MessageView|
        echoes.contains((id, message.id)) && text::same_name(message.content.nick, content.nick)
            && message.content.text == content.text && message.content.kind == content.kind
}

/// A message whose sender is the peer of the conversation.
pub open spec fn from_the_peer(message: RoutedMessageView) -> bool {
    message.target is Query && text::same_name(message.target->Query_0, message.content.nick)
}

/// What is said where a peer took a name that has a conversation already.
pub open spec fn rename_text(previous: Seq<char>, nickname: Seq<char>) -> Seq<char> {
    previous + " is now "@ + nickname + "; existing conversations kept. Use /query "@ + nickname
}

pub open spec fn is_speech(kind: MessageKindView) -> bool {
    kind is Chat || kind is Action
}

impl SessionView {
    /// Forget which messages to ourselves on this server await their copy.
    pub open spec fn without_echoes(self, server: Seq<char>) -> SessionView {
        SessionView {
            echoes: self.echoes.filter(
                |echo: (BufferId, MessageId)|
                    exists|i: int|
                        0 <= i < self.buffers.len() && (#[trigger] self.buffers[i]).id == echo.0
                            && self.buffers[i].server != server,
            ),
            ..self
        }
    }

    /// The message to ourselves whose copy this one is.
    pub open spec fn echo_of(self, message: RoutedMessageView) -> Option<(BufferId, MessageId)> {
        if message.content.direction != Direction::Incoming || !from_the_peer(message) {
            None
        } else {
            match self.index_about(message.server, message.target) {
                None => None,
                Some(index) => {
                    let id = self.buffers[index].id;
                    let messages = self.history.of(id);
                    match first_index(messages, is_echo_of(self.echoes, id, message.content)) {
                        Some(found) => Some((id, messages[found].id)),
                        None => None,
                    }
                },
            }
        }
    }

    /// Another conversation on the server with this peer.
    pub open spec fn has_other_query(self, server: Seq<char>, id: BufferId, peer: Seq<char>) -> bool {
        exists|i: int|
            0 <= i < self.buffers.len() && (#[trigger] self.buffers[i]).server == server
                && self.buffers[i].id != id && self.buffers[i].kind.matches(
                BufferKindView::Query(peer),
            )
    }

    /// A peer's confirmed change of name.
    pub open spec fn rename_query(
        self,
        server: Seq<char>,
        previous: Seq<char>,
        nickname: Seq<char>,
        at: SystemTime,
    ) -> SessionView {
        let server = text::lower(server);
        match first_index(self.buffers, is_open_query(server, previous)) {
            None => self,
            Some(index) => {
                let buffer = self.buffers[index];
                if self.has_other_query(server, buffer.id, nickname) {
                    SessionView {
                        history: self.history.append(
                            buffer.id,
                            MessageContentView::console(rename_text(previous, nickname), at),
                        ),
                        ..self.with_buffer(
                            index,
                            BufferView { send_blocked: true, unread: true, ..buffer },
                        )
                    }
                } else {
                    self.with_buffer(
                        index,
                        BufferView { kind: BufferKindView::Query(nickname), ..buffer },
                    )
                }
            },
        }
    }

    pub open spec fn select(self, id: BufferId) -> SessionView {
        match self.buffer(id) {
            Some(buffer) if !buffer.hidden => SessionView { active: Some(id), ..self },
            _ => self,
        }
    }

    /// The conversation with a peer, shown and open for sending.
    pub open spec fn open_query(self, server: Seq<char>, nickname: Seq<char>) -> (
        SessionView,
        BufferId,
    ) {
        let (opened, id) = self.open_buffer(server, BufferKindView::Query(nickname));
        match opened.index_of(id) {
            Some(index) => (
                opened.with_buffer(
                    index,
                    BufferView { hidden: false, send_blocked: false, ..opened.buffers[index] },
                ),
                id,
            ),
            None => (opened, id),
        }
    }

    /// A private conversation hidden, and its server's console.
    pub open spec fn close_query(self, id: BufferId) -> (SessionView, Option<BufferId>) {
        match self.index_of(id) {
            Some(index) if self.buffers[index].kind is Query => {
                let (closed, console) = self.with_buffer(
                    index,
                    BufferView { hidden: true, ..self.buffers[index] },
                ).open_server(self.buffers[index].server_label);
                (closed, Some(console))
            },
            _ => (self, None),
        }
    }

    pub open spec fn mark_read(self, id: BufferId) -> SessionView {
        match self.index_of(id) {
            Some(index) => self.with_buffer(
                index,
                BufferView { unread: false, ..self.buffers[index] },
            ),
            None => self,
        }
    }

    /// The draft emptied from which a command was submitted.
    pub open spec fn without_source_draft(self, source: Option<BufferId>) -> SessionView {
        match source {
            None => SessionView { welcome_draft: DraftView::empty(), ..self },
            Some(id) => match self.index_of(id) {
                Some(index) => self.with_buffer(
                    index,
                    BufferView { draft: DraftView::empty(), ..self.buffers[index] },
                ),
                None => self,
            },
        }
    }

    /// Where a private message goes, and the session with that conversation.
    pub open spec fn query_destination(self, message: RoutedMessageView) -> (SessionView, BufferId) {
        let speech = is_speech(message.content.kind);
        let incoming = message.content.direction == Direction::Incoming;
        let label = self.label_of(message.server);
        match self.index_about(message.server, message.target) {
            Some(index) => {
                let buffer = self.buffers[index];
                if speech {
                    (
                        self.with_buffer(
                            index,
                            BufferView {
                                hidden: false,
                                unread: buffer.unread || incoming,
                                ..buffer
                            },
                        ),
                        buffer.id,
                    )
                } else if !buffer.hidden {
                    (self, buffer.id)
                } else {
                    self.open_server(label)
                }
            },
            None => if speech {
                let (opened, id) = self.open_buffer(label, message.target);
                match opened.index_of(id) {
                    Some(index) => (
                        opened.with_buffer(
                            index,
                            BufferView { unread: incoming, ..opened.buffers[index] },
                        ),
                        id,
                    ),
                    None => (opened, id),
                }
            } else {
                self.open_server(label)
            },
        }
    }

    /// A refusal about a peer, addressed to the shown conversation with the peer.
    pub open spec fn route_error(self, message: RoutedMessageView) -> RoutedMessageView {
        match (message.target, message.content.kind) {
            (
                BufferKindView::Server,
                MessageKindView::Error { code, target: Some(nickname), .. },
            ) => if code == ERR_NOSUCHNICK {
                match first_index(self.buffers, is_shown_query(message.server, nickname)) {
                    Some(index) => RoutedMessageView {
                        target: self.buffers[index].kind,
                        ..message
                    },
                    None => message,
                }
            } else {
                message
            },
            _ => message,
        }
    }

    /// The session with one more message in a conversation.
    pub open spec fn appended(self, id: BufferId, content: MessageContentView) -> SessionView {
        SessionView { history: self.history.append(id, content), ..self }
    }

    /// What appending a message does to identities.
    pub open spec fn change(self, id: BufferId, content: MessageContentView) -> ChangeView {
        ChangeView {
            inserted: MessageId(self.history.next_id as u64),
            evicted: self.history.evicted(id, content),
        }
    }

    /// The echoes after a private message: a message to ourselves awaits its
    /// copy, and what was evicted awaits none.
    pub open spec fn echoes_after(
        self,
        id: BufferId,
        message: RoutedMessageView,
        change: ChangeView,
    ) -> Set<(BufferId, MessageId)> {
        let to_ourselves = message.content.direction == Direction::Outgoing && from_the_peer(
            message,
        );
        let echoes = if to_ourselves {
            self.echoes.insert((id, change.inserted))
        } else {
            self.echoes
        };
        echoes.filter(
            |echo: (BufferId, MessageId)| echo.0 != id || !change.evicted.contains(echo.1),
        )
    }

    /// A private message that is no copy, put into its conversation.
    pub open spec fn push_private(self, message: RoutedMessageView) -> (SessionView, ChangeView) {
        let (opened, id) = self.query_destination(message);
        let change = opened.change(id, message.content);
        (
            SessionView {
                echoes: opened.echoes_after(id, message, change),
                ..opened.appended(id, message.content)
            },
            change,
        )
    }

    /// Where a message that is not private goes, and the session with that
    /// conversation; nowhere if nobody asked for it.
    pub open spec fn public_destination(self, message: RoutedMessageView) -> Option<
        (SessionView, BufferId),
    > {
        match self.index_about(message.server, message.target) {
            Some(index) => Some((self, self.buffers[index].id)),
            None => if message.content.kind is Error {
                Some(self.open_server(self.label_of(message.server)))
            } else if self.buffers.len() == 0 {
                let (opened, id) = self.open_buffer(message.server, message.target);
                Some((SessionView { active: Some(id), ..opened }, id))
            } else {
                None
            },
        }
    }

    /// A message routed to its conversation, and what that does to identities.
    pub open spec fn push(self, message: RoutedMessageView) -> (SessionView, Option<ChangeView>) {
        let message = self.route_error(message);
        if message.target is Query {
            match self.echo_of(message) {
                Some(echo) => (SessionView { echoes: self.echoes.remove(echo), ..self }, None),
                None => {
                    let (after, change) = self.push_private(message);
                    (after, Some(change))
                },
            }
        } else {
            match self.public_destination(message) {
                Some((opened, id)) => (
                    opened.appended(id, message.content),
                    Some(opened.change(id, message.content)),
                ),
                None => (self, None),
            }
        }
    }
}

impl Session {
    /// Whether an echo is in a conversation on some other server.
    fn is_elsewhere(&self, id: BufferId, server: &ServerId) -> (answer: bool)
        ensures
            answer == exists|i: int|
                0 <= i < self@.buffers.len() && (#[trigger] self@.buffers[i]).id == id
                    && self@.buffers[i].server != server@,
    {
        let mut i: usize = 0;
        while i < self.buffers.len()
            invariant
                i <= self.buffers.len(),
                forall|j: int|
                    0 <= j < i ==> !((#[trigger] self@.buffers[j]).id == id
                        && self@.buffers[j].server != server@),
            decreases self.buffers.len() - i,
        {
            assert(self@.buffers[i as int] == self.buffers@[i as int]@);
            if self.buffers[i].id == id && !self.buffers[i].server.same(server) {
                return true;
            }
            i = i + 1;
        }
        false
    }

    pub(super) fn clear_self_echoes(&mut self, server: &ServerId)
        requires
            old(self).wf(),
        ensures
            final(self).wf(),
            final(self)@ == old(self)@.without_echoes(server@),
    {
        let ghost before = self@;
        let ghost listed = self.echoes.listed();
        proof {
            self.echoes.lemma_listed();
        }
        let ghost keep = |echo: (BufferId, MessageId)|
            exists|i: int|
                0 <= i < before.buffers.len() && (#[trigger] before.buffers[i]).id == echo.0
                    && before.buffers[i].server != server@;
        let mut kept = crate::application::echoes::EchoSet::new();
        let mut i: usize = 0;
        let count: usize = self.echoes.count();
        while i < count
            invariant
                i <= count == listed.len(),
                listed == self.echoes.listed(),
                before == self@,
                kept.wf(),
                keep == (|echo: (BufferId, MessageId)|
                    exists|i: int|
                        0 <= i < before.buffers.len() && (#[trigger] before.buffers[i]).id == echo.0
                            && before.buffers[i].server != server@),
                forall|echo: (BufferId, MessageId)| #[trigger]
                    kept@.contains(echo) <==> listed.take(i as int).contains(echo) && keep(echo),
            decreases count - i,
        {
            let pair = self.echoes.pair_at(i);
            let ghost was = kept@;
            if self.is_elsewhere(pair.0, server) {
                kept.insert(pair);
            }
            proof {
                let next = listed.take(i as int + 1);
                assert(next =~= listed.take(i as int).push(pair));
                assert forall|echo: (BufferId, MessageId)| #[trigger]
                    kept@.contains(echo) <==> next.contains(echo) && keep(echo) by {
                    if next.contains(echo) && echo != pair {
                        let j = choose|j: int| 0 <= j < next.len() && next[j] == echo;
                        assert(listed.take(i as int)[j] == echo);
                    }
                    if listed.take(i as int).contains(echo) {
                        let j = choose|j: int|
                            0 <= j < listed.take(i as int).len() && listed.take(i as int)[j]
                                == echo;
                        assert(next[j] == echo);
                    }
                    assert(next[i as int] == pair);
                    assert(was.contains(echo) <==> listed.take(i as int).contains(echo) && keep(
                        echo,
                    ));
                }
            }
            i = i + 1;
        }
        assert(listed.take(count as int) =~= listed);
        assert(kept@ =~= before.without_echoes(server@).echoes);
        self.echoes = kept;
        assert(self@ =~= before.without_echoes(server@));
    }

    fn find_echo(&self, message: &RoutedMessage) -> (echo: Option<(BufferId, MessageId)>)
        requires
            self.wf(),
        ensures
            echo == self@.echo_of(message@),
    {
        if message.content.direction != Direction::Incoming || !is_from_the_peer(message) {
            return None;
        }
        let index: usize = match self.find_about(&message.server, &message.target) {
            Some(index) => index,
            None => return None,
        };
        let id = self.buffers[index].id;
        assert(self@.buffers[index as int] == self.buffers@[index as int]@);
        let messages = self.history.messages(id);
        let ghost all = self@.history.of(id);
        let ghost wanted = is_echo_of(self@.echoes, id, message@.content);
        let mut i: usize = 0;
        while i < messages.len()
            invariant
                i <= messages.len(),
                all == messages.deep_view(),
                wanted == is_echo_of(self@.echoes, id, message@.content),
                forall|j: int| 0 <= j < i ==> !wanted(#[trigger] all[j]),
                message@.content.direction == Direction::Incoming,
                from_the_peer(message@),
                self@.index_about(message@.server, message@.target) == Some(index as int),
                id == self@.buffers[index as int].id,
                all == self@.history.of(id),
            decreases messages.len() - i,
        {
            let candidate = &messages[i];
            assert(all[i as int] == candidate@);
            if self.echoes.contains((id, candidate.id)) && text::names_match(
                candidate.content.nick.as_str(),
                message.content.nick.as_str(),
            ) && candidate.content.text == message.content.text && candidate.content.kind.same(
                &message.content.kind,
            ) {
                proof {
                    lemma_is_first_index(all, wanted, i as int);
                }
                return Some((id, candidate.id));
            }
            i = i + 1;
        }
        proof {
            lemma_no_first_index(all, wanted);
        }
        None
    }

    fn consume_self_echo(&mut self, message: &RoutedMessage) -> (consumed: bool)
        requires
            old(self).wf(),
        ensures
            final(self).wf(),
            consumed == old(self)@.echo_of(message@) is Some,
            final(self)@ == (match old(self)@.echo_of(message@) {
                Some(echo) => SessionView {
                    echoes: old(self)@.echoes.remove(echo),
                    ..old(self)@
                },
                None => old(self)@,
            }),
    {
        match self.find_echo(message) {
            Some(echo) => {
                self.echoes.remove(echo);
                true
            },
            None => false,
        }
    }

    /// Take note of a peer's confirmed change of name, told at `at`.
    pub(super) fn rename_query(
        &mut self,
        server: &str,
        previous: &str,
        nickname: &str,
        at: SystemTime,
    )
        requires
            old(self).wf(),
            old(self)@.history.has_room(),
        ensures
            final(self).wf(),
            final(self)@ == old(self)@.rename_query(server@, previous@, nickname@, at),
    {
        let ghost before = self@;
        let server_id = ServerId::new(server);
        proof {
            lemma_first_index(before.buffers, is_open_query(server_id@, previous@));
        }
        let index: usize = match self.find_query(&server_id, previous, false) {
            Some(index) => index,
            None => return ,
        };
        let id = self.buffers[index].id;
        assert(before.buffers[index as int] == self.buffers@[index as int]@);
        let collision = self.other_query(&server_id, id, nickname);
        if collision {
            self.buffers[index].send_blocked = true;
            self.buffers[index].unread = true;
            let mut text = previous.to_owned();
            text.append(" is now ");
            text.append(nickname);
            text.append("; existing conversations kept. Use /query ");
            text.append(nickname);
            let _ = self.history.append(id, MessageContent::console_at(text.as_str(), at));
            proof {
                let buffer = BufferView {
                    send_blocked: true,
                    unread: true,
                    ..before.buffers[index as int]
                };
                lemma_with_buffer_wf(before, index as int, buffer);
                assert(self@.buffers =~= before.buffers.update(index as int, buffer));
                assert(self@ =~= before.rename_query(server@, previous@, nickname@, at));
            }
        } else {
            self.buffers[index].kind = BufferKind::Query(nickname.to_owned());
            proof {
                let buffer = BufferView {
                    kind: BufferKindView::Query(nickname@),
                    ..before.buffers[index as int]
                };
                assert(self@.buffers =~= before.buffers.update(index as int, buffer));
                lemma_rename_wf(before, index as int, nickname@);
            }
        }
    }

    /// The conversation with this identity.
    pub fn buffer(&self, id: BufferId) -> (buffer: Option<&Buffer>)
        ensures
            buffer.deep_view() == self@.buffer(id),
    {
        match self.find_id(id) {
            Some(index) => Some(&self.buffers[index]),
            None => None,
        }
    }

    /// Show the conversation with this identity, unless it is hidden.
    pub fn select_buffer_id(&mut self, id: BufferId)
        requires
            old(self).wf(),
        ensures
            final(self).wf(),
            final(self)@ == old(self)@.select(id),
    {
        let shown = match self.buffer(id) {
            Some(buffer) => !buffer.hidden,
            None => false,
        };
        if shown {
            self.active = Some(id);
            proof {
                lemma_first_index(self@.buffers, has_id(id));
                assert(self@.buffers == old(self)@.buffers);
                assert(self@.registered(id));
            }
        }
    }

    /// Open or reopen the conversation with a peer and allow sending to the peer.
    pub fn open_query(&mut self, server: &str, nickname: &str) -> (id: BufferId)
        requires
            old(self).wf(),
            old(self)@.next_buffer_id < u64::MAX,
        ensures
            final(self).wf(),
            (final(self)@, id) == old(self)@.open_query(server@, nickname@),
    {
        let id = self.open_buffer(server, BufferKind::Query(nickname.to_owned()));
        let ghost opened = self@;
        match self.find_id(id) {
            Some(index) => {
                self.buffers[index].hidden = false;
                self.buffers[index].send_blocked = false;
                proof {
                    let buffer = BufferView {
                        hidden: false,
                        send_blocked: false,
                        ..opened.buffers[index as int]
                    };
                    assert(self@.buffers =~= opened.buffers.update(index as int, buffer));
                    lemma_with_buffer_wf(opened, index as int, buffer);
                }
            },
            None => {},
        }
        id
    }

    /// Hide a private conversation; its server's console takes its place.
    pub fn close_query(&mut self, id: BufferId) -> (console: Option<BufferId>)
        requires
            old(self).wf(),
            old(self)@.next_buffer_id < u64::MAX,
        ensures
            final(self).wf(),
            (final(self)@, console) == old(self)@.close_query(id),
    {
        let ghost before = self@;
        let index: usize = match self.find_id(id) {
            Some(index) => index,
            None => return None,
        };
        assert(before.buffers[index as int] == self.buffers@[index as int]@);
        match &self.buffers[index].kind {
            BufferKind::Query(_) => {},
            _ => {
                return None;
            },
        }
        self.buffers[index].hidden = true;
        let server = self.buffers[index].server_label.clone();
        proof {
            let buffer = BufferView { hidden: true, ..before.buffers[index as int] };
            assert(self@.buffers =~= before.buffers.update(index as int, buffer));
            lemma_with_buffer_wf(before, index as int, buffer);
        }
        Some(self.open_server(server.as_str()))
    }

    /// Take note that a conversation was seen to its end.
    pub fn mark_read(&mut self, id: BufferId)
        requires
            old(self).wf(),
        ensures
            final(self).wf(),
            final(self)@ == old(self)@.mark_read(id),
    {
        let ghost before = self@;
        match self.find_id(id) {
            Some(index) => {
                self.buffers[index].unread = false;
                proof {
                    let buffer = BufferView { unread: false, ..before.buffers[index as int] };
                    assert(self@.buffers =~= before.buffers.update(index as int, buffer));
                    lemma_with_buffer_wf(before, index as int, buffer);
                }
            },
            None => {},
        }
    }

    pub(super) fn clear_source_draft(&mut self, source: Option<BufferId>)
        requires
            old(self).wf(),
        ensures
            final(self).wf(),
            final(self)@ == old(self)@.without_source_draft(source),
    {
        let ghost before = self@;
        match source {
            None => {
                self.welcome_draft.clear();
            },
            Some(id) => match self.find_id(id) {
                Some(index) => {
                    self.buffers[index].draft.clear();
                    proof {
                        let buffer = BufferView {
                            draft: DraftView::empty(),
                            ..before.buffers[index as int]
                        };
                        assert(self@.buffers =~= before.buffers.update(index as int, buffer));
                        lemma_with_buffer_wf(before, index as int, buffer);
                    }
                },
                None => {},
            },
        }
    }

    fn label_for(&self, server: &ServerId) -> (label: String)
        requires
            self.wf(),
        ensures
            label@ == self@.label_of(server@),
    {
        match self.servers.get(server.as_str()) {
            Some(state) => state.label.clone(),
            None => server.to_text(),
        }
    }

    fn query_message_destination(&mut self, message: &RoutedMessage) -> (id: BufferId)
        requires
            old(self).wf(),
            old(self)@.next_buffer_id < u64::MAX,
        ensures
            final(self).wf(),
            (final(self)@, id) == old(self)@.query_destination(message@),
    {
        let ghost before = self@;
        let speech = message.content.kind.is_speech();
        let incoming = message.content.direction == Direction::Incoming;
        let label = self.label_for(&message.server);
        match self.find_about(&message.server, &message.target) {
            Some(index) => {
                assert(before.buffers[index as int] == self.buffers@[index as int]@);
                let id = self.buffers[index].id;
                if speech {
                    let unread = self.buffers[index].unread || incoming;
                    self.buffers[index].hidden = false;
                    self.buffers[index].unread = unread;
                    proof {
                        let buffer = BufferView {
                            hidden: false,
                            unread,
                            ..before.buffers[index as int]
                        };
                        assert(self@.buffers =~= before.buffers.update(index as int, buffer));
                        lemma_with_buffer_wf(before, index as int, buffer);
                    }
                    return id;
                }
                if !self.buffers[index].hidden {
                    return id;
                }
                self.open_server(label.as_str())
            },
            None => {
                if !speech {
                    return self.open_server(label.as_str());
                }
                let id = self.open_buffer(label.as_str(), message.target.clone());
                let ghost opened = self@;
                match self.find_id(id) {
                    Some(index) => {
                        self.buffers[index].unread = incoming;
                        proof {
                            let buffer = BufferView {
                                unread: incoming,
                                ..opened.buffers[index as int]
                            };
                            assert(self@.buffers =~= opened.buffers.update(index as int, buffer));
                            lemma_with_buffer_wf(opened, index as int, buffer);
                        }
                    },
                    None => {},
                }
                id
            },
        }
    }

    fn find_query(&self, server: &ServerId, peer: &str, shown: bool) -> (found: Option<usize>)
        ensures
            index_view(found) == first_index(
                self@.buffers,
                if shown {
                    is_shown_query(server@, peer@)
                } else {
                    is_open_query(server@, peer@)
                },
            ),
            found is Some ==> found->0 < self@.buffers.len(),
    {
        let kind = BufferKind::Query(peer.to_owned());
        let ghost buffers = self@.buffers;
        let ghost wanted = if shown {
            is_shown_query(server@, peer@)
        } else {
            is_open_query(server@, peer@)
        };
        let mut i: usize = 0;
        while i < self.buffers.len()
            invariant
                i <= self.buffers.len(),
                buffers == self@.buffers,
                kind@ == BufferKindView::Query(peer@),
                wanted == if shown {
                    is_shown_query(server@, peer@)
                } else {
                    is_open_query(server@, peer@)
                },
                forall|j: int| 0 <= j < i ==> !wanted(#[trigger] buffers[j]),
            decreases self.buffers.len() - i,
        {
            assert(buffers[i as int] == self.buffers@[i as int]@);
            let excluded = if shown {
                self.buffers[i].hidden
            } else {
                self.buffers[i].send_blocked
            };
            if self.buffers[i].server.same(server) && !excluded && self.buffers[i].kind.matches(
                &kind,
            ) {
                proof {
                    lemma_is_first_index(buffers, wanted, i as int);
                }
                return Some(i);
            }
            i = i + 1;
        }
        proof {
            lemma_no_first_index(buffers, wanted);
        }
        None
    }

    fn other_query(&self, server: &ServerId, id: BufferId, peer: &str) -> (answer: bool)
        ensures
            answer == self@.has_other_query(server@, id, peer@),
    {
        let kind = BufferKind::Query(peer.to_owned());
        let mut i: usize = 0;
        while i < self.buffers.len()
            invariant
                i <= self.buffers.len(),
                kind@ == BufferKindView::Query(peer@),
                forall|j: int|
                    0 <= j < i ==> !((#[trigger] self@.buffers[j]).server == server@
                        && self@.buffers[j].id != id && self@.buffers[j].kind.matches(
                        BufferKindView::Query(peer@),
                    )),
            decreases self.buffers.len() - i,
        {
            assert(self@.buffers[i as int] == self.buffers@[i as int]@);
            if self.buffers[i].server.same(server) && self.buffers[i].id != id
                && self.buffers[i].kind.matches(&kind) {
                return true;
            }
            i = i + 1;
        }
        false
    }

    fn routed_target(&self, message: &RoutedMessage) -> (target: BufferKind)
        ensures
            target@ == self@.route_error(message@).target,
    {
        match (&message.target, &message.content.kind) {
            (BufferKind::Server, MessageKind::Error { code, target: Some(nickname), .. }) => {
                if *code == ERR_NOSUCHNICK {
                    match self.find_query(&message.server, nickname.as_str(), true) {
                        Some(index) => {
                            assert(self@.buffers[index as int] == self.buffers@[index as int]@);
                            return self.buffers[index].kind.clone();
                        },
                        None => {},
                    }
                }
            },
            _ => {},
        }
        message.target.clone()
    }

    fn forget_evicted(&mut self, id: BufferId, evicted: &Vec<MessageId>)
        requires
            old(self).wf(),
        ensures
            final(self).wf(),
            final(self)@ == (SessionView {
                echoes: old(self)@.echoes.filter(
                    |echo: (BufferId, MessageId)| echo.0 != id || !evicted@.contains(echo.1),
                ),
                ..old(self)@
            }),
    {
        let ghost before = self@;
        let mut i: usize = 0;
        while i < evicted.len()
            invariant
                i <= evicted.len(),
                self.wf(),
                self@ == (SessionView { echoes: self@.echoes, ..before }),
                forall|echo: (BufferId, MessageId)| #[trigger]
                    self@.echoes.contains(echo) <==> before.echoes.contains(echo) && (echo.0 != id
                        || !evicted@.take(i as int).contains(echo.1)),
            decreases evicted.len() - i,
        {
            let removed = evicted[i];
            let ghost was = self@.echoes;
            self.echoes.remove((id, removed));
            proof {
                let next = evicted@.take(i as int + 1);
                assert(next =~= evicted@.take(i as int).push(removed));
                assert forall|echo: (BufferId, MessageId)| #[trigger]
                    self@.echoes.contains(echo) <==> before.echoes.contains(echo) && (echo.0 != id
                        || !next.contains(echo.1)) by {
                    assert(was.contains(echo) <==> before.echoes.contains(echo) && (echo.0 != id
                        || !evicted@.take(i as int).contains(echo.1)));
                    assert(next[i as int] == removed);
                    if next.contains(echo.1) && echo.1 != removed {
                        let j = choose|j: int| 0 <= j < next.len() && next[j] == echo.1;
                        assert(evicted@.take(i as int)[j] == echo.1);
                    }
                    if evicted@.take(i as int).contains(echo.1) {
                        let j = choose|j: int|
                            0 <= j < evicted@.take(i as int).len() && evicted@.take(i as int)[j]
                                == echo.1;
                        assert(next[j] == echo.1);
                    }
                }
            }
            i = i + 1;
        }
        assert(evicted@.take(evicted@.len() as int) =~= evicted@);
        assert(self@.echoes =~= before.echoes.filter(
            |echo: (BufferId, MessageId)| echo.0 != id || !evicted@.contains(echo.1),
        ));
    }

    fn push_private(&mut self, message: RoutedMessage) -> (change: HistoryChange)
        requires
            old(self).wf(),
            old(self)@.has_room(),
        ensures
            final(self).wf(),
            (final(self)@, change_view(Some(change))->0) == old(self)@.push_private(message@),
    {
        proof {
            lemma_destination_keeps_history(self@, message@);
        }
        let id = self.query_message_destination(&message);
        let ghost opened = self@;
        let to_ourselves = message.content.direction == Direction::Outgoing && is_from_the_peer(
            &message,
        );
        let change = self.history.append(id, message.content);
        let ghost shown = change_view(Some(change))->0;
        if to_ourselves {
            self.echoes.insert((id, change.inserted));
        }
        assert(shown =~= opened.change(id, message@.content));
        self.forget_evicted(id, &change.evicted);
        assert(self@.echoes =~= opened.echoes_after(id, message@, shown));
        change
    }

    /// Route a message to its conversation. Known conversations receive it
    /// exactly once; a refusal without a registered target stays visible in
    /// its server's console.
    pub fn push_message(&mut self, message: RoutedMessage) -> (change: Option<HistoryChange>)
        requires
            old(self).wf(),
            old(self)@.has_room(),
        ensures
            final(self).wf(),
            (final(self)@, change_view(change)) == old(self)@.push(message@),
    {
        let ghost before = self@;
        let target = self.routed_target(&message);
        let message = RoutedMessage { target, ..message };
        match &message.target {
            BufferKind::Query(_) => {
                if self.consume_self_echo(&message) {
                    return None;
                }
                return Some(self.push_private(message));
            },
            _ => {},
        }
        let id = match self.find_about(&message.server, &message.target) {
            Some(index) => {
                assert(self@.buffers[index as int] == self.buffers@[index as int]@);
                self.buffers[index].id
            },
            None => {
                if message.content.kind.is_error() {
                    let label = self.label_for(&message.server);
                    self.open_server(label.as_str())
                } else if self.buffers.len() == 0 {
                    let id = self.open_buffer(message.server.as_str(), message.target);
                    self.active = Some(id);
                    id
                } else {
                    return None;
                }
            },
        };
        let ghost opened = self@;
        let content = message.content;
        let change = self.history.append(id, content);
        assert(change_view(Some(change))->0 =~= opened.change(id, content@));
        Some(change)
    }
}

/// Finding a conversation for a private message adds no message.
proof fn lemma_destination_keeps_history(session: SessionView, message: RoutedMessageView)
    ensures
        session.query_destination(message).0.history == session.history,
        session.query_destination(message).0.echoes == session.echoes,
{
}

fn is_from_the_peer(message: &RoutedMessage) -> (answer: bool)
    ensures
        answer == from_the_peer(message@),
{
    match &message.target {
        BufferKind::Query(nickname) => text::names_match(
            nickname.as_str(),
            message.content.nick.as_str(),
        ),
        _ => false,
    }
}

/// A change of a peer's name that collides with no other conversation keeps a
/// session sound.
proof fn lemma_rename_wf(session: SessionView, index: int, nickname: Seq<char>)
    requires
        session.wf(),
        0 <= index < session.buffers.len(),
        !session.has_other_query(
            session.buffers[index].server,
            session.buffers[index].id,
            nickname,
        ),
    ensures
        session.with_buffer(
            index,
            BufferView { kind: BufferKindView::Query(nickname), ..session.buffers[index] },
        ).wf(),
{
    let buffer = BufferView { kind: BufferKindView::Query(nickname), ..session.buffers[index] };
    let after = session.with_buffer(index, buffer);
    lemma_still_registered(session, after);
    assert forall|i: int, j: int| 0 <= i < j < after.buffers.len() implies {
        &&& (#[trigger] after.buffers[i]).id.0 < (#[trigger] after.buffers[j]).id.0
        &&& !(after.buffers[i].server == after.buffers[j].server && after.buffers[i].kind.matches(
            after.buffers[j].kind,
        ))
    } by {
        assert(after.buffers[i].id == session.buffers[i].id);
        assert(after.buffers[j].id == session.buffers[j].id);
    }
    assert forall|i: int| 0 <= i < after.buffers.len() implies {
        &&& (#[trigger] after.buffers[i]).draft.wf()
        &&& 0 < after.buffers[i].id.0 < after.next_buffer_id
        &&& after.servers.contains_key(after.buffers[i].server)
        &&& text::lower(after.buffers[i].server_label) == after.buffers[i].server
    } by {
        assert(session.buffers[i].draft.wf());
    }
}

} // verus!
