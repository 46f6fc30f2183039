//! The channels of one connection: what the user wants and what is confirmed.

use std::time::SystemTime;

use vstd::prelude::*;

use crate::connection::{IrcEvent, IrcEventView};
use crate::model::{
    valid_channel_name, BufferKind, BufferKindView, ChannelState, ChannelStatus, ConnectionCommand,
    ConnectionCommandView, MessageContent, MessageContentView, RoutedMessage, RoutedMessageView,
    ServerId,
};
use crate::model;
use crate::protocol::{ClientCommand, ClientCommandView};
use crate::text;

verus! {

#[verifier::ext_equal]
pub ghost struct ChannelView {
    pub name: Seq<char>,
    pub status: ChannelStatus,
    pub deadline: Option<u64>,
}

#[derive(Debug)]
pub struct Channel {
    pub name: String,
    pub status: ChannelStatus,
    /// When an unconfirmed join or part is given up, in milliseconds.
    pub deadline: Option<u64>,
}

impl View for Channel {
    type V = ChannelView;

    open spec fn view(&self) -> ChannelView {
        ChannelView { name: self.name@, status: self.status, deadline: self.deadline }
    }
}

impl DeepView for Channel {
    type V = ChannelView;

    open spec fn deep_view(&self) -> ChannelView {
        self@
    }
}

#[verifier::ext_equal]
pub ghost struct ChannelsView {
    pub entries: Seq<ChannelView>,
    pub label: Seq<char>,
    pub timeout: u64,
    pub events: Seq<IrcEventView>,
}

/// Where a channel stands among `entries`, but for ASCII case.
pub open spec fn position(entries: Seq<ChannelView>, name: Seq<char>) -> Option<int>
    decreases entries.len(),
{
    if entries.len() == 0 {
        None
    } else if text::same_name(entries[0].name, name) {
        Some(0)
    } else {
        match position(entries.drop_first(), name) {
            Some(index) => Some(index + 1),
            None => None,
        }
    }
}

/// A state that waits for the server's word.
pub open spec fn awaited(state: ChannelState) -> bool {
    state == ChannelState::Joining || state == ChannelState::Parting
}

/// Numerics that refuse a join.
pub open spec fn refuses_join(code: u16) -> bool {
    code == 403 || code == 405 || code == 407 || code == 437 || code == 471 || code == 473 || code
        == 474 || code == 475 || code == 476 || code == 477 || code == 489
}

/// The numeric that says we are not on a channel.
pub const ERR_NOTONCHANNEL: u16 = 442;

impl ChannelsView {
    pub open spec fn index(self, name: Seq<char>) -> Option<int> {
        position(self.entries, name)
    }

    pub open spec fn registered(self, name: Seq<char>) -> ChannelsView {
        ChannelsView {
            entries: self.entries.push(
                ChannelView {
                    name,
                    status: ChannelStatus { state: ChannelState::NotJoined, desired: true },
                    deadline: None,
                },
            ),
            ..self
        }
    }

    pub open spec fn emitted(self, event: IrcEventView) -> ChannelsView {
        ChannelsView { events: self.events.push(event), ..self }
    }

    pub open spec fn status_event(self, index: int) -> IrcEventView {
        IrcEventView::Channel(self.label, self.entries[index].name, self.entries[index].status)
    }

    pub open spec fn published(self, index: int) -> ChannelsView {
        self.emitted(self.status_event(index))
    }

    pub open spec fn wanted(self, index: int, desired: bool) -> ChannelsView {
        let entry = self.entries[index];
        ChannelsView {
            entries: self.entries.update(
                index,
                ChannelView { status: ChannelStatus { desired, ..entry.status }, ..entry },
            ),
            ..self
        }
    }

    /// One channel in a new state, with a deadline where confirmation is awaited.
    pub open spec fn moved(self, index: int, state: ChannelState, now: u64) -> ChannelsView {
        let entry = self.entries[index];
        ChannelsView {
            entries: self.entries.update(
                index,
                ChannelView {
                    status: ChannelStatus { state, ..entry.status },
                    deadline: if awaited(state) {
                        Some((now + self.timeout) as u64)
                    } else {
                        None
                    },
                    ..entry
                },
            ),
            ..self
        }
    }

    /// One channel in a new state, which is reported.
    pub open spec fn transition(self, index: int, state: ChannelState, now: u64) -> ChannelsView {
        self.moved(index, state, now).published(index)
    }

    /// The configured channels, without repetitions and what names no channel.
    pub open spec fn initial(names: Seq<Seq<char>>, label: Seq<char>, timeout: u64) -> ChannelsView
        decreases names.len(),
    {
        if names.len() == 0 {
            ChannelsView { entries: Seq::empty(), label, timeout, events: Seq::empty() }
        } else {
            let before = ChannelsView::initial(names.drop_last(), label, timeout);
            let name = names.last();
            if model::channel_name(name) && before.index(name) is None {
                before.registered(name)
            } else {
                before
            }
        }
    }

    /// Whether something can be said to `name` now: to a peer always, to a
    /// channel only while it is joined.
    pub open spec fn can_send(self, name: Seq<char>) -> bool {
        match self.index(name) {
            Some(index) => self.entries[index].status.state == ChannelState::Joined,
            None => !model::channel_name(name),
        }
    }

    /// The first `count` channels asked to join where they are wanted, and the
    /// commands for that.
    pub open spec fn start(self, count: int, now: u64) -> (ChannelsView, Seq<ClientCommandView>)
        decreases count,
    {
        if count <= 0 {
            (self, Seq::empty())
        } else {
            let (before, commands) = self.start(count - 1, now);
            let index = count - 1;
            if before.entries[index].status.desired {
                (
                    before.transition(index, ChannelState::Joining, now),
                    commands.push(ClientCommandView::Join(before.entries[index].name)),
                )
            } else {
                (before, commands)
            }
        }
    }

    /// The first `count` channels left behind by a closed connection.
    pub open spec fn disconnected(self, count: int) -> ChannelsView
        decreases count,
    {
        if count <= 0 {
            self
        } else {
            self.disconnected(count - 1).transition(count - 1, ChannelState::NotJoined, 0)
        }
    }

    /// A request on a connected server that is already being served.
    pub open spec fn busy(self, index: int, joining: bool) -> bool {
        let state = self.entries[index].status.state;
        awaited(state) || (joining && state == ChannelState::Joined)
    }

    /// A wish to be on a known channel or not, and the command that it takes.
    pub open spec fn pursue(
        self,
        index: int,
        joining: bool,
        reason: Option<Seq<char>>,
        connected: bool,
        now: u64,
    ) -> (ChannelsView, Option<ClientCommandView>) {
        let name = self.entries[index].name;
        if connected && self.busy(index, joining) {
            (self.published(index), None)
        } else if !connected || (!joining && self.entries[index].status.state
            == ChannelState::NotJoined) {
            (self.wanted(index, joining).transition(index, ChannelState::NotJoined, now), None)
        } else if joining {
            (
                self.wanted(index, true).transition(index, ChannelState::Joining, now),
                Some(ClientCommandView::Join(name)),
            )
        } else {
            (
                self.wanted(index, false).transition(index, ChannelState::Parting, now),
                Some(ClientCommandView::Part { channel: name, reason }),
            )
        }
    }

    /// What a control does to the channels, and the command that it takes.
    pub open spec fn request(
        self,
        command: ConnectionCommandView,
        connected: bool,
        now: u64,
    ) -> (ChannelsView, Option<ClientCommandView>) {
        match command {
            ConnectionCommandView::Join(name) => match self.index(name) {
                Some(index) => self.pursue(index, true, None, connected, now),
                None => self.registered(name).pursue(
                    self.entries.len() as int,
                    true,
                    None,
                    connected,
                    now,
                ),
            },
            ConnectionCommandView::Part { channel, reason } => match self.index(channel) {
                Some(index) => self.pursue(index, false, reason, connected, now),
                None => (self, None),
            },
            _ => (self, None),
        }
    }

    /// A confirmed join of a known channel. One that is not wanted is undone.
    pub open spec fn confirmed(self, index: int, now: u64) -> (ChannelsView, Option<ClientCommandView>) {
        let entry = self.entries[index];
        if entry.status.desired {
            (self.transition(index, ChannelState::Joined, now), None)
        } else if entry.status.state == ChannelState::Parting {
            (self, None)
        } else {
            (
                self.transition(index, ChannelState::Parting, now),
                Some(ClientCommandView::Part { channel: entry.name, reason: None }),
            )
        }
    }

    /// A confirmed join.
    pub open spec fn joined(self, name: Seq<char>, now: u64) -> (
        ChannelsView,
        Option<ClientCommandView>,
    ) {
        if !model::channel_name(name) {
            (self, None)
        } else {
            match self.index(name) {
                Some(index) => self.confirmed(index, now),
                None => self.registered(name).confirmed(self.entries.len() as int, now),
            }
        }
    }

    /// A confirmed leave; being kicked keeps the wish to be there.
    pub open spec fn left(self, name: Seq<char>, kicked: bool) -> ChannelsView {
        match self.index(name) {
            Some(index) => {
                let before = if kicked {
                    self
                } else {
                    self.wanted(index, false)
                };
                before.transition(index, ChannelState::NotJoined, 0)
            },
            None => self,
        }
    }

    /// A refusal that may be about a known channel.
    pub open spec fn error(self, code: u16, name: Seq<char>) -> ChannelsView {
        match self.index(name) {
            Some(index) => if code == ERR_NOTONCHANNEL || (self.entries[index].status.state
                == ChannelState::Joining && refuses_join(code)) {
                self.transition(index, ChannelState::NotJoined, 0)
            } else {
                self
            },
            None => self,
        }
    }

    /// The earliest of the first `count` deadlines.
    pub open spec fn deadline(self, count: int) -> Option<u64>
        decreases count,
    {
        if count <= 0 {
            None
        } else {
            match (self.deadline(count - 1), self.entries[count - 1].deadline) {
                (Some(earliest), Some(next)) => Some(if next < earliest { next } else { earliest }),
                (Some(earliest), None) => Some(earliest),
                (None, next) => next,
            }
        }
    }

    /// A line for a known channel's conversation.
    pub open spec fn notice(self, name: Seq<char>, text: Seq<char>, at: SystemTime) -> ChannelsView {
        match self.index(name) {
            Some(index) => self.emitted(
                IrcEventView::Message(
                    RoutedMessageView {
                        server: text::lower(self.label),
                        target: BufferKindView::Channel(self.entries[index].name),
                        content: MessageContentView::console(text, at),
                    },
                ),
            ),
            None => self,
        }
    }

    /// What is said when a join or part was not confirmed in time.
    pub open spec fn timeout_text(state: ChannelState) -> Seq<char> {
        (if state == ChannelState::Joining {
            "JOIN"@
        } else {
            "PART"@
        }) + " timed out; channel membership is unconfirmed"@
    }

    /// The first `count` channels, given up where their deadline has come.
    pub open spec fn expire(self, count: int, now: u64, at: SystemTime) -> ChannelsView
        decreases count,
    {
        if count <= 0 {
            self
        } else {
            let before = self.expire(count - 1, now, at);
            let entry = before.entries[count - 1];
            if entry.deadline is Some && entry.deadline->0 <= now {
                before.transition(count - 1, ChannelState::Uncertain, now).notice(
                    entry.name,
                    ChannelsView::timeout_text(entry.status.state),
                    at,
                )
            } else {
                before
            }
        }
    }

    /// No two channels have the same name, and a deadline stands exactly where
    /// confirmation is awaited.
    pub open spec fn wf(self) -> bool {
        &&& forall|i: int, j: int|
            0 <= i < j < self.entries.len() ==> !text::same_name(
                (#[trigger] self.entries[i]).name,
                (#[trigger] self.entries[j]).name,
            )
        &&& forall|i: int|
            0 <= i < self.entries.len() ==> ((#[trigger] self.entries[i]).deadline is Some
                <==> awaited(self.entries[i].status.state))
    }
}

/// A found channel has the name, no earlier one has it, and none has it where
/// nothing is found.
pub proof fn lemma_position(entries: Seq<ChannelView>, name: Seq<char>)
    ensures
        match position(entries, name) {
            Some(index) => {
                &&& 0 <= index < entries.len()
                &&& text::same_name(entries[index].name, name)
                &&& forall|i: int|
                    0 <= i < index ==> !text::same_name((#[trigger] entries[i]).name, name)
            },
            None => forall|i: int|
                0 <= i < entries.len() ==> !text::same_name((#[trigger] entries[i]).name, name),
        },
    decreases entries.len(),
{
    if entries.len() > 0 && !text::same_name(entries[0].name, name) {
        let rest = entries.drop_first();
        lemma_position(rest, name);
        assert forall|i: int|
            0 < i < entries.len() && (position(rest, name) is None || i - 1 < position(
                rest,
                name,
            )->0) implies !text::same_name((#[trigger] entries[i]).name, name) by {
            assert(entries[i] == rest[i - 1]);
        }
    }
}

/// The channels of one connection, with the events that they give rise to.
#[derive(Debug)]
pub struct Channels {
    pub entries: Vec<Channel>,
    label: String,
    timeout: u64,
    events: Vec<IrcEvent>,
}

impl View for Channels {
    type V = ChannelsView;

    closed spec fn view(&self) -> ChannelsView {
        ChannelsView {
            entries: self.entries.deep_view(),
            label: self.label@,
            timeout: self.timeout,
            events: self.events.deep_view(),
        }
    }
}

impl Channels {
    /// The configured channels of the server `label`; `timeout` is how long a
    /// confirmation may take, in milliseconds.
    pub fn new(names: &[String], label: &str, timeout: u64) -> (channels: Self)
        ensures
            channels@ == ChannelsView::initial(names.deep_view(), label@, timeout),
            channels@.wf(),
    {
        let mut channels = Channels {
            entries: Vec::new(),
            label: label.to_owned(),
            timeout,
            events: Vec::new(),
        };
        let ghost all = names.deep_view();
        assert(channels@.entries =~= Seq::empty());
        assert(channels@.events =~= Seq::empty());
        let mut i: usize = 0;
        while i < names.len()
            invariant
                i <= names.len(),
                all == names.deep_view(),
                channels@ == ChannelsView::initial(all.take(i as int), label@, timeout),
                channels@.wf(),
            decreases names.len() - i,
        {
            proof {
                assert(all.take(i as int + 1).drop_last() =~= all.take(i as int));
                assert(all.take(i as int + 1).last() == names@[i as int]@);
            }
            if valid_channel_name(names[i].as_str()) && channels.index(names[i].as_str()).is_none() {
                channels.register(names[i].as_str());
            }
            i = i + 1;
        }
        assert(all.take(all.len() as int) =~= all);
        channels
    }

    fn index(&self, name: &str) -> (found: Option<usize>)
        ensures
            match found {
                Some(index) => self@.index(name@) == Some(index as int),
                None => self@.index(name@) is None,
            },
            found is Some ==> found->0 < self@.entries.len(),
    {
        let ghost entries = self@.entries;
        let mut i: usize = 0;
        assert(entries.skip(0) =~= entries);
        while i < self.entries.len()
            invariant
                i <= self.entries.len(),
                entries == self.entries.deep_view(),
                match position(entries.skip(i as int), name@) {
                    Some(index) => position(entries, name@) == Some(index + i),
                    None => position(entries, name@) is None,
                },
            decreases self.entries.len() - i,
        {
            let ghost rest = entries.skip(i as int);
            assert(rest[0] == self.entries@[i as int]@);
            if text::names_match(self.entries[i].name.as_str(), name) {
                return Some(i);
            }
            assert(rest.drop_first() =~= entries.skip(i as int + 1));
            i = i + 1;
        }
        None
    }

    fn register(&mut self, name: &str) -> (index: usize)
        requires
            old(self)@.index(name@) is None,
            old(self)@.wf(),
        ensures
            index == old(self)@.entries.len(),
            final(self)@ == old(self)@.registered(name@),
            final(self)@.wf(),
    {
        let index: usize = self.entries.len();
        let ghost before = self@;
        let channel = Channel {
            name: name.to_owned(),
            status: ChannelStatus { state: ChannelState::NotJoined, desired: true },
            deadline: None,
        };
        self.entries.push(channel);
        proof {
            assert(self@.entries =~= before.entries.push(channel@));
            lemma_position(before.entries, name@);
        }
        index
    }

    fn emit(&mut self, event: IrcEvent)
        ensures
            final(self)@ == old(self)@.emitted(event@),
    {
        let ghost before = self@;
        self.events.push(event);
        assert(self@.events =~= before.events.push(event@));
        assert(self@ =~= before.emitted(event@));
    }

    fn publish(&mut self, index: usize)
        requires
            index < old(self)@.entries.len(),
        ensures
            final(self)@ == old(self)@.published(index as int),
    {
        let event = IrcEvent::Channel(
            self.label.clone(),
            self.entries[index].name.clone(),
            self.entries[index].status,
        );
        self.emit(event);
    }

    fn want(&mut self, index: usize, desired: bool)
        requires
            index < old(self)@.entries.len(),
        ensures
            final(self)@ == old(self)@.wanted(index as int, desired),
            old(self)@.wf() ==> final(self)@.wf(),
    {
        let ghost before = self@;
        self.entries[index].status.desired = desired;
        assert(self@.entries =~= before.wanted(index as int, desired).entries);
        assert(self@ =~= before.wanted(index as int, desired));
    }

    fn transition(&mut self, index: usize, state: ChannelState, now: u64)
        requires
            index < old(self)@.entries.len(),
            awaited(state) ==> now + old(self)@.timeout <= u64::MAX,
        ensures
            final(self)@ == old(self)@.transition(index as int, state, now),
            old(self)@.wf() ==> final(self)@.wf(),
    {
        let ghost before = self@;
        self.entries[index].status.state = state;
        self.entries[index].deadline = match state {
            ChannelState::Joining | ChannelState::Parting => Some(now + self.timeout),
            _ => None,
        };
        assert(self@.entries =~= before.moved(index as int, state, now).entries);
        assert(self@ =~= before.moved(index as int, state, now));
        self.publish(index);
    }

    /// The names of the channels, as they were first written.
    pub fn names(&self) -> (names: Vec<String>)
        ensures
            names.deep_view() == self@.entries.map_values(|entry: ChannelView| entry.name),
    {
        let mut names: Vec<String> = Vec::new();
        let mut i: usize = 0;
        while i < self.entries.len()
            invariant
                i <= self.entries.len(),
                names.len() == i,
                forall|j: int| 0 <= j < i ==> (#[trigger] names@[j])@ == self.entries@[j].name@,
            decreases self.entries.len() - i,
        {
            names.push(self.entries[i].name.clone());
            i = i + 1;
        }
        assert(names.deep_view() =~= self@.entries.map_values(|entry: ChannelView| entry.name));
        names
    }

    /// Whether something can be said to `name` now.
    pub fn can_send(&self, name: &str) -> (answer: bool)
        ensures
            answer == self@.can_send(name@),
    {
        match self.index(name) {
            Some(index) => self.entries[index].status.state == ChannelState::Joined,
            None => !valid_channel_name(name),
        }
    }

    /// Ask for every wanted channel on a new connection.
    pub fn start(&mut self, now: u64) -> (commands: Vec<ClientCommand>)
        requires
            old(self)@.wf(),
            now + old(self)@.timeout <= u64::MAX,
        ensures
            final(self)@.wf(),
            (final(self)@, commands.deep_view()) == old(self)@.start(
                old(self)@.entries.len() as int,
                now,
            ),
    {
        let ghost before = self@;
        let mut commands: Vec<ClientCommand> = Vec::new();
        assert(commands.deep_view() =~= Seq::empty());
        let count: usize = self.entries.len();
        let mut index: usize = 0;
        while index < count
            invariant
                index <= count == before.entries.len(),
                self@.wf(),
                self@.timeout == before.timeout,
                now + before.timeout <= u64::MAX,
                self@.entries.len() == count,
                (self@, commands.deep_view()) == before.start(index as int, now),
            decreases count - index,
        {
            let ghost shown = self@;
            let ghost asked = commands.deep_view();
            if self.entries[index].status.desired {
                let command = ClientCommand::Join(self.entries[index].name.clone());
                assert(command@ == ClientCommandView::Join(shown.entries[index as int].name));
                self.transition(index, ChannelState::Joining, now);
                commands.push(command);
                assert(commands.deep_view() =~= asked.push(command@));
            }
            index = index + 1;
        }
        commands
    }

    /// Forget the state of a closed connection, but not what was wanted.
    pub fn disconnected(&mut self)
        requires
            old(self)@.wf(),
        ensures
            final(self)@.wf(),
            final(self)@ == old(self)@.disconnected(old(self)@.entries.len() as int),
    {
        let ghost before = self@;
        let count: usize = self.entries.len();
        let mut index: usize = 0;
        while index < count
            invariant
                index <= count == before.entries.len(),
                self@.wf(),
                self@.entries.len() == count,
                self@ == before.disconnected(index as int),
            decreases count - index,
        {
            self.transition(index, ChannelState::NotJoined, 0);
            index = index + 1;
        }
    }

    fn pursue(
        &mut self,
        index: usize,
        joining: bool,
        reason: Option<String>,
        connected: bool,
        now: u64,
    ) -> (command: Option<ClientCommand>)
        requires
            index < old(self)@.entries.len(),
            old(self)@.wf(),
            now + old(self)@.timeout <= u64::MAX,
        ensures
            final(self)@.wf(),
            (final(self)@, command.deep_view()) == old(self)@.pursue(
                index as int,
                joining,
                reason.deep_view(),
                connected,
                now,
            ),
    {
        let state = self.entries[index].status.state;
        let busy = match state {
            ChannelState::Joining | ChannelState::Parting => true,
            ChannelState::Joined => joining,
            _ => false,
        };
        if connected && busy {
            self.publish(index);
            return None;
        }
        self.want(index, joining);
        if !connected || (!joining && state == ChannelState::NotJoined) {
            self.transition(index, ChannelState::NotJoined, now);
            return None;
        }
        assert(index < self@.entries.len());
        let name = self.entries[index].name.clone();
        if joining {
            self.transition(index, ChannelState::Joining, now);
            Some(ClientCommand::Join(name))
        } else {
            self.transition(index, ChannelState::Parting, now);
            Some(ClientCommand::Part { channel: name, reason })
        }
    }

    /// Take up a join or part; the command is what has to be sent for it.
    pub fn request(&mut self, command: &ConnectionCommand, connected: bool, now: u64) -> (wire:
        Option<ClientCommand>)
        requires
            old(self)@.wf(),
            now + old(self)@.timeout <= u64::MAX,
        ensures
            final(self)@.wf(),
            (final(self)@, wire.deep_view()) == old(self)@.request(command@, connected, now),
    {
        match command {
            ConnectionCommand::Join(name) => {
                let index: usize = match self.index(name.as_str()) {
                    Some(index) => index,
                    None => self.register(name.as_str()),
                };
                self.pursue(index, true, None, connected, now)
            },
            ConnectionCommand::Part { channel, reason } => match self.index(channel.as_str()) {
                Some(index) => self.pursue(index, false, text::copied(reason), connected, now),
                None => None,
            },
            _ => None,
        }
    }

    /// Take note of our own confirmed join; the command undoes an unwanted one.
    pub fn joined(&mut self, name: &str, now: u64) -> (wire: Option<ClientCommand>)
        requires
            old(self)@.wf(),
            now + old(self)@.timeout <= u64::MAX,
        ensures
            final(self)@.wf(),
            (final(self)@, wire.deep_view()) == old(self)@.joined(name@, now),
    {
        if !valid_channel_name(name) {
            return None;
        }
        let index: usize = match self.index(name) {
            Some(index) => index,
            None => self.register(name),
        };
        assert(index < self@.entries.len());
        assert(self@.entries[index as int] == self.entries@[index as int]@);
        if self.entries[index].status.desired {
            self.transition(index, ChannelState::Joined, now);
            None
        } else if self.entries[index].status.state == ChannelState::Parting {
            None
        } else {
            let channel = self.entries[index].name.clone();
            self.transition(index, ChannelState::Parting, now);
            Some(ClientCommand::Part { channel, reason: None })
        }
    }

    /// Take note that we left a channel or were kicked from it.
    pub fn left(&mut self, name: &str, kicked: bool)
        requires
            old(self)@.wf(),
        ensures
            final(self)@.wf(),
            final(self)@ == old(self)@.left(name@, kicked),
    {
        match self.index(name) {
            Some(index) => {
                if !kicked {
                    self.want(index, false);
                }
                self.transition(index, ChannelState::NotJoined, 0);
            },
            None => {},
        }
    }

    /// Take note of a refusal that names a channel.
    pub fn error(&mut self, code: u16, name: &str)
        requires
            old(self)@.wf(),
        ensures
            final(self)@.wf(),
            final(self)@ == old(self)@.error(code, name@),
    {
        match self.index(name) {
            Some(index) => {
                if code == ERR_NOTONCHANNEL || (self.entries[index].status.state
                    == ChannelState::Joining && (code == 403 || code == 405 || code == 407 || code
                    == 437 || code == 471 || code == 473 || code == 474 || code == 475 || code
                    == 476 || code == 477 || code == 489)) {
                    self.transition(index, ChannelState::NotJoined, 0);
                }
            },
            None => {},
        }
    }

    /// When the next unconfirmed join or part is given up.
    pub fn deadline(&self) -> (earliest: Option<u64>)
        ensures
            earliest == self@.deadline(self@.entries.len() as int),
    {
        let mut earliest: Option<u64> = None;
        let mut i: usize = 0;
        while i < self.entries.len()
            invariant
                i <= self.entries.len(),
                earliest == self@.deadline(i as int),
            decreases self.entries.len() - i,
        {
            assert(self@.entries[i as int] == self.entries@[i as int]@);
            earliest = match (earliest, self.entries[i].deadline) {
                (Some(earliest), Some(next)) => Some(
                    if next < earliest {
                        next
                    } else {
                        earliest
                    },
                ),
                (Some(earliest), None) => Some(earliest),
                (None, next) => next,
            };
            i = i + 1;
        }
        earliest
    }

    /// Give up what was not confirmed by `now`, and say so in each channel.
    pub fn expire(&mut self, now: u64, at: SystemTime)
        requires
            old(self)@.wf(),
        ensures
            final(self)@.wf(),
            final(self)@ == old(self)@.expire(old(self)@.entries.len() as int, now, at),
    {
        let ghost before = self@;
        let count: usize = self.entries.len();
        let mut index: usize = 0;
        while index < count
            invariant
                index <= count == before.entries.len(),
                self@.wf(),
                self@.entries.len() == count,
                self@ == before.expire(index as int, now, at),
            decreases count - index,
        {
            let ghost shown = self@;
            assert(shown.entries[index as int] == self.entries@[index as int]@);
            let due = match self.entries[index].deadline {
                Some(deadline) => deadline <= now,
                None => false,
            };
            if due {
                let mut text = if self.entries[index].status.state == ChannelState::Joining {
                    "JOIN".to_owned()
                } else {
                    "PART".to_owned()
                };
                text.append(" timed out; channel membership is unconfirmed");
                let name = self.entries[index].name.clone();
                self.transition(index, ChannelState::Uncertain, now);
                self.notice(name.as_str(), text.as_str(), at);
            }
            index = index + 1;
        }
    }

    /// Put a line into a known channel's conversation.
    pub fn notice(&mut self, name: &str, text: &str, at: SystemTime)
        ensures
            final(self)@ == old(self)@.notice(name@, text@, at),
            old(self)@.wf() ==> final(self)@.wf(),
    {
        match self.index(name) {
            Some(index) => {
                let message = RoutedMessage {
                    server: ServerId::new(self.label.as_str()),
                    target: BufferKind::Channel(self.entries[index].name.clone()),
                    content: MessageContent::console_at(text, at),
                };
                self.emit(IrcEvent::Message(message));
            },
            None => {},
        }
    }

    /// Report something about the connection itself.
    pub(crate) fn report(&mut self, event: IrcEvent)
        ensures
            final(self)@ == old(self)@.emitted(event@),
            old(self)@.wf() ==> final(self)@.wf(),
    {
        self.emit(event);
    }

    /// The events since they were last taken, oldest first.
    pub fn take_events(&mut self) -> (events: Vec<IrcEvent>)
        ensures
            events.deep_view() == old(self)@.events,
            final(self)@ == (ChannelsView { events: Seq::empty(), ..old(self)@ }),
            old(self)@.wf() ==> final(self)@.wf(),
    {
        let ghost before = self@;
        let mut events: Vec<IrcEvent> = Vec::new();
        std::mem::swap(&mut events, &mut self.events);
        assert(self@.events =~= Seq::empty());
        assert(self@ =~= (ChannelsView { events: Seq::empty(), ..before }));
        events
    }

    /// The name of the server in reports.
    pub(crate) fn label(&self) -> (label: &str)
        ensures
            label@ == self@.label,
    {
        self.label.as_str()
    }
}

/// Only a joined channel can be sent to.
pub proof fn law_only_joined_channels_are_sent_to(channels: ChannelsView, name: Seq<char>)
    requires
        model::channel_name(name),
        channels.can_send(name),
    ensures
        channels.index(name) is Some,
        channels.entries[channels.index(name)->0].status.state == ChannelState::Joined,
{
}

/// Asking for the wanted channels leaves the others, and what is wanted, alone.
proof fn lemma_start(channels: ChannelsView, count: int, now: u64)
    requires
        0 <= count <= channels.entries.len(),
    ensures
        ({
            let after = channels.start(count, now).0;
            &&& after.entries.len() == channels.entries.len()
            &&& forall|i: int|
                0 <= i < channels.entries.len() ==> {
                    &&& (#[trigger] after.entries[i]).name == channels.entries[i].name
                    &&& after.entries[i].status.desired == channels.entries[i].status.desired
                    &&& after.entries[i].status.state == (if i < count
                        && channels.entries[i].status.desired {
                        ChannelState::Joining
                    } else {
                        channels.entries[i].status.state
                    })
                }
        }),
    decreases count,
{
    if count > 0 {
        lemma_start(channels, count - 1, now);
    }
}

/// The join of one channel.
pub open spec fn join_of(entry: ChannelView) -> ClientCommandView {
    ClientCommandView::Join(entry.name)
}

/// After a registration exactly the wanted channels are asked for, in their
/// order and under their names; each is then being joined.
pub proof fn law_wanted_channels_are_joined(channels: ChannelsView, now: u64)
    ensures
        ({
            let count = channels.entries.len() as int;
            let (after, commands) = channels.start(count, now);
            &&& commands == channels.entries.filter(
                |entry: ChannelView| entry.status.desired,
            ).map_values(|entry: ChannelView| join_of(entry))
            &&& after.entries.len() == count
            &&& forall|i: int|
                0 <= i < count ==> {
                    &&& (#[trigger] after.entries[i]).name == channels.entries[i].name
                    &&& after.entries[i].status.desired == channels.entries[i].status.desired
                    &&& channels.entries[i].status.desired ==> after.entries[i].status.state
                        == ChannelState::Joining
                    &&& !channels.entries[i].status.desired ==> after.entries[i].status.state
                        == channels.entries[i].status.state
                }
        }),
{
    let count = channels.entries.len() as int;
    lemma_start(channels, count, now);
    lemma_start_commands(channels, count, now);
    assert(channels.entries.take(count) =~= channels.entries);
}

proof fn lemma_start_commands(channels: ChannelsView, count: int, now: u64)
    requires
        0 <= count <= channels.entries.len(),
    ensures
        channels.start(count, now).1 == channels.entries.take(count).filter(
            |entry: ChannelView| entry.status.desired,
        ).map_values(|entry: ChannelView| join_of(entry)),
    decreases count,
{
    let wanted = |entry: ChannelView| entry.status.desired;
    reveal(Seq::filter);
    if count > 0 {
        lemma_start_commands(channels, count - 1, now);
        lemma_start(channels, count - 1, now);
        let taken = channels.entries.take(count);
        let before = channels.start(count - 1, now).0;
        assert(before.entries[count - 1].name == channels.entries[count - 1].name);
        assert(taken.drop_last() =~= channels.entries.take(count - 1));
        assert(taken.last() == channels.entries[count - 1]);
        if channels.entries[count - 1].status.desired {
            assert(taken.filter(wanted) == taken.drop_last().filter(wanted).push(taken.last()));
            assert(taken.filter(wanted).map_values(|entry: ChannelView| join_of(entry))
                =~= taken.drop_last().filter(wanted).map_values(
                |entry: ChannelView| join_of(entry),
            ).push(join_of(taken.last())));
        } else {
            assert(taken.filter(wanted) == taken.drop_last().filter(wanted));
        }
    } else {
        assert(channels.entries.take(0).filter(wanted).map_values(
            |entry: ChannelView| join_of(entry),
        ) =~= Seq::empty());
    }
}

/// A closed connection leaves no channel joined or awaited, and changes neither
/// which channels are known nor which are wanted.
pub proof fn law_disconnecting_keeps_wishes(channels: ChannelsView, count: int)
    requires
        0 <= count <= channels.entries.len(),
    ensures
        ({
            let after = channels.disconnected(count);
            &&& after.entries.len() == channels.entries.len()
            &&& forall|i: int|
                0 <= i < channels.entries.len() ==> {
                    &&& (#[trigger] after.entries[i]).name == channels.entries[i].name
                    &&& after.entries[i].status.desired == channels.entries[i].status.desired
                    &&& i < count ==> after.entries[i].status.state == ChannelState::NotJoined
                        && after.entries[i].deadline is None
                    &&& i >= count ==> after.entries[i] == channels.entries[i]
                }
        }),
    decreases count,
{
    if count > 0 {
        law_disconnecting_keeps_wishes(channels, count - 1);
    }
}

/// A part is a wish: unless the channel waits for the server's word, it is no
/// longer wanted, so that no later registration joins it.
pub proof fn law_parted_channels_are_not_wanted(
    channels: ChannelsView,
    name: Seq<char>,
    reason: Option<Seq<char>>,
    connected: bool,
    now: u64,
)
    requires
        channels.index(name) is Some,
        !(connected && channels.busy(channels.index(name)->0, false)),
    ensures
        !channels.request(
            ConnectionCommandView::Part { channel: name, reason },
            connected,
            now,
        ).0.entries[channels.index(name)->0].status.desired,
{
    lemma_position(channels.entries, name);
}

/// A join that nobody wants any more is undone at once.
pub proof fn law_unwanted_joins_are_undone(channels: ChannelsView, name: Seq<char>, now: u64)
    requires
        model::channel_name(name),
        channels.index(name) is Some,
        !channels.entries[channels.index(name)->0].status.desired,
        channels.entries[channels.index(name)->0].status.state != ChannelState::Parting,
    ensures
        ({
            let index = channels.index(name)->0;
            let (after, command) = channels.joined(name, now);
            &&& after.entries[index].status.state == ChannelState::Parting
            &&& command == Some(
                ClientCommandView::Part { channel: channels.entries[index].name, reason: None },
            )
        }),
{
    lemma_position(channels.entries, name);
}

/// Once the deadlines were looked at, nothing waits past its deadline.
pub proof fn law_nothing_waits_past_its_deadline(
    channels: ChannelsView,
    count: int,
    now: u64,
    at: SystemTime,
)
    requires
        0 <= count <= channels.entries.len(),
    ensures
        ({
            let after = channels.expire(count, now, at);
            &&& after.entries.len() == channels.entries.len()
            &&& forall|i: int|
                0 <= i < count && (#[trigger] after.entries[i]).deadline is Some
                    ==> after.entries[i].deadline->0 > now
            &&& forall|i: int|
                count <= i < channels.entries.len() ==> #[trigger] after.entries[i]
                    == channels.entries[i]
        }),
    decreases count,
{
    if count > 0 {
        law_nothing_waits_past_its_deadline(channels, count - 1, now, at);
    }
}

} // verus!
