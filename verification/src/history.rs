//! Bounded in-memory history, independent of any screen.

use std::collections::{HashMap, VecDeque};

use vstd::prelude::*;

use crate::model::{BufferId, Message, MessageContent, MessageContentView, MessageId, MessageView};

verus! {

/// Messages kept for each conversation unless a store is made with another limit.
pub const DEFAULT_CAPACITY: usize = 5_000;

/// Identities affected by an append, for viewport and selection anchors.
#[derive(Debug, PartialEq, Eq)]
pub struct HistoryChange {
    pub inserted: MessageId,
    pub evicted: Vec<MessageId>,
}

impl Clone for HistoryChange {
    fn clone(&self) -> (copy: Self)
        ensures
            copy.inserted == self.inserted,
            copy.evicted@ == self.evicted@,
    {
        HistoryChange { inserted: self.inserted, evicted: self.evicted.clone() }
    }
}

#[verifier::ext_equal]
pub ghost struct HistoryView {
    pub buffers: Map<BufferId, Seq<MessageView>>,
    pub capacity: nat,
    pub next_id: int,
}

impl HistoryView {
    pub open spec fn empty(capacity: nat) -> HistoryView {
        HistoryView { buffers: Map::empty(), capacity, next_id: 1 }
    }

    /// The messages of one conversation, oldest first.
    pub open spec fn of(self, buffer: BufferId) -> Seq<MessageView> {
        if self.buffers.contains_key(buffer) {
            self.buffers[buffer]
        } else {
            Seq::empty()
        }
    }

    /// A message can be appended: its identity is still free.
    pub open spec fn has_room(self) -> bool {
        self.next_id < u64::MAX
    }

    /// The conversation with the new message, before anything is evicted.
    pub open spec fn grown(self, buffer: BufferId, content: MessageContentView) -> Seq<MessageView> {
        self.of(buffer).push(MessageView { id: MessageId(self.next_id as u64), buffer, content })
    }

    /// How many of the oldest messages an append evicts.
    pub open spec fn excess(self, buffer: BufferId) -> int {
        if self.of(buffer).len() + 1 > self.capacity {
            self.of(buffer).len() + 1 - self.capacity
        } else {
            0
        }
    }

    pub open spec fn append(self, buffer: BufferId, content: MessageContentView) -> HistoryView {
        HistoryView {
            buffers: self.buffers.insert(
                buffer,
                self.grown(buffer, content).skip(self.excess(buffer)),
            ),
            next_id: self.next_id + 1,
            ..self
        }
    }

    /// The identities that an append evicts, oldest first.
    pub open spec fn evicted(self, buffer: BufferId, content: MessageContentView) -> Seq<MessageId> {
        self.grown(buffer, content).take(self.excess(buffer)).map_values(|m: MessageView| m.id)
    }

    /// No identity occurs in two conversations.
    #[verifier::opaque]
    pub open spec fn unshared(self) -> bool {
        forall|a: BufferId, i: int, b: BufferId, j: int|
            a != b && self.buffers.contains_key(a) && 0 <= i < self.buffers[a].len()
                && self.buffers.contains_key(b) && 0 <= j < self.buffers[b].len() ==> (
            #[trigger] self.buffers[a][i]).id != (#[trigger] self.buffers[b][j]).id
    }

    /// Every conversation is within the limit, and holds its own messages in
    /// the order of their identities, all of which were allocated. An identity
    /// belongs to one message alone.
    pub open spec fn wf(self) -> bool {
        &&& 1 <= self.next_id <= u64::MAX
        &&& self.unshared()
        &&& forall|b: BufferId| #[trigger]
            self.buffers.contains_key(b) ==> self.buffers[b].len() <= self.capacity
        &&& forall|b: BufferId, i: int|
            self.buffers.contains_key(b) && 0 <= i < self.buffers[b].len() ==> {
                &&& (#[trigger] self.buffers[b][i]).buffer == b
                &&& 0 < self.buffers[b][i].id.0 < self.next_id
            }
        &&& forall|b: BufferId, i: int, j: int|
            self.buffers.contains_key(b) && 0 <= i < j < self.buffers[b].len() ==> (
            #[trigger] self.buffers[b][i]).id.0 < (#[trigger] self.buffers[b][j]).id.0
    }
}

#[derive(Debug)]
pub struct HistoryStore {
    buffers: HashMap<u64, VecDeque<Message>>,
    empty: VecDeque<Message>,
    capacity: usize,
    next_id: u64,
}

impl View for HistoryStore {
    type V = HistoryView;

    closed spec fn view(&self) -> HistoryView {
        HistoryView {
            buffers: Map::new(
                |b: BufferId| self.buffers@.contains_key(b.0),
                |b: BufferId| self.buffers@[b.0].deep_view(),
            ),
            capacity: self.capacity as nat,
            next_id: self.next_id as int,
        }
    }
}

impl HistoryStore {
    pub closed spec fn wf(&self) -> bool {
        self@.wf() && self.empty@.len() == 0
    }

    pub fn new(capacity: usize) -> (store: Self)
        ensures
            store.wf(),
            store@.wf(),
            store@ == HistoryView::empty(capacity as nat),
    {
        let store = HistoryStore {
            buffers: HashMap::new(),
            empty: VecDeque::new(),
            capacity,
            next_id: 1,
        };
        assert(store@.buffers =~= Map::empty());
        assert(store@.unshared()) by {
            reveal(HistoryView::unshared);
        }
        store
    }

    /// Whether a message can be appended: its identity is still free.
    pub fn has_room(&self) -> (answer: bool)
        ensures
            answer == self@.has_room(),
    {
        self.next_id < u64::MAX
    }

    /// Append to one buffer and evict its oldest messages by count alone.
    pub fn append(&mut self, buffer: BufferId, content: MessageContent) -> (change: HistoryChange)
        requires
            old(self).wf(),
            old(self)@.has_room(),
        ensures
            final(self).wf(),
            final(self)@.wf(),
            final(self)@ == old(self)@.append(buffer, content@),
            change.inserted.0 == old(self)@.next_id,
            change.evicted@ == old(self)@.evicted(buffer, content@),
    {
        broadcast use vstd::std_specs::hash::group_hash_axioms;
        let ghost before = self@;
        let ghost grown = before.grown(buffer, content@);
        let inserted = MessageId(self.next_id);
        self.next_id = self.next_id + 1;
        let mut messages = match self.buffers.remove(&buffer.0) {
            Some(messages) => messages,
            None => VecDeque::new(),
        };
        assert(messages.deep_view() =~= before.of(buffer));
        let ghost kept = messages.deep_view();
        let message = Message { id: inserted, buffer, content };
        messages.push_back(message);
        assert(messages.deep_view() =~= kept.push(message@));
        assert(messages.deep_view() =~= grown);
        let mut evicted: Vec<MessageId> = Vec::new();
        assert(grown.skip(0) =~= grown);
        while messages.len() > self.capacity
            invariant
                evicted.len() <= grown.len(),
                messages.deep_view() == grown.skip(evicted.len() as int),
                evicted@ == grown.take(evicted.len() as int).map_values(|m: MessageView| m.id),
                evicted.len() > 0 ==> messages.len() >= self.capacity,
            decreases messages.len(),
        {
            let ghost count = evicted.len() as int;
            let ghost shown = messages.deep_view();
            match messages.pop_front() {
                Some(oldest) => {
                    assert(oldest@ == shown[0]);
                    evicted.push(oldest.id);
                    assert(messages.deep_view() =~= shown.skip(1));
                    assert(messages.deep_view() =~= grown.skip(count + 1));
                    assert(evicted@ =~= grown.take(count + 1).map_values(|m: MessageView| m.id));
                },
                None => {},
            }
        }
        proof {
            assert(evicted.len() == before.excess(buffer));
        }
        self.buffers.insert(buffer.0, messages);
        proof {
            let after = before.append(buffer, content@);
            assert(self@.buffers =~= after.buffers);
            assert(self@ == after);
            lemma_append_keeps_wf(before, buffer, content@);
        }
        HistoryChange { inserted, evicted }
    }

    /// Messages ordered oldest first; unknown buffers have an empty history.
    pub fn messages(&self, buffer: BufferId) -> (messages: &VecDeque<Message>)
        requires
            self.wf(),
        ensures
            messages.deep_view() == self@.of(buffer),
    {
        broadcast use vstd::std_specs::hash::group_hash_axioms;
        match self.buffers.get(&buffer.0) {
            Some(messages) => messages,
            None => {
                assert(self.empty.deep_view() =~= Seq::empty());
                &self.empty
            },
        }
    }
}

impl Default for HistoryStore {
    fn default() -> (store: Self)
        ensures
            store.wf(),
            store@.wf(),
            store@ == HistoryView::empty(DEFAULT_CAPACITY as nat),
    {
        HistoryStore::new(DEFAULT_CAPACITY)
    }
}

proof fn lemma_append_keeps_wf(history: HistoryView, buffer: BufferId, content: MessageContentView)
    requires
        history.wf(),
        history.has_room(),
    ensures
        history.append(buffer, content).wf(),
{
    let after = history.append(buffer, content);
    let grown = history.grown(buffer, content);
    let excess = history.excess(buffer);
    let old_messages = history.of(buffer);
    assert forall|b: BufferId, i: int|
        after.buffers.contains_key(b) && 0 <= i < after.buffers[b].len() implies {
        &&& (#[trigger] after.buffers[b][i]).buffer == b
        &&& 0 < after.buffers[b][i].id.0 < after.next_id
    } by {
        if b == buffer {
            let k = i + excess;
            assert(after.buffers[b][i] == grown[k]);
            if k < old_messages.len() {
                assert(grown[k] == history.buffers[b][k]);
            }
        } else {
            assert(after.buffers[b][i] == history.buffers[b][i]);
        }
    }
    assert forall|b: BufferId, i: int, j: int|
        after.buffers.contains_key(b) && 0 <= i < j < after.buffers[b].len() implies (
    #[trigger] after.buffers[b][i]).id.0 < (#[trigger] after.buffers[b][j]).id.0 by {
        if b == buffer {
            assert(after.buffers[b][i] == grown[i + excess]);
            assert(after.buffers[b][j] == grown[j + excess]);
            assert(grown[i + excess] == history.buffers[b][i + excess]);
            if j + excess < old_messages.len() {
                assert(grown[j + excess] == history.buffers[b][j + excess]);
            }
        } else {
            assert(after.buffers[b][i] == history.buffers[b][i]);
            assert(after.buffers[b][j] == history.buffers[b][j]);
        }
    }
    assert(after.unshared()) by {
        reveal(HistoryView::unshared);
        assert forall|a: BufferId, i: int, b: BufferId, j: int|
            a != b && after.buffers.contains_key(a) && 0 <= i < after.buffers[a].len()
                && after.buffers.contains_key(b) && 0 <= j < after.buffers[b].len() implies (
        #[trigger] after.buffers[a][i]).id != (#[trigger] after.buffers[b][j]).id by {
            if a == buffer {
                let k = i + excess;
                assert(after.buffers[a][i] == grown[k]);
                assert(after.buffers[b][j] == history.buffers[b][j]);
                if k < old_messages.len() {
                    assert(grown[k] == history.buffers[a][k]);
                }
            } else if b == buffer {
                let k = j + excess;
                assert(after.buffers[b][j] == grown[k]);
                assert(after.buffers[a][i] == history.buffers[a][i]);
                if k < old_messages.len() {
                    assert(grown[k] == history.buffers[b][k]);
                }
            } else {
                assert(after.buffers[a][i] == history.buffers[a][i]);
                assert(after.buffers[b][j] == history.buffers[b][j]);
            }
        }
    }
}

/// An identity belongs to one message: where two places hold the same identity,
/// they are the same place.
pub proof fn law_an_identity_belongs_to_one_message(
    history: HistoryView,
    a: BufferId,
    i: int,
    b: BufferId,
    j: int,
)
    requires
        history.wf(),
        0 <= i < history.of(a).len(),
        0 <= j < history.of(b).len(),
        history.of(a)[i].id == history.of(b)[j].id,
    ensures
        a == b,
        i == j,
{
    reveal(HistoryView::unshared);
    let left = history.buffers[a][i];
    let right = history.buffers[b][j];
    assert(left == history.of(a)[i]);
    assert(right == history.of(b)[j]);
}

/// An identity is given out once: the one that an append takes is later than
/// that of every message in any conversation, and the next append takes a later
/// one still.
pub proof fn law_identities_are_never_reused(
    history: HistoryView,
    buffer: BufferId,
    content: MessageContentView,
    other: BufferId,
    index: int,
)
    requires
        history.wf(),
        history.has_room(),
        0 <= index < history.of(other).len(),
    ensures
        history.of(other)[index].id.0 < history.next_id,
        history.grown(buffer, content).last().id.0 == history.next_id,
        history.append(buffer, content).next_id > history.next_id,
        history.append(buffer, content).wf(),
{
    lemma_append_keeps_wf(history, buffer, content);
    assert(history.buffers[other][index] == history.of(other)[index]);
}

/// An append leaves every other conversation as it was.
pub proof fn law_append_touches_one_conversation(
    history: HistoryView,
    buffer: BufferId,
    content: MessageContentView,
    other: BufferId,
)
    requires
        other != buffer,
    ensures
        history.append(buffer, content).of(other) == history.of(other),
{
}

/// A conversation keeps its newest messages, unchanged and in order, up to the
/// limit; what it no longer keeps is what the append reports as evicted.
pub proof fn law_the_newest_messages_are_kept(
    history: HistoryView,
    buffer: BufferId,
    content: MessageContentView,
)
    requires
        history.wf(),
    ensures
        ({
            let grown = history.grown(buffer, content);
            let kept = history.append(buffer, content).of(buffer);
            let evicted = history.evicted(buffer, content);
            &&& kept.len() <= history.capacity
            &&& kept.len() < history.capacity ==> evicted.len() == 0
            &&& kept == grown.skip(grown.len() - kept.len())
            &&& evicted + kept.map_values(|m: MessageView| m.id) == grown.map_values(
                |m: MessageView| m.id,
            )
        }),
{
    let grown = history.grown(buffer, content);
    let kept = history.append(buffer, content).of(buffer);
    let excess = history.excess(buffer);
    assert(kept == grown.skip(excess));
    assert(history.evicted(buffer, content) + kept.map_values(|m: MessageView| m.id)
        =~= grown.map_values(|m: MessageView| m.id));
}

/// An append puts the content, as it is, behind the messages of its conversation,
/// under the next identity. Below the limit it takes nothing away; at the limit it
/// takes the oldest message.
pub proof fn law_what_is_appended_is_the_newest(
    history: HistoryView,
    buffer: BufferId,
    content: MessageContentView,
)
    requires
        history.wf(),
        history.has_room(),
        history.capacity > 0,
    ensures
        ({
            let before = history.of(buffer);
            let after = history.append(buffer, content).of(buffer);
            &&& after.last().content == content
            &&& after.last().id.0 == history.next_id
            &&& after.last().buffer == buffer
            &&& before.len() < history.capacity ==> after.drop_last() == before
            &&& before.len() == history.capacity ==> after.drop_last() == before.drop_first()
            &&& before.len() == history.capacity ==> history.evicted(buffer, content) == seq![
                before[0].id,
            ]
            &&& before.len() < history.capacity ==> history.evicted(buffer, content).len() == 0
            &&& history.append(buffer, content).capacity == history.capacity
        }),
{
    let before = history.of(buffer);
    let after = history.append(buffer, content).of(buffer);
    let grown = history.grown(buffer, content);
    let excess = history.excess(buffer);
    assert(after == grown.skip(excess));
    if before.len() < history.capacity {
        assert(after.drop_last() =~= before);
    } else if before.len() == history.capacity {
        assert(after.drop_last() =~= before.drop_first());
        assert(history.evicted(buffer, content) =~= seq![before[0].id]);
    }
}

} // verus!
