//! What is known of each server, by its folded name.

use vstd::prelude::*;

use crate::connection::ConnectionState;
use crate::model::ServerId;
use crate::text;

verus! {

#[verifier::ext_equal]
pub ghost struct ServerStateView {
    pub label: Seq<char>,
    pub pending_changes: nat,
    pub connection: ConnectionState,
    pub nickname: Option<Seq<char>>,
    pub away: bool,
}

impl ServerStateView {
    /// A server of which nothing but the name is known.
    pub open spec fn new(label: Seq<char>) -> ServerStateView {
        ServerStateView {
            label,
            pending_changes: 0,
            connection: ConnectionState::Stopped,
            nickname: None,
            away: false,
        }
    }
}

/// What is known of one server.
#[derive(Debug)]
pub struct ServerState {
    /// The name as it was first written.
    pub label: String,
    /// Connection controls that the worker has not consumed yet.
    pub pending_changes: usize,
    pub connection: ConnectionState,
    pub nickname: Option<String>,
    pub away: bool,
}

impl View for ServerState {
    type V = ServerStateView;

    open spec fn view(&self) -> ServerStateView {
        ServerStateView {
            label: self.label@,
            pending_changes: self.pending_changes as nat,
            connection: self.connection,
            nickname: self.nickname.deep_view(),
            away: self.away,
        }
    }
}

impl DeepView for ServerState {
    type V = ServerStateView;

    open spec fn deep_view(&self) -> ServerStateView {
        self@
    }
}

impl Clone for ServerState {
    fn clone(&self) -> (copy: Self)
        ensures
            copy == *self,
    {
        ServerState {
            label: self.label.clone(),
            pending_changes: self.pending_changes,
            connection: self.connection,
            nickname: text::copied(&self.nickname),
            away: self.away,
        }
    }
}

impl ServerState {
    pub fn new(label: &str) -> (state: Self)
        ensures
            state@ == ServerStateView::new(label@),
    {
        ServerState {
            label: label.to_owned(),
            pending_changes: 0,
            connection: ConnectionState::Stopped,
            nickname: None,
            away: false,
        }
    }
}

/// The servers, each once.
#[derive(Debug)]
pub struct ServerTable {
    entries: Vec<(ServerId, ServerState)>,
}

impl View for ServerTable {
    type V = Map<Seq<char>, ServerStateView>;

    closed spec fn view(&self) -> Map<Seq<char>, ServerStateView> {
        table_map(self.entries.deep_view())
    }
}

/// The map that a list of pairs stands for; a later pair replaces an earlier one.
spec fn table_map(entries: Seq<(Seq<char>, ServerStateView)>) -> Map<Seq<char>, ServerStateView>
    decreases entries.len(),
{
    if entries.len() == 0 {
        Map::empty()
    } else {
        table_map(entries.drop_last()).insert(entries.last().0, entries.last().1)
    }
}

spec fn unique(entries: Seq<(Seq<char>, ServerStateView)>) -> bool {
    forall|i: int, j: int|
        0 <= i < j < entries.len() ==> (#[trigger] entries[i]).0 != (#[trigger] entries[j]).0
}

proof fn lemma_table(entries: Seq<(Seq<char>, ServerStateView)>)
    requires
        unique(entries),
    ensures
        forall|i: int|
            0 <= i < entries.len() ==> {
                &&& table_map(entries).contains_key((#[trigger] entries[i]).0)
                &&& table_map(entries)[entries[i].0] == entries[i].1
            },
        forall|key: Seq<char>| #[trigger]
            table_map(entries).contains_key(key) ==> exists|i: int|
                0 <= i < entries.len() && (#[trigger] entries[i]).0 == key,
    decreases entries.len(),
{
    if entries.len() > 0 {
        let rest = entries.drop_last();
        assert forall|i: int, j: int| 0 <= i < j < rest.len() implies (#[trigger] rest[i]).0 != (
        #[trigger] rest[j]).0 by {
            assert(rest[i] == entries[i] && rest[j] == entries[j]);
        }
        lemma_table(rest);
        assert forall|i: int| 0 <= i < entries.len() implies {
            &&& table_map(entries).contains_key((#[trigger] entries[i]).0)
            &&& table_map(entries)[entries[i].0] == entries[i].1
        } by {
            if i < rest.len() {
                assert(rest[i] == entries[i]);
            }
        }
        assert forall|key: Seq<char>| #[trigger]
            table_map(entries).contains_key(key) implies exists|i: int|
            0 <= i < entries.len() && (#[trigger] entries[i]).0 == key by {
            if key == entries.last().0 {
                assert(entries[entries.len() - 1].0 == key);
            } else {
                assert(table_map(rest).contains_key(key));
                let i = choose|i: int| 0 <= i < rest.len() && (#[trigger] rest[i]).0 == key;
                assert(entries[i] == rest[i]);
            }
        }
    }
}

impl ServerTable {
    pub closed spec fn wf(&self) -> bool {
        unique(self.entries.deep_view())
    }

    pub fn new() -> (table: Self)
        ensures
            table.wf(),
            table@ == Map::<Seq<char>, ServerStateView>::empty(),
    {
        let table = ServerTable { entries: Vec::new() };
        assert(table.entries.deep_view() =~= Seq::empty());
        table
    }

    /// Whether one more pending change can be counted for every server.
    pub fn has_room(&self) -> (answer: bool)
        requires
            self.wf(),
        ensures
            answer == forall|server: Seq<char>| #[trigger]
                self@.contains_key(server) ==> self@[server].pending_changes < usize::MAX,
    {
        let ghost entries = self.entries.deep_view();
        proof {
            lemma_table(entries);
        }
        let mut i: usize = 0;
        while i < self.entries.len()
            invariant
                i <= self.entries.len(),
                entries == self.entries.deep_view(),
                unique(entries),
                forall|j: int|
                    0 <= j < i ==> (#[trigger] entries[j]).1.pending_changes < usize::MAX,
            decreases self.entries.len() - i,
        {
            assert(entries[i as int].1 == self.entries@[i as int].1@);
            if self.entries[i].1.pending_changes == usize::MAX {
                proof {
                    lemma_table(entries);
                    assert(self@.contains_key(entries[i as int].0));
                }
                return false;
            }
            i = i + 1;
        }
        true
    }

    fn index(&self, id: &str) -> (found: Option<usize>)
        requires
            self.wf(),
        ensures
            match found {
                Some(index) => {
                    &&& index < self.entries@.len()
                    &&& self.entries@[index as int].0@ == id@
                    &&& self@.contains_key(id@)
                    &&& self@[id@] == self.entries@[index as int].1@
                },
                None => {
                    &&& !self@.contains_key(id@)
                    &&& forall|i: int|
                        0 <= i < self.entries@.len() ==> (#[trigger] self.entries@[i]).0@ != id@
                },
            },
    {
        let ghost entries = self.entries.deep_view();
        proof {
            lemma_table(entries);
        }
        let mut i: usize = 0;
        while i < self.entries.len()
            invariant
                i <= self.entries.len(),
                entries == self.entries.deep_view(),
                unique(entries),
                forall|j: int| 0 <= j < i ==> (#[trigger] self.entries@[j]).0@ != id@,
            decreases self.entries.len() - i,
        {
            if text::same_text(self.entries[i].0.as_str(), id) {
                proof {
                    lemma_table(entries);
                    assert(entries[i as int] == (id@, self.entries@[i as int].1@));
                }
                return Some(i);
            }
            i = i + 1;
        }
        assert forall|j: int| 0 <= j < entries.len() implies (#[trigger] entries[j]).0 != id@ by {
            assert(entries[j].0 == self.entries@[j].0@);
        }
        None
    }

    /// What is known of the server with this folded name.
    pub fn get(&self, id: &str) -> (state: Option<&ServerState>)
        requires
            self.wf(),
        ensures
            state.deep_view() == (if self@.contains_key(id@) {
                Some(self@[id@])
            } else {
                None
            }),
    {
        match self.index(id) {
            Some(index) => Some(&self.entries[index].1),
            None => None,
        }
    }

    /// What is known of a server, by its name as written; new where it was not known.
    pub fn state(&self, name: &str) -> (state: ServerState)
        requires
            self.wf(),
        ensures
            state@ == (if self@.contains_key(text::lower(name@)) {
                self@[text::lower(name@)]
            } else {
                ServerStateView::new(name@)
            }),
    {
        let id = text::lowered(name);
        match self.get(id.as_str()) {
            Some(state) => state.clone(),
            None => ServerState::new(name),
        }
    }

    /// Remember what is known of a server, by its name as written.
    pub fn put(&mut self, name: &str, state: ServerState)
        requires
            old(self).wf(),
        ensures
            final(self).wf(),
            final(self)@ == old(self)@.insert(text::lower(name@), state@),
    {
        let id = ServerId::new(name);
        let ghost before = self.entries.deep_view();
        match self.index(id.as_str()) {
            Some(index) => {
                self.entries[index].1 = state;
                let ghost after = self.entries.deep_view();
                proof {
                    assert(after =~= before.update(index as int, (id@, state@)));
                    assert(before[index as int].0 == id@);
                    assert forall|i: int, j: int| 0 <= i < j < after.len() implies (
                    #[trigger] after[i]).0 != (#[trigger] after[j]).0 by {
                        assert(after[i].0 == before[i].0 && after[j].0 == before[j].0);
                    }
                    lemma_updated(before, after, index as int);
                }
            },
            None => {
                let pair = (id, state);
                self.entries.push(pair);
                let ghost after = self.entries.deep_view();
                proof {
                    assert(after =~= before.push(pair.deep_view()));
                    assert(after.drop_last() =~= before);
                    assert forall|i: int, j: int| 0 <= i < j < after.len() implies (
                    #[trigger] after[i]).0 != (#[trigger] after[j]).0 by {
                        assert(after[i] == before[i]);
                        if j < before.len() {
                            assert(after[j] == before[j]);
                        } else {
                            assert(before[i].0 == old(self).entries@[i].0@);
                        }
                    }
                }
            },
        }
    }
}

proof fn lemma_updated(
    before: Seq<(Seq<char>, ServerStateView)>,
    after: Seq<(Seq<char>, ServerStateView)>,
    index: int,
)
    requires
        unique(before),
        unique(after),
        0 <= index < before.len() == after.len(),
        after[index].0 == before[index].0,
        forall|i: int| 0 <= i < before.len() && i != index ==> #[trigger] after[i] == before[i],
    ensures
        table_map(after) == table_map(before).insert(after[index].0, after[index].1),
{
    lemma_table(before);
    lemma_table(after);
    let expected = table_map(before).insert(after[index].0, after[index].1);
    assert forall|key: Seq<char>| #[trigger]
        table_map(after).contains_key(key) == expected.contains_key(key) by {
        if table_map(after).contains_key(key) {
            let i = choose|i: int| 0 <= i < after.len() && (#[trigger] after[i]).0 == key;
            assert(before[i].0 == key || i == index);
        }
        if expected.contains_key(key) && key != after[index].0 {
            let i = choose|i: int| 0 <= i < before.len() && (#[trigger] before[i]).0 == key;
            assert(after[i].0 == key);
        }
    }
    assert forall|key: Seq<char>| table_map(after).contains_key(key) implies #[trigger] table_map(
        after,
    )[key] == expected[key] by {
        let i = choose|i: int| 0 <= i < after.len() && (#[trigger] after[i]).0 == key;
        if i != index {
            assert(after[i] == before[i]);
            assert(before[i].0 != before[index].0);
        }
    }
    assert(table_map(after) =~= expected);
}

} // verus!
