//! Messages to ourselves that await their copy from the server.

use vstd::prelude::*;

use crate::model::{BufferId, MessageId};

verus! {

/// A set of conversation and message identities.
#[derive(Debug)]
pub struct EchoSet {
    pairs: Vec<(BufferId, MessageId)>,
}

impl View for EchoSet {
    type V = Set<(BufferId, MessageId)>;

    closed spec fn view(&self) -> Set<(BufferId, MessageId)> {
        self.pairs@.to_set()
    }
}

impl EchoSet {
    pub closed spec fn wf(&self) -> bool {
        self.pairs@.no_duplicates()
    }

    pub fn new() -> (set: Self)
        ensures
            set.wf(),
            set@ == Set::<(BufferId, MessageId)>::empty(),
    {
        let set = EchoSet { pairs: Vec::new() };
        assert(set@ =~= Set::empty());
        set
    }

    fn index(&self, pair: (BufferId, MessageId)) -> (found: Option<usize>)
        ensures
            match found {
                Some(index) => index < self.pairs@.len() && self.pairs@[index as int] == pair,
                None => !self@.contains(pair),
            },
            found is Some ==> self@.contains(pair),
    {
        let mut i: usize = 0;
        while i < self.pairs.len()
            invariant
                i <= self.pairs.len(),
                forall|j: int| 0 <= j < i ==> self.pairs@[j] != pair,
            decreases self.pairs.len() - i,
        {
            if self.pairs[i].0 == pair.0 && self.pairs[i].1 == pair.1 {
                assert(self.pairs@[i as int] == pair);
                return Some(i);
            }
            i = i + 1;
        }
        None
    }

    /// The messages of one conversation that are in the set, each once.
    pub fn of(&self, buffer: BufferId) -> (messages: Vec<MessageId>)
        requires
            self.wf(),
        ensures
            messages@.no_duplicates(),
            forall|id: MessageId| messages@.contains(id) == #[trigger] self@.contains((buffer, id)),
    {
        let mut messages: Vec<MessageId> = Vec::new();
        let mut i: usize = 0;
        while i < self.pairs.len()
            invariant
                self.wf(),
                i <= self.pairs.len(),
                messages@.no_duplicates(),
                forall|j: int|
                    0 <= j < messages@.len() ==> self.pairs@.take(i as int).contains(
                        (buffer, #[trigger] messages@[j]),
                    ),
                forall|j: int|
                    0 <= j < i && (#[trigger] self.pairs@[j]).0 == buffer ==> messages@.contains(
                        self.pairs@[j].1,
                    ),
            decreases self.pairs.len() - i,
        {
            let ghost sofar = messages@;
            proof {
                assert forall|j: int| 0 <= j < sofar.len() implies self.pairs@.take(
                    i + 1,
                ).contains((buffer, #[trigger] sofar[j])) by {
                    let at = choose|at: int|
                        0 <= at < i && self.pairs@.take(i as int)[at] == (buffer, sofar[j]);
                    assert(self.pairs@.take(i + 1)[at] == (buffer, sofar[j]));
                }
            }
            if self.pairs[i].0 == buffer {
                messages.push(self.pairs[i].1);
                proof {
                    let id = self.pairs@[i as int].1;
                    assert(self.pairs@.take(i + 1)[i as int] == (buffer, id));
                    assert(messages@[sofar.len() as int] == id);
                    if sofar.contains(id) {
                        let k = choose|k: int| 0 <= k < sofar.len() && sofar[k] == id;
                        let at = choose|at: int|
                            0 <= at < i && self.pairs@.take(i as int)[at] == (buffer, sofar[k]);
                        assert(self.pairs@[at] == self.pairs@[i as int]);
                    }
                    assert forall|j: int|
                        0 <= j < i && (#[trigger] self.pairs@[j]).0 == buffer implies
                        messages@.contains(self.pairs@[j].1) by {
                        let k = choose|k: int|
                            0 <= k < sofar.len() && sofar[k] == self.pairs@[j].1;
                        assert(messages@[k] == self.pairs@[j].1);
                    }
                }
            }
            i = i + 1;
        }
        proof {
            assert(self.pairs@.take(i as int) =~= self.pairs@);
            assert forall|id: MessageId| messages@.contains(id) == #[trigger] self@.contains(
                (buffer, id),
            ) by {
                if messages@.contains(id) {
                    let j = choose|j: int| 0 <= j < messages@.len() && messages@[j] == id;
                    assert(self.pairs@.contains((buffer, messages@[j])));
                }
                if self@.contains((buffer, id)) {
                    let at = choose|at: int|
                        0 <= at < self.pairs@.len() && self.pairs@[at] == (buffer, id);
                    assert(self.pairs@[at].0 == buffer);
                }
            }
        }
        messages
    }

    pub fn contains(&self, pair: (BufferId, MessageId)) -> (answer: bool)
        ensures
            answer == self@.contains(pair),
    {
        self.index(pair).is_some()
    }

    pub fn insert(&mut self, pair: (BufferId, MessageId))
        requires
            old(self).wf(),
        ensures
            final(self).wf(),
            final(self)@ == old(self)@.insert(pair),
    {
        let ghost before = self.pairs@;
        if self.index(pair).is_none() {
            self.pairs.push(pair);
            proof {
                assert forall|other: (BufferId, MessageId)| self.pairs@.contains(other) == (
                before.contains(other) || other == pair) by {
                    if before.contains(other) {
                        let i = choose|i: int| 0 <= i < before.len() && before[i] == other;
                        assert(self.pairs@[i] == other);
                    }
                    if other == pair {
                        assert(self.pairs@[before.len() as int] == other);
                    }
                }
            }
        }
        assert(self@ =~= old(self)@.insert(pair));
    }

    pub fn remove(&mut self, pair: (BufferId, MessageId))
        requires
            old(self).wf(),
        ensures
            final(self).wf(),
            final(self)@ == old(self)@.remove(pair),
    {
        let ghost before = self.pairs@;
        match self.index(pair) {
            Some(index) => {
                self.pairs.remove(index);
                proof {
                    assert(self.pairs@ =~= before.remove(index as int));
                    assert forall|other: (BufferId, MessageId)| self.pairs@.contains(other) == (
                    before.contains(other) && other != pair) by {
                        if self.pairs@.contains(other) {
                            let i = choose|i: int|
                                0 <= i < self.pairs@.len() && self.pairs@[i] == other;
                            if i < index {
                                assert(before[i] == other);
                            } else {
                                assert(before[i + 1] == other);
                            }
                        }
                        if before.contains(other) && other != pair {
                            let i = choose|i: int| 0 <= i < before.len() && before[i] == other;
                            if i < index {
                                assert(self.pairs@[i] == other);
                            } else {
                                assert(self.pairs@[i - 1] == other);
                            }
                        }
                    }
                }
            },
            None => {},
        }
        assert(self@ =~= old(self)@.remove(pair));
    }

    /// How many pairs there are, each at a place of its own.
    pub(crate) fn count(&self) -> (count: usize)
        ensures
            count == self.listed().len(),
    {
        self.pairs.len()
    }

    /// The pairs in some order, each once.
    pub closed spec fn listed(&self) -> Seq<(BufferId, MessageId)> {
        self.pairs@
    }

    /// What is listed is what the set holds, each once.
    pub proof fn lemma_listed(&self)
        requires
            self.wf(),
        ensures
            self.listed().to_set() == self@,
            self.listed().no_duplicates(),
    {
    }

    pub(crate) fn pair_at(&self, index: usize) -> (pair: (BufferId, MessageId))
        requires
            index < self.listed().len(),
        ensures
            pair == self.listed()[index as int],
    {
        self.pairs[index]
    }
}

} // verus!
