//! The rows of one conversation's history, measured once for each width.
//!
//! Rows are found by message identity, so that a reading position survives
//! arriving, evicted and newly wrapped messages. The wrapped text is a cache that
//! can be dropped; the measured rows stay.

use std::collections::VecDeque;

use vstd::prelude::*;

use crate::layout::{
    laid_out, law_layout_has_the_counted_rows, law_spans_locate_rows, lemma_start_row_prefix, lemma_start_rows_grow, lemma_wrapped_rows, message_chunks,
    message_line, start_row, total_rows, LayoutLine, LayoutLineView, Said,
};
use crate::model::{Message, MessageId, MessageView};
use crate::sequence::{
    first_index, lemma_is_first_index, lemma_no_first_index,
};
use crate::text;
use crate::tui::input::{input_layout, InputLayout};

verus! {

/// A message as the layout knows it.
#[verifier::ext_equal]
pub ghost struct LaidView {
    pub id: MessageId,
    pub said: Said,
}

pub open spec fn laid(message: MessageView) -> LaidView {
    LaidView {
        id: message.id,
        said: Said { nick: message.content.nick, text: message.content.text },
    }
}

pub open spec fn laid_all(messages: Seq<MessageView>) -> Seq<LaidView> {
    messages.map_values(|m: MessageView| laid(m))
}

pub open spec fn is_laid(id: MessageId) -> spec_fn(LaidView) -> bool {
    |message: LaidView| message.id == id
}

/// A bound on the rows of messages: a text takes at most one row more than it
/// has characters, and a separator follows each.
pub open spec fn load(messages: Seq<LaidView>) -> nat
    decreases messages.len(),
{
    if messages.len() == 0 {
        0
    } else {
        load(messages.drop_last()) + messages.last().said.text.len() + 2
    }
}

/// The rows of the messages can be counted at any width.
pub open spec fn countable(messages: Seq<MessageView>) -> bool {
    load(laid_all(messages)) < usize::MAX
}

/// Identities grow from the oldest message to the newest.
pub open spec fn in_order(messages: Seq<LaidView>) -> bool {
    forall|i: int, j: int|
        0 <= i < j < messages.len() ==> (#[trigger] messages[i]).id.0 < (
        #[trigger] messages[j]).id.0
}

/// A place in a conversation that later layouts can find again.
#[derive(Debug, Clone, Copy, PartialEq, Eq, Structural)]
pub enum Anchor {
    /// The separator above a message.
    Above(MessageId),
    /// A row of a message.
    Row(MessageId, usize),
    /// The frame below the last message.
    Below(MessageId),
}

#[verifier::ext_equal]
pub ghost struct LayoutView {
    pub width: u16,
    pub messages: Seq<LaidView>,
}

impl LayoutView {
    pub open spec fn empty() -> LayoutView {
        LayoutView { width: 0, messages: Seq::empty() }
    }

    /// The layout of a history.
    pub open spec fn of(messages: Seq<MessageView>, width: u16) -> LayoutView {
        LayoutView { width, messages: laid_all(messages) }
    }

    pub open spec fn said(self) -> Seq<Said> {
        self.messages.map_values(|m: LaidView| m.said)
    }

    /// The first row of a message.
    pub open spec fn start(self, index: int) -> int {
        start_row(self.said(), index, self.width) as int
    }

    pub open spec fn height(self, index: int) -> int {
        self.messages[index].said.height(self.width) as int
    }

    /// The row behind the last one of a message.
    pub open spec fn end(self, index: int) -> int {
        self.start(index) + self.height(index)
    }

    pub open spec fn total(self) -> int {
        total_rows(self.said(), self.width) as int
    }

    pub open spec fn index_of(self, id: MessageId) -> Option<int> {
        first_index(self.messages, is_laid(id))
    }

    /// The rows of a message, as its first one and their number.
    pub open spec fn span(self, id: MessageId) -> Option<(int, int)> {
        match self.index_of(id) {
            Some(index) => Some((self.start(index), self.height(index))),
            None => None,
        }
    }

    /// The first message from `from` on that does not end above `row`.
    pub open spec fn holder(self, row: int, from: int) -> int
        decreases self.messages.len() - from,
    {
        if 0 <= from < self.messages.len() && row >= self.end(from) {
            self.holder(row, from + 1)
        } else {
            from
        }
    }

    /// The message that a row belongs to; separators and frames belong to none.
    pub open spec fn message_at(self, row: int) -> Option<int> {
        let index = self.holder(row, 0);
        if index < self.messages.len() && self.start(index) <= row {
            Some(index)
        } else {
            None
        }
    }

    /// What a row shows.
    pub open spec fn line_at(self, row: int) -> LayoutLineView {
        match self.message_at(row) {
            Some(index) => self.messages[index].said.line(row - self.start(index), self.width),
            None => LayoutLineView::separator(),
        }
    }

    /// The rows from `from` up to `to`.
    pub open spec fn lines_between(self, from: int, to: int) -> Seq<LayoutLineView> {
        Seq::new((to - from) as nat, |i: int| self.line_at(from + i))
    }

    /// The rows from `offset` on that a viewport of this height shows.
    pub open spec fn visible(self, offset: int, height: int) -> Seq<LayoutLineView> {
        if offset >= self.total() {
            Seq::empty()
        } else if offset + height <= self.total() {
            self.lines_between(offset, offset + height)
        } else {
            self.lines_between(offset, self.total())
        }
    }

    /// The place that a row is at.
    pub open spec fn anchor(self, row: int) -> Option<Anchor> {
        if self.messages.len() == 0 {
            None
        } else {
            let index = self.holder(row, 0);
            if index >= self.messages.len() {
                Some(Anchor::Below(self.messages.last().id))
            } else if row < self.start(index) {
                Some(Anchor::Above(self.messages[index].id))
            } else {
                Some(Anchor::Row(self.messages[index].id, (row - self.start(index)) as usize))
            }
        }
    }

    /// The row of a place, if its message is still there. In a message that has
    /// fewer rows now, it is the last one of them.
    pub open spec fn resolve(self, anchor: Option<Anchor>) -> Option<int> {
        match anchor {
            None => None,
            Some(Anchor::Above(id)) => match self.span(id) {
                Some((start, _)) => Some(start - 1),
                None => None,
            },
            Some(Anchor::Row(id, row)) => match self.span(id) {
                Some((start, height)) => Some(
                    if row < height {
                        start + row
                    } else {
                        start + height - 1
                    },
                ),
                None => None,
            },
            Some(Anchor::Below(id)) => match self.span(id) {
                Some((start, height)) => Some(start + height),
                None => None,
            },
        }
    }

    /// A viewport of this height shows a row of a message.
    pub open spec fn shows(self, index: int, offset: int, height: int) -> bool {
        self.end(index) > offset && self.start(index) < offset + height
    }

    /// A message lies between two rows with all its rows.
    pub open spec fn within(self, index: int, top: int, bottom: int) -> bool {
        top <= self.start(index) && self.end(index) <= bottom
    }

    /// The last of the first `count` messages that lies between two rows.
    pub open spec fn last_within(self, top: int, bottom: int, count: int) -> Option<MessageId>
        decreases count,
    {
        if count <= 0 {
            None
        } else if self.within(count - 1, top, bottom) {
            Some(self.messages[count - 1].id)
        } else {
            self.last_within(top, bottom, count - 1)
        }
    }

    /// A message whose rows are measured already.
    pub open spec fn knows(self, message: LaidView, width: u16) -> bool {
        self.width == width && self.messages.contains(message)
    }

    /// How many of the messages are not measured yet.
    pub open spec fn unknown(self, messages: Seq<LaidView>, width: u16) -> nat
        decreases messages.len(),
    {
        if messages.len() == 0 {
            0
        } else {
            self.unknown(messages.drop_last(), width) + (if self.knows(messages.last(), width) {
                0nat
            } else {
                1nat
            })
        }
    }

    /// The start of the next message is one separator behind the end of this one.
    pub proof fn lemma_next_start(self, index: int)
        requires
            0 <= index < self.messages.len(),
        ensures
            self.start(index + 1) == self.end(index) + 1,
            self.height(index) >= 1,
            self.start(index) >= 1,
    {
        assert(self.said()[index] == self.messages[index].said);
        lemma_wrapped_rows(
            self.messages[index].said.text,
            (self.width - self.messages[index].said.indent(self.width)) as nat,
        );
        self.lemma_start_positive(index);
    }

    proof fn lemma_start_positive(self, index: int)
        ensures
            self.start(index) >= 1,
    {
    }

    /// Messages end on later rows one after another, all above the frame below.
    pub proof fn lemma_ends_grow(self, i: int, j: int)
        requires
            0 <= i < j < self.messages.len(),
        ensures
            self.end(i) < self.start(j),
            self.end(i) < self.end(j),
    {
        lemma_start_rows_grow(self.said(), i, j, self.width);
        assert(self.said()[i] == self.messages[i].said);
        self.lemma_next_start(j);
    }

    pub proof fn lemma_total(self, index: int)
        requires
            0 <= index < self.messages.len(),
        ensures
            self.end(index) < self.total(),
            index == self.messages.len() - 1 ==> self.total() == self.end(index) + 1,
    {
        let last = self.messages.len() - 1;
        self.lemma_next_start(last);
        if index < last {
            self.lemma_ends_grow(index, last);
        }
    }

    /// The message that does not end above a row, while all earlier ones do, holds it.
    pub proof fn lemma_is_holder(self, row: int, index: int)
        requires
            0 <= index <= self.messages.len(),
            index > 0 ==> row >= self.end(index - 1),
            index < self.messages.len() ==> row < self.end(index),
        ensures
            self.holder(row, 0) == index,
    {
        self.lemma_passed(row, 0, index);
    }

    proof fn lemma_passed(self, row: int, from: int, index: int)
        requires
            0 <= from <= index <= self.messages.len(),
            index > 0 ==> row >= self.end(index - 1),
            index < self.messages.len() ==> row < self.end(index),
        ensures
            self.holder(row, from) == index,
        decreases index - from,
    {
        if from < index {
            if from < index - 1 {
                self.lemma_ends_grow(from, index - 1);
            }
            self.lemma_passed(row, from + 1, index);
        }
    }

    /// The holder of a row does not end above it, while all earlier messages do.
    pub proof fn lemma_holder(self, row: int)
        ensures
            0 <= self.holder(row, 0) <= self.messages.len(),
            self.holder(row, 0) > 0 ==> row >= self.end(self.holder(row, 0) - 1),
            self.holder(row, 0) < self.messages.len() ==> row < self.end(self.holder(row, 0)),
    {
        self.lemma_holder_from(row, 0);
    }

    proof fn lemma_holder_from(self, row: int, from: int)
        requires
            0 <= from <= self.messages.len(),
        ensures
            from <= self.holder(row, from) <= self.messages.len(),
            self.holder(row, from) > from ==> row >= self.end(self.holder(row, from) - 1),
            self.holder(row, from) < self.messages.len() ==> row < self.end(
                self.holder(row, from),
            ),
        decreases self.messages.len() - from,
    {
        if from < self.messages.len() && row >= self.end(from) {
            self.lemma_holder_from(row, from + 1);
        }
    }

    /// The layout of the first messages has the rows that they have in the whole.
    pub proof fn lemma_prefix(self, count: int, index: int)
        requires
            0 <= index <= count <= self.messages.len(),
        ensures
            ({
                let part = LayoutView { messages: self.messages.take(count), ..self };
                &&& part.start(index) == self.start(index)
                &&& index < count ==> part.height(index) == self.height(index)
            }),
    {
        let part = LayoutView { messages: self.messages.take(count), ..self };
        assert forall|i: int| 0 <= i < index implies part.said()[i] == self.said()[i] by {
            assert(part.messages[i] == self.messages[i]);
        }
        lemma_start_row_prefix(part.said(), self.said(), index, self.width);
    }

    /// The rows of messages stay below the bound.
    pub proof fn lemma_load(self)
        ensures
            self.start(self.messages.len() as int) <= load(self.messages) + 1,
            self.total() <= load(self.messages) + 1,
        decreases self.messages.len(),
    {
        if self.messages.len() > 0 {
            let last = self.messages.len() - 1;
            let earlier = LayoutView { messages: self.messages.drop_last(), ..self };
            earlier.lemma_load();
            assert(self.messages.take(last) =~= earlier.messages);
            self.lemma_prefix(last, last);
            self.lemma_next_start(last);
            lemma_wrapped_rows(
                self.messages[last].said.text,
                (self.width - self.messages[last].said.indent(self.width)) as nat,
            );
        }
    }
}

/// A measured message, and its wrapped text while it is cached.
#[derive(Debug)]
struct Entry {
    id: MessageId,
    nick: String,
    text: String,
    start: usize,
    height: usize,
    chunks: Option<Vec<String>>,
}

impl View for Entry {
    type V = LaidView;

    closed spec fn view(&self) -> LaidView {
        LaidView { id: self.id, said: Said { nick: self.nick@, text: self.text@ } }
    }
}

impl DeepView for Entry {
    type V = LaidView;

    closed spec fn deep_view(&self) -> LaidView {
        self@
    }
}

impl Entry {
    /// What is kept of the entry is true of its message at this width.
    spec fn holds_at(&self, width: u16) -> bool {
        &&& self.height == self@.said.height(width)
        &&& self.chunks matches Some(chunks) ==> chunks.deep_view() == self@.said.chunks(width)
    }

    spec fn cached_rows(&self) -> nat {
        if self.chunks is Some {
            self.height as nat
        } else {
            0
        }
    }

    /// An entry of no message, which takes the place of one that is moved.
    fn blank() -> (entry: Self)
        ensures
            entry@ == (LaidView {
                id: MessageId(0),
                said: Said { nick: Seq::empty(), text: Seq::empty() },
            }),
            entry.start == 0,
            entry.height == 0,
            entry.chunks is None,
    {
        let entry = Entry {
            id: MessageId(0),
            nick: String::new(),
            text: String::new(),
            start: 0,
            height: 0,
            chunks: None,
        };
        assert(entry.nick@ =~= Seq::empty());
        assert(entry.text@ =~= Seq::empty());
        entry
    }

    fn measure(message: &Message, start: usize, width: u16) -> (entry: Self)
        ensures
            entry@ == laid(message@),
            entry.start == start,
            entry.holds_at(width),
            entry.chunks is Some,
    {
        let chunks = message_chunks(
            message.content.nick.as_str(),
            message.content.text.as_str(),
            width,
        );
        assert(chunks.deep_view().len() == chunks.len());
        Entry {
            id: message.id,
            nick: message.content.nick.clone(),
            text: message.content.text.clone(),
            start,
            height: chunks.len(),
            chunks: Some(chunks),
        }
    }

    /// Whether the entry is of this message.
    fn is_of(&self, message: &Message) -> (answer: bool)
        ensures
            answer == (self@ == laid(message@)),
    {
        self.id == message.id && self.nick == message.content.nick && self.text
            == message.content.text
    }
}

spec fn cached_in(entries: Seq<Entry>) -> nat
    decreases entries.len(),
{
    if entries.len() == 0 {
        0
    } else {
        cached_in(entries.drop_last()) + entries.last().cached_rows()
    }
}

/// Where entry `index` is replaced, the cached rows change by its own.
proof fn lemma_cached_update(entries: Seq<Entry>, index: int, entry: Entry)
    requires
        0 <= index < entries.len(),
    ensures
        cached_in(entries.update(index, entry)) == cached_in(entries) - entries[index].cached_rows()
            + entry.cached_rows(),
        entries[index].cached_rows() <= cached_in(entries),
    decreases entries.len(),
{
    let after = entries.update(index, entry);
    if index == entries.len() - 1 {
        assert(after.drop_last() =~= entries.drop_last());
    } else {
        lemma_cached_update(entries.drop_last(), index, entry);
        assert(after.drop_last() =~= entries.drop_last().update(index, entry));
        assert(after.last() == entries.last());
    }
}

#[derive(Debug)]
pub struct LayoutCache {
    entries: Vec<Entry>,
    width: u16,
    cached: usize,
    /// Messages measured so far.
    measurements: usize,
}

impl View for LayoutCache {
    type V = LayoutView;

    closed spec fn view(&self) -> LayoutView {
        LayoutView { width: self.width, messages: self.entries.deep_view() }
    }
}

impl Default for LayoutCache {
    fn default() -> (cache: Self)
        ensures
            cache.wf(),
            cache@ == LayoutView::empty(),
            cache.measured() == 0,
    {
        let cache = LayoutCache { entries: Vec::new(), width: 0, cached: 0, measurements: 0 };
        assert(cache@.messages =~= Seq::empty());
        cache
    }
}

/// One more measured message, as far as the counter goes.
pub open spec fn counted(count: int) -> int {
    if count > usize::MAX {
        usize::MAX as int
    } else {
        count
    }
}

impl LayoutCache {
    /// Every message is measured at the width and starts where the rows of the
    /// earlier ones end, and the rows can be counted.
    pub closed spec fn wf(&self) -> bool {
        &&& in_order(self@.messages)
        &&& self@.total() <= usize::MAX
        &&& self.cached == cached_in(self.entries@)
        &&& self.settled()
    }

    spec fn settled(&self) -> bool {
        forall|i: int|
            0 <= i < self.entries.len() ==> {
                &&& (#[trigger] self.entries[i]).start == self@.start(i)
                &&& self.entries[i].holds_at(self.width)
            }
    }

    /// The rows whose wrapped text is cached.
    pub closed spec fn cached_rows(&self) -> nat {
        cached_in(self.entries@)
    }

    /// The wrapped text of a message is cached.
    pub closed spec fn is_cached(&self, index: int) -> bool {
        self.entries[index].chunks is Some
    }

    /// How many messages were measured so far.
    pub closed spec fn measured(&self) -> int {
        self.measurements as int
    }

    /// How many messages were measured so far.
    pub fn measurements(&self) -> (count: usize)
        ensures
            count == self.measured(),
    {
        self.measurements
    }

    /// A sound layout can be counted, and knows its messages in order.
    pub broadcast proof fn lemma_wf(&self)
        requires
            #[trigger] self.wf(),
        ensures
            self@.total() <= usize::MAX,
            in_order(self@.messages),
    {
    }

    /// Bring the layout in line with a history at a width. Messages that are
    /// measured at that width already are not measured again.
    pub fn sync(&mut self, messages: &VecDeque<Message>, width: u16)
        requires
            old(self).wf(),
            in_order(laid_all(messages.deep_view())),
            countable(messages.deep_view()),
        ensures
            final(self).wf(),
            final(self)@ == LayoutView::of(messages.deep_view(), width),
            final(self).measured() == counted(
                old(self).measured() + old(self)@.unknown(laid_all(messages.deep_view()), width),
            ),
    {
        let ghost before = self@;
        let ghost entries = self.entries@;
        let ghost target = LayoutView::of(messages.deep_view(), width);
        let keep = self.width == width;
        let counter: usize = self.measurements;
        let mut known: Vec<Entry> = Vec::new();
        std::mem::swap(&mut known, &mut self.entries);
        let mut built: Vec<Entry> = Vec::new();
        let mut cached: usize = 0;
        let mut count: usize = counter;
        let mut row: usize = 1;
        let mut k: usize = 0;
        let mut j: usize = 0;
        proof {
            target.lemma_load();
            assert(target.messages.take(0) =~= Seq::empty());
            assert(built.deep_view() =~= Seq::empty());
        }
        while j < messages.len()
            invariant
                j <= messages.len(),
                target == LayoutView::of(messages.deep_view(), width),
                in_order(target.messages),
                target.start(target.messages.len() as int) <= usize::MAX,
                before.messages.len() == known.len() == entries.len(),
                in_order(before.messages),
                keep == (before.width == width),
                k <= known.len(),
                forall|i: int|
                    k <= i < known.len() ==> {
                        &&& (#[trigger] known[i])@ == before.messages[i]
                        &&& keep ==> known[i].holds_at(width)
                    },
                forall|i: int|
                    0 <= i < k && j < messages.len() ==> (#[trigger] before.messages[i]).id.0
                        < target.messages[j as int].id.0,
                built.deep_view() == target.messages.take(j as int),
                forall|i: int|
                    0 <= i < j ==> {
                        &&& (#[trigger] built[i]).start == target.start(i)
                        &&& built[i].holds_at(width)
                    },
                row == target.start(j as int),
                cached == cached_in(built@),
                cached <= row,
                count == counted(counter + before.unknown(target.messages.take(j as int), width)),
            decreases messages.len() - j,
        {
            let ghost one = target.messages[j as int];
            assert(one == laid(messages@[j as int]@));
            while k < known.len() && known[k].id.0 < messages[j].id.0
                invariant
                    j < messages.len(),
                    one == laid(messages@[j as int]@),
                    before.messages.len() == known.len(),
                    in_order(before.messages),
                    k <= known.len(),
                    forall|i: int|
                        k <= i < known.len() ==> {
                            &&& (#[trigger] known[i])@ == before.messages[i]
                            &&& keep ==> known[i].holds_at(width)
                        },
                    forall|i: int|
                        0 <= i < k ==> (#[trigger] before.messages[i]).id.0 < one.id.0,
                decreases known.len() - k,
            {
                assert(known[k as int]@ == before.messages[k as int]);
                k = k + 1;
            }
            let reuse = keep && k < known.len() && known[k].is_of(&messages[j]);
            proof {
                if k < known.len() {
                    assert(known[k as int]@ == before.messages[k as int]);
                }
                if before.messages.contains(one) {
                    let at = choose|at: int|
                        0 <= at < before.messages.len() && before.messages[at] == one;
                    assert(at >= k);
                    if at > k {
                        assert(before.messages[k as int].id.0 < before.messages[at].id.0);
                    }
                    assert(at == k);
                }
                assert(reuse == before.knows(one, width));
            }
            let mut entry = Entry::blank();
            if reuse {
                std::mem::swap(&mut entry, &mut known[k]);
                entry.start = row;
                k = k + 1;
            } else {
                entry = Entry::measure(&messages[j], row, width);
                count = if count == usize::MAX {
                    count
                } else {
                    count + 1
                };
            }
            proof {
                target.lemma_next_start(j as int);
                let rest = target.messages.len();
                if j + 1 < rest {
                    lemma_start_rows_grow(target.said(), j as int, rest as int, width);
                    assert(target.said()[j as int] == one.said);
                    assert(target.messages[j + 1].id.0 > one.id.0);
                }
                assert(target.start(j + 1) <= target.start(rest as int)) by {
                    if j + 1 < rest {
                        lemma_start_rows_grow(target.said(), j + 1, rest as int, width);
                    }
                }
                let longer = target.messages.take(j + 1);
                assert(longer.drop_last() =~= target.messages.take(j as int));
                assert(longer.last() == one);
            }
            let height: usize = entry.height;
            if entry.chunks.is_some() {
                cached = cached + height;
            }
            let ghost sofar = built@;
            let ghost shown = built.deep_view();
            built.push(entry);
            proof {
                assert(built@.drop_last() =~= sofar);
                assert(built.deep_view() =~= shown.push(one));
                assert(built.deep_view() =~= target.messages.take(j + 1));
            }
            row = row + height + 1;
            j = j + 1;
        }
        self.entries = built;
        self.width = width;
        self.cached = cached;
        self.measurements = count;
        proof {
            assert(target.messages.take(j as int) =~= target.messages);
            assert(self@ =~= target);
        }
    }

    /// The rows of the whole list.
    pub fn total_height(&self) -> (total: usize)
        requires
            self.wf(),
        ensures
            total == self@.total(),
    {
        if self.entries.len() == 0 {
            0
        } else {
            let last: usize = self.entries.len() - 1;
            proof {
                self@.lemma_total(last as int);
            }
            self.entries[last].start + self.entries[last].height + 1
        }
    }

    fn find(&self, id: MessageId) -> (found: Option<usize>)
        ensures
            match found {
                Some(index) => self@.index_of(id) == Some(index as int) && index
                    < self.entries.len(),
                None => self@.index_of(id) is None,
            },
    {
        let ghost all = self@.messages;
        let mut i: usize = 0;
        while i < self.entries.len()
            invariant
                i <= self.entries.len(),
                all == self.entries.deep_view(),
                forall|j: int| 0 <= j < i ==> !is_laid(id)(#[trigger] all[j]),
            decreases self.entries.len() - i,
        {
            assert(all[i as int] == self.entries@[i as int]@);
            if self.entries[i].id == id {
                proof {
                    lemma_is_first_index(all, is_laid(id), i as int);
                }
                return Some(i);
            }
            i = i + 1;
        }
        proof {
            lemma_no_first_index(all, is_laid(id));
        }
        None
    }

    /// The rows of a message, as its first one and their number.
    pub fn span(&self, id: MessageId) -> (span: Option<(usize, usize)>)
        requires
            self.wf(),
        ensures
            span_view(span) == self@.span(id),
    {
        match self.find(id) {
            Some(index) => Some((self.entries[index].start, self.entries[index].height)),
            None => None,
        }
    }

    /// The first message that does not end above `row`.
    #[verifier::spinoff_prover]
    #[verifier::rlimit(40)]
    fn find_holder(&self, row: usize) -> (index: usize)
        requires
            self.wf(),
        ensures
            index == self@.holder(row as int, 0),
            index <= self.entries.len(),
    {
        let mut low: usize = 0;
        let mut high: usize = self.entries.len();
        while low < high
            invariant
                self.wf(),
                low <= high <= self.entries.len(),
                low > 0 ==> row >= self@.end(low - 1),
                high < self.entries.len() ==> row < self@.end(high as int),
            decreases high - low,
        {
            let middle: usize = low + (high - low) / 2;
            proof {
                self@.lemma_total(middle as int);
                assert(self@.messages[middle as int] == self.entries@[middle as int]@);
            }
            if row >= self.entries[middle].start + self.entries[middle].height {
                low = middle + 1;
            } else {
                high = middle;
            }
        }
        proof {
            self@.lemma_is_holder(row as int, low as int);
        }
        low
    }

    /// The message that a row belongs to; separators and frames belong to none.
    pub fn message_at(&self, row: usize) -> (index: Option<usize>)
        requires
            self.wf(),
        ensures
            position(index) == self@.message_at(row as int),
            index is Some ==> index->0 < self@.messages.len(),
    {
        let index: usize = self.find_holder(row);
        if index < self.entries.len() && self.entries[index].start <= row {
            Some(index)
        } else {
            None
        }
    }

    /// The place that a row is at.
    pub fn anchor(&self, row: usize) -> (anchor: Option<Anchor>)
        requires
            self.wf(),
        ensures
            anchor == self@.anchor(row as int),
    {
        if self.entries.len() == 0 {
            return None;
        }
        let index: usize = self.find_holder(row);
        let last: usize = self.entries.len() - 1;
        assert(self@.messages[last as int] == self.entries@[last as int]@);
        if index >= self.entries.len() {
            return Some(Anchor::Below(self.entries[last].id));
        }
        assert(self@.messages[index as int] == self.entries@[index as int]@);
        if row < self.entries[index].start {
            Some(Anchor::Above(self.entries[index].id))
        } else {
            Some(Anchor::Row(self.entries[index].id, row - self.entries[index].start))
        }
    }

    /// The row of a place, if its message is still there.
    pub fn resolve_anchor(&self, anchor: Option<Anchor>) -> (row: Option<usize>)
        requires
            self.wf(),
        ensures
            position(row) == self@.resolve(anchor),
    {
        let id = match anchor {
            None => return None,
            Some(Anchor::Above(id)) => id,
            Some(Anchor::Row(id, _)) => id,
            Some(Anchor::Below(id)) => id,
        };
        let index: usize = match self.find(id) {
            Some(index) => index,
            None => return None,
        };
        proof {
            self@.lemma_next_start(index as int);
            self@.lemma_total(index as int);
            assert(self@.messages[index as int] == self.entries@[index as int]@);
        }
        let start: usize = self.entries[index].start;
        let height: usize = self.entries[index].height;
        match anchor {
            None => None,
            Some(Anchor::Above(_)) => Some(start - 1),
            Some(Anchor::Row(_, row)) => Some(
                if row < height {
                    start + row
                } else {
                    start + height - 1
                },
            ),
            Some(Anchor::Below(_)) => Some(start + height),
        }
    }

    /// The last message that lies between two rows with all its rows.
    pub fn last_fully_visible(&self, top: usize, bottom: usize) -> (id: Option<MessageId>)
        requires
            self.wf(),
        ensures
            id == self@.last_within(top as int, bottom as int, self@.messages.len() as int),
    {
        let mut count: usize = self.entries.len();
        while count > 0
            invariant
                self.wf(),
                count <= self.entries.len(),
                self@.last_within(top as int, bottom as int, self@.messages.len() as int)
                    == self@.last_within(top as int, bottom as int, count as int),
            decreases count,
        {
            let index: usize = count - 1;
            proof {
                self@.lemma_total(index as int);
                assert(self@.messages[index as int] == self.entries@[index as int]@);
            }
            let start: usize = self.entries[index].start;
            if top <= start && start + self.entries[index].height <= bottom {
                return Some(self.entries[index].id);
            }
            count = index;
        }
        None
    }

    /// Put the rows of one message from `from` up to `to` behind `lines`.
    #[verifier::spinoff_prover]
    #[verifier::rlimit(40)]
    fn push_rows(&self, index: usize, from: usize, to: usize, lines: &mut Vec<LayoutLine>)
        requires
            self.wf(),
            index < self@.messages.len(),
            self@.start(index as int) <= from <= to <= self@.end(index as int),
        ensures
            final(lines).deep_view() == old(lines).deep_view() + self@.lines_between(
                from as int,
                to as int,
            ),
    {
        let ghost before = lines.deep_view();
        let ghost shown = self@.lines_between(from as int, to as int);
        let ghost one = self@.messages[index as int];
        assert(one == self.entries@[index as int]@);
        let start: usize = self.entries[index].start;
        let nick = self.entries[index].nick.as_str();
        let text = self.entries[index].text.as_str();
        let fresh: Vec<String>;
        let chunks: &Vec<String> = match &self.entries[index].chunks {
            Some(chunks) => chunks,
            None => {
                fresh = message_chunks(nick, text, self.width);
                &fresh
            },
        };
        assert(chunks.deep_view() == one.said.chunks(self.width));
        let mut row: usize = from;
        assert(before + shown.take(0) =~= before);
        while row < to
            invariant
                self.wf(),
                index < self@.messages.len(),
                one == self@.messages[index as int],
                start == self@.start(index as int),
                start <= from <= row <= to <= self@.end(index as int),
                one.said == (Said { nick: nick@, text: text@ }),
                chunks.deep_view() == one.said.chunks(self.width),
                self@.width == self.width,
                shown == self@.lines_between(from as int, to as int),
                lines.deep_view() == before + shown.take(row - from),
            decreases to - row,
        {
            let ghost sofar = lines.deep_view();
            assert(chunks.deep_view().len() == chunks.len());
            assert(chunks@[row - start]@ == chunks.deep_view()[row - start]);
            let line = message_line(nick, text, chunks[row - start].as_str(), row - start, self.width);
            lines.push(line);
            proof {
                if index > 0 {
                    self@.lemma_ends_grow(index - 1, index as int);
                }
                self@.lemma_is_holder(row as int, index as int);
                assert(shown[row - from] == self@.line_at(row as int));
                assert(lines.deep_view() =~= sofar.push(line@));
                assert(lines.deep_view() =~= before + shown.take(row - from + 1));
            }
            row = row + 1;
        }
        assert(shown.take(row - from) =~= shown);
    }

    /// The rows from `offset` on that a viewport of `height` rows shows.
    #[verifier::spinoff_prover]
    #[verifier::rlimit(40)]
    pub fn visible_lines(&self, offset: usize, height: usize) -> (lines: Vec<LayoutLine>)
        requires
            self.wf(),
        ensures
            lines.deep_view() == self@.visible(offset as int, height as int),
    {
        let mut lines: Vec<LayoutLine> = Vec::new();
        let total: usize = self.total_height();
        assert(lines.deep_view() =~= Seq::empty());
        if offset >= total {
            assert(self@.visible(offset as int, height as int) =~= Seq::empty());
            return lines;
        }
        let end: usize = if height <= total - offset {
            offset + height
        } else {
            total
        };
        let mut row: usize = offset;
        let mut index: usize = self.find_holder(offset);
        assert(self@.lines_between(offset as int, offset as int) =~= Seq::empty());
        while row < end
            invariant
                self.wf(),
                offset <= row <= end,
                end <= self@.total(),
                index <= self.entries.len(),
                row < end ==> index == self@.holder(row as int, 0),
                lines.deep_view() == self@.lines_between(offset as int, row as int),
            decreases end - row,
        {
            let ghost before = lines.deep_view();
            proof {
                self@.lemma_holder(row as int);
            }
            if index >= self.entries.len() || row < self.entries[index].start {
                let line = LayoutLine::separator();
                lines.push(line);
                proof {
                    assert(lines.deep_view() =~= before.push(line@));
                    assert(lines.deep_view() =~= self@.lines_between(offset as int, row + 1));
                    if index < self.entries.len() {
                        self@.lemma_next_start(index as int);
                    }
                    self@.lemma_is_holder(row + 1, index as int);
                }
                row = row + 1;
            } else {
                proof {
                    self@.lemma_total(index as int);
                    assert(self@.messages[index as int] == self.entries@[index as int]@);
                }
                let last: usize = self.entries[index].start + self.entries[index].height;
                let next: usize = if end < last {
                    end
                } else {
                    last
                };
                self.push_rows(index, row, next, &mut lines);
                proof {
                    assert(lines.deep_view() =~= self@.lines_between(offset as int, next as int));
                    if next < end {
                        if index + 1 < self.entries.len() {
                            self@.lemma_ends_grow(index as int, index + 1);
                        }
                        self@.lemma_is_holder(next as int, index + 1);
                    }
                }
                row = next;
                index = index + 1;
            }
        }
        assert(self@.lines_between(offset as int, end as int) =~= self@.visible(
            offset as int,
            height as int,
        ));
        lines
    }

    /// Drop cached text, the oldest first and none that a viewport of `height`
    /// rows at `offset` shows, until it is within a budget of rows.
    pub fn prune(&mut self, offset: usize, height: usize, budget: usize)
        requires
            old(self).wf(),
        ensures
            final(self).wf(),
            final(self)@ == old(self)@,
            final(self).measured() == old(self).measured(),
            final(self).cached_rows() <= old(self).cached_rows(),
            old(self).cached_rows() <= budget ==> *final(self) == *old(self),
            final(self).cached_rows() <= budget || forall|i: int|
                0 <= i < final(self)@.messages.len() && #[trigger] final(self).is_cached(i)
                    ==> final(self)@.shows(i, offset as int, height as int),
            forall|i: int|
                0 <= i < final(self)@.messages.len() && final(self)@.shows(
                    i,
                    offset as int,
                    height as int,
                ) ==> #[trigger] final(self).is_cached(i) == old(self).is_cached(i),
    {
        let ghost before = *self;
        let mut i: usize = 0;
        while i < self.entries.len() && self.cached > budget
            invariant
                before.wf(),
                self.wf(),
                self@ == before@,
                self.width == before.width,
                self.measurements == before.measurements,
                self.entries.len() == before.entries.len(),
                i <= self.entries.len(),
                self.cached_rows() <= before.cached_rows(),
                i > 0 ==> before.cached_rows() > budget,
                i == 0 ==> *self == before,
                forall|j: int|
                    0 <= j < i && #[trigger] self.is_cached(j) ==> self@.shows(
                        j,
                        offset as int,
                        height as int,
                    ),
                forall|j: int|
                    0 <= j < self.entries.len() && self@.shows(j, offset as int, height as int)
                        ==> #[trigger] self.is_cached(j) == before.is_cached(j),
                forall|j: int|
                    i <= j < self.entries.len() ==> #[trigger] self.is_cached(j)
                        == before.is_cached(j),
            decreases self.entries.len() - i,
        {
            proof {
                self@.lemma_total(i as int);
                assert(self@.messages[i as int] == self.entries@[i as int]@);
            }
            let start: usize = self.entries[i].start;
            let rows: usize = self.entries[i].height;
            let shown = start + rows > offset && (start < offset || start - offset < height);
            if !shown && self.entries[i].chunks.is_some() {
                let ghost entries = self.entries@;
                let ghost view = self@;
                let ghost old_self = *self;
                proof {
                    let bare = Entry { chunks: None, ..entries[i as int] };
                    lemma_cached_update(entries, i as int, bare);
                }
                self.entries[i].chunks = None;
                self.cached = self.cached - rows;
                proof {
                    let bare = Entry { chunks: None, ..entries[i as int] };
                    assert(self.entries@ =~= entries.update(i as int, bare));
                    assert(self@.messages =~= view.messages);
                    assert forall|j: int| 0 <= j < self.entries.len() implies {
                        &&& (#[trigger] self.entries[j]).start == self@.start(j)
                        &&& self.entries[j].holds_at(self.width)
                    } by {
                        assert(old_self.entries[j].start == old_self@.start(j));
                    }
                    assert forall|j: int| 0 <= j < self.entries.len() && j != i implies
                        #[trigger] self.is_cached(j) == old_self.is_cached(j) by {}
                }
            }
            i = i + 1;
        }
    }
}

/// A row span with mathematical rows, for contracts.
pub open spec fn span_view(span: Option<(usize, usize)>) -> Option<(int, int)> {
    match span {
        Some((start, height)) => Some((start as int, height as int)),
        None => None,
    }
}

/// A row or an index as a mathematical one, for contracts.
pub open spec fn position(index: Option<usize>) -> Option<int> {
    match index {
        Some(index) => Some(index as int),
        None => None,
    }
}

/// Rows that the composer's text takes by display width.
pub fn input_line_count(text: &str, cursor: usize, width: u16) -> (count: usize)
    ensures
        count == input_layout(text@, cursor as int, width as int).lines.len(),
{
    let layout = InputLayout::new(text, cursor, width);
    assert(layout.lines.deep_view().len() == layout.lines.len());
    layout.lines.len()
}

/// Identities that grow find their own message.
proof fn lemma_found(layout: LayoutView, index: int)
    requires
        in_order(layout.messages),
        0 <= index < layout.messages.len(),
    ensures
        layout.index_of(layout.messages[index].id) == Some(index),
{
    let id = layout.messages[index].id;
    assert forall|i: int| 0 <= i < index implies !is_laid(id)(#[trigger] layout.messages[i]) by {
        assert(layout.messages[i].id.0 < layout.messages[index].id.0);
    }
    lemma_is_first_index(layout.messages, is_laid(id), index);
}

/// Row by row, a layout shows what laying out all messages at once gives.
pub proof fn law_rows_are_the_laid_out_rows(layout: LayoutView, row: int)
    requires
        0 <= row < layout.total(),
    ensures
        row < laid_out(layout.said(), layout.width).len(),
        layout.line_at(row) == laid_out(layout.said(), layout.width)[row],
{
    law_layout_has_the_counted_rows(layout.said(), layout.width);
    layout.lemma_holder(row);
    let index = layout.holder(row, 0);
    let last = layout.messages.len() - 1;
    layout.lemma_total(last);
    if index <= last {
        layout.lemma_next_start(index);
        assert(layout.said()[index] == layout.messages[index].said);
        if index > 0 {
            layout.lemma_next_start(index - 1);
        } else {
            assert(layout.start(0) == 1);
        }
        if row < layout.start(index) {
            assert(row == layout.start(index) - 1);
            law_spans_locate_rows(layout.said(), index, 0, layout.width);
        } else {
            law_spans_locate_rows(
                layout.said(),
                index,
                row - layout.start(index),
                layout.width,
            );
        }
    } else {
        layout.lemma_next_start(last);
        assert(layout.said()[last] == layout.messages[last].said);
        law_spans_locate_rows(layout.said(), last, 0, layout.width);
    }
}

/// The place of a row resolves to that row while the layout stays the same.
pub proof fn law_anchor_finds_its_row(layout: LayoutView, row: int)
    requires
        in_order(layout.messages),
        0 <= row < layout.total() <= usize::MAX,
    ensures
        layout.resolve(layout.anchor(row)) == Some(row),
{
    layout.lemma_holder(row);
    let index = layout.holder(row, 0);
    let last = layout.messages.len() - 1;
    layout.lemma_total(last);
    if index <= last {
        lemma_found(layout, index);
        layout.lemma_next_start(index);
        layout.lemma_total(index);
        if index > 0 {
            layout.lemma_next_start(index - 1);
        } else {
            assert(layout.start(0) == 1);
        }
    } else {
        lemma_found(layout, last);
        layout.lemma_next_start(last);
    }
}

/// The reading position survives: wherever the message that a row belongs to is
/// still in a later layout of the same width, its place shows the same line there.
pub proof fn law_anchor_shows_the_same_line(before: LayoutView, after: LayoutView, row: int)
    requires
        in_order(before.messages),
        in_order(after.messages),
        0 <= row < before.total() <= usize::MAX,
        after.width == before.width,
        ({
            let index = before.holder(row, 0);
            let last = before.messages.len() - 1;
            after.messages.contains(
                before.messages[if index > last {
                    last
                } else {
                    index
                }],
            )
        }),
    ensures
        after.resolve(before.anchor(row)) is Some,
        0 <= after.resolve(before.anchor(row))->0 < after.total(),
        after.line_at(after.resolve(before.anchor(row))->0) == before.line_at(row),
{
    before.lemma_holder(row);
    let index = before.holder(row, 0);
    let last = before.messages.len() - 1;
    before.lemma_total(last);
    let kept = if index > last {
        last
    } else {
        index
    };
    before.lemma_total(kept);
    before.lemma_next_start(kept);
    let message = before.messages[kept];
    let at = choose|at: int| 0 <= at < after.messages.len() && after.messages[at] == message;
    lemma_found(after, at);
    after.lemma_next_start(at);
    after.lemma_total(at);
    if at > 0 {
        after.lemma_next_start(at - 1);
    }
    let found = after.resolve(before.anchor(row))->0;
    if index > last {
        if at + 1 < after.messages.len() {
            after.lemma_next_start(at + 1);
        }
        after.lemma_is_holder(found, at + 1);
    } else {
        after.lemma_is_holder(found, at);
    }
}

/// A place inside a message stays inside that message at any width.
pub proof fn law_anchor_stays_in_its_message(after: LayoutView, index: int, row: usize)
    requires
        in_order(after.messages),
        0 <= index < after.messages.len(),
    ensures
        ({
            let place = after.resolve(Some(Anchor::Row(after.messages[index].id, row)));
            place is Some && after.message_at(place->0) == Some(index)
        }),
{
    lemma_found(after, index);
    after.lemma_next_start(index);
    if index > 0 {
        after.lemma_next_start(index - 1);
    }
    let place = after.resolve(Some(Anchor::Row(after.messages[index].id, row)))->0;
    after.lemma_is_holder(place, index);
}

} // verus!
