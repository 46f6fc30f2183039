//! One channel's history with its reading position.

use vstd::prelude::*;

use crate::layout::{
    all_said, laid_out, law_layout_has_the_counted_rows, layout_messages, lemma_start_rows_grow,
    row_spans, start_row, total_rows, LayoutLine, Said,
};
use crate::message::{ChatMessage, ChatMessageView};

verus! {

#[verifier::ext_equal]
pub ghost struct ChannelView {
    pub server: Seq<char>,
    pub channel: Seq<char>,
    pub messages: Seq<ChatMessageView>,
    pub offset: int,
    pub selected: Option<int>,
}

/// How many of the oldest messages are dropped so that the rest, or a single
/// message, takes at most `cap` rows.
pub open spec fn drops(messages: Seq<ChatMessageView>, width: u16, cap: nat) -> nat
    decreases messages.len(),
{
    if messages.len() > 1 && total_rows(all_said(messages), width) > cap {
        1 + drops(messages.drop_first(), width, cap)
    } else {
        0
    }
}

/// An index after that many of the elements before it are gone.
pub open spec fn shifted(index: Option<int>, count: int) -> Option<int> {
    match index {
        Some(index) => Some(
            if index < count {
                0
            } else {
                index - count
            },
        ),
        None => None,
    }
}

impl ChannelView {
    pub open spec fn new(server: Seq<char>, channel: Seq<char>) -> ChannelView {
        ChannelView { server, channel, messages: Seq::empty(), offset: 0, selected: None }
    }

    pub open spec fn said(self) -> Seq<Said> {
        all_said(self.messages)
    }

    /// Laid out rows, as far as a 16-bit count goes.
    pub open spec fn total_height(self, width: u16) -> int {
        if total_rows(self.said(), width) > u16::MAX {
            u16::MAX as int
        } else {
            total_rows(self.said(), width) as int
        }
    }

    /// The largest offset at which the viewport is full, or 0.
    pub open spec fn max_offset(self, width: u16, height: u16) -> int {
        if self.total_height(width) > height {
            self.total_height(width) - height
        } else {
            0
        }
    }

    pub open spec fn with_offset(self, offset: int, width: u16, height: u16) -> ChannelView {
        let max = self.max_offset(width, height);
        ChannelView {
            offset: if offset > max {
                max
            } else {
                offset
            },
            ..self
        }
    }

    /// A message arrived, and the oldest ones beyond `cap` are gone.
    pub open spec fn appended(self, message: ChatMessageView, cap: nat) -> ChannelView {
        let messages = self.messages.push(message);
        let excess = if messages.len() > cap {
            messages.len() - cap
        } else {
            0
        };
        ChannelView {
            messages: messages.skip(excess),
            selected: shifted(self.selected, excess),
            ..self
        }
    }

    /// The channel laid out anew, at its newest rows or where it was.
    pub open spec fn relaid(self, width: u16, height: u16, cap: nat, follow: bool) -> ChannelView {
        let dropped = drops(self.messages, width, cap) as int;
        let rest = ChannelView {
            messages: self.messages.skip(dropped),
            selected: shifted(self.selected, dropped),
            ..self
        };
        rest.with_offset(
            if follow {
                rest.max_offset(width, height)
            } else {
                self.offset
            },
            width,
            height,
        )
    }

    /// The rows of the selected message, as its first one and their number.
    pub open spec fn span(self, width: u16) -> Option<(int, int)> {
        match self.selected {
            Some(index) => if 0 <= index < self.messages.len() {
                Some(
                    (
                        start_row(self.said(), index, width) as int,
                        self.said()[index].height(width) as int,
                    ),
                )
            } else {
                None
            },
            None => None,
        }
    }

    /// The viewport shows a message with all its rows.
    pub open spec fn shows(self, index: int, width: u16, height: u16) -> bool {
        let start = start_row(self.said(), index, width) as int;
        start >= self.offset && start + self.said()[index].height(width) <= self.offset + height
    }

    /// The newest of the first `count` messages that is shown with all its rows,
    /// or the newest message.
    pub open spec fn newest_shown(self, count: int, width: u16, height: u16) -> int
        decreases count,
    {
        if count <= 0 {
            self.messages.len() - 1
        } else if self.shows(count - 1, width, height) {
            count - 1
        } else {
            self.newest_shown(count - 1, width, height)
        }
    }

    /// The channel with a message selected, if it has one.
    pub open spec fn with_selection(self, width: u16, height: u16) -> ChannelView {
        if self.messages.len() == 0 || (self.selected is Some && self.selected->0
            < self.messages.len()) {
            self
        } else {
            ChannelView {
                selected: Some(self.newest_shown(self.messages.len() as int, width, height)),
                ..self
            }
        }
    }

    /// Scrolled as little as shows the selected message.
    pub open spec fn revealed(self, width: u16, height: u16) -> ChannelView {
        match self.span(width) {
            Some((start, rows)) => self.with_offset(
                if start < self.offset {
                    start
                } else if start + rows > self.offset + height {
                    if start + rows > height {
                        start + rows - height
                    } else {
                        0
                    }
                } else {
                    self.offset
                },
                width,
                height,
            ),
            None => self,
        }
    }

    /// The offset is a row, and a selection is an index.
    pub open spec fn sound(self) -> bool {
        &&& 0 <= self.offset
        &&& self.selected is Some ==> 0 <= self.selected->0
    }

    /// The channel is not scrolled past its largest offset at this size.
    pub open spec fn settled(self, width: u16, height: u16) -> bool {
        self.offset <= self.max_offset(width, height)
    }
}

pub struct ChannelState {
    pub server: String,
    pub channel: String,
    pub messages: Vec<ChatMessage>,
    pub lines: Vec<LayoutLine>,
    pub scroll_offset: u16,
    pub selected: Option<usize>,
}

pub open spec fn index_view(index: Option<usize>) -> Option<int> {
    match index {
        Some(index) => Some(index as int),
        None => None,
    }
}

impl View for ChannelState {
    type V = ChannelView;

    open spec fn view(&self) -> ChannelView {
        ChannelView {
            server: self.server@,
            channel: self.channel@,
            messages: self.messages.deep_view(),
            offset: self.scroll_offset as int,
            selected: index_view(self.selected),
        }
    }
}

impl DeepView for ChannelState {
    type V = ChannelView;

    open spec fn deep_view(&self) -> ChannelView {
        self@
    }
}

impl ChannelState {
    /// The laid out rows are those of the messages.
    pub open spec fn laid(&self, width: u16) -> bool {
        self.lines.deep_view() == laid_out(self@.said(), width)
    }

    pub fn new(server: &str, channel: &str) -> (state: Self)
        ensures
            state@ == ChannelView::new(server@, channel@),
            state.lines@.len() == 0,
    {
        let state = ChannelState {
            server: server.to_owned(),
            channel: channel.to_owned(),
            messages: Vec::new(),
            lines: Vec::new(),
            scroll_offset: 0,
            selected: None,
        };
        assert(state@.messages =~= Seq::empty());
        state
    }

    pub fn total_height(&self, width: u16) -> (height: u16)
        requires
            self.laid(width),
        ensures
            height == self@.total_height(width),
    {
        proof {
            law_layout_has_the_counted_rows(self@.said(), width);
            assert(self.lines.deep_view().len() == self.lines.len());
        }
        if self.lines.len() > 65535 {
            65535
        } else {
            self.lines.len() as u16
        }
    }

    pub fn max_offset(&self, width: u16, height: u16) -> (max: u16)
        requires
            self.laid(width),
        ensures
            max == self@.max_offset(width, height),
    {
        let total: u16 = self.total_height(width);
        if total > height {
            total - height
        } else {
            0
        }
    }

    pub fn set_offset(&mut self, offset: u16, width: u16, height: u16)
        requires
            old(self).laid(width),
        ensures
            final(self).laid(width),
            final(self)@ == old(self)@.with_offset(offset as int, width, height),
    {
        let max: u16 = self.max_offset(width, height);
        self.scroll_offset = if offset > max {
            max
        } else {
            offset
        };
    }

    /// Drop the oldest message.
    fn drop_oldest(&mut self)
        requires
            old(self)@.messages.len() > 0,
            old(self)@.sound(),
        ensures
            final(self)@ == (ChannelView {
                messages: old(self)@.messages.skip(1),
                selected: shifted(old(self)@.selected, 1),
                ..old(self)@
            }),
            final(self)@.sound(),
    {
        let ghost before = self@;
        let _ = self.messages.remove(0);
        assert(self@.messages =~= before.messages.skip(1));
        self.selected = match self.selected {
            Some(index) => Some(
                if index < 1 {
                    0
                } else {
                    index - 1
                },
            ),
            None => None,
        };
    }

    pub fn append(&mut self, message: ChatMessage, cap: usize)
        requires
            old(self)@.sound(),
        ensures
            final(self)@ == old(self)@.appended(message@, cap as nat),
            final(self)@.sound(),
    {
        let ghost before = self@;
        let ghost grown = before.messages.push(message@);
        self.messages.push(message);
        assert(self@.messages =~= grown);
        let ghost mut gone: int = 0;
        assert(grown.skip(0) =~= grown);
        while self.messages.len() > cap
            invariant
                self@.sound(),
                0 <= gone <= grown.len(),
                gone > 0 ==> self.messages.len() >= cap,
                self@ == (ChannelView {
                    messages: grown.skip(gone),
                    selected: shifted(before.selected, gone),
                    ..before
                }),
            decreases self.messages.len(),
        {
            assert(self.messages.deep_view().len() == self.messages.len());
            self.drop_oldest();
            proof {
                gone = gone + 1;
                assert(grown.skip(gone - 1).skip(1) =~= grown.skip(gone));
            }
        }
        assert(self.messages.deep_view().len() == self.messages.len());
    }

    pub fn relayout(&mut self, width: u16, height: u16, cap: usize, follow: bool)
        requires
            old(self)@.sound(),
        ensures
            final(self)@ == old(self)@.relaid(width, height, cap as nat, follow),
            final(self)@.sound(),
            final(self).laid(width),
            final(self)@.settled(width, height),
    {
        let ghost before = self@;
        let ghost mut gone: int = 0;
        assert(before.messages.skip(0) =~= before.messages);
        self.lines = layout_messages(self.messages.as_slice(), width);
        proof {
            law_layout_has_the_counted_rows(self@.said(), width);
            assert(self.lines.deep_view().len() == self.lines.len());
            assert(self.messages.deep_view().len() == self.messages.len());
        }
        while self.lines.len() > cap && self.messages.len() > 1
            invariant
                self@.sound(),
                self.laid(width),
                self.lines.len() == total_rows(self@.said(), width),
                self.messages.len() == self@.messages.len(),
                0 <= gone <= before.messages.len(),
                drops(before.messages, width, cap as nat) == gone + drops(
                    self@.messages,
                    width,
                    cap as nat,
                ),
                self@ == (ChannelView {
                    messages: before.messages.skip(gone),
                    selected: shifted(before.selected, gone),
                    ..before
                }),
            decreases self.messages.len(),
        {
            proof {
                assert(self@.messages.drop_first() =~= self@.messages.skip(1));
            }
            self.drop_oldest();
            self.lines = layout_messages(self.messages.as_slice(), width);
            proof {
                gone = gone + 1;
                assert(before.messages.skip(gone - 1).skip(1) =~= before.messages.skip(gone));
                law_layout_has_the_counted_rows(self@.said(), width);
                assert(self.lines.deep_view().len() == self.lines.len());
                assert(self.messages.deep_view().len() == self.messages.len());
            }
        }
        let offset: u16 = if follow {
            self.max_offset(width, height)
        } else {
            self.scroll_offset
        };
        self.set_offset(offset, width, height);
    }

    /// The laid out rows can be counted.
    proof fn lemma_rows_fit(&self, width: u16)
        requires
            self.laid(width),
        ensures
            total_rows(self@.said(), width) == self.lines.len(),
    {
        law_layout_has_the_counted_rows(self@.said(), width);
        assert(self.lines.deep_view().len() == self.lines.len());
    }

    /// The rows of the selected message, as its first one and their number.
    pub fn span(&self, width: u16) -> (span: Option<(usize, usize)>)
        requires
            self.laid(width),
        ensures
            match span {
                Some((start, rows)) => self@.span(width) == Some((start as int, rows as int)),
                None => self@.span(width) is None,
            },
    {
        let index: usize = match self.selected {
            Some(index) => index,
            None => return None,
        };
        assert(self.messages.deep_view().len() == self.messages.len());
        if index < self.messages.len() {
            proof {
                self.lemma_rows_fit(width);
            }
            let spans = row_spans(self.messages.as_slice(), width);
            assert(spans[index as int].0 == start_row(self@.said(), index as int, width));
            Some(spans[index])
        } else {
            None
        }
    }

    /// Select the newest message that is shown whole, unless one is selected.
    pub fn ensure_selection(&mut self, width: u16, height: u16)
        requires
            old(self)@.sound(),
            old(self).laid(width),
        ensures
            final(self)@ == old(self)@.with_selection(width, height),
            final(self).lines == old(self).lines,
            final(self)@.sound(),
    {
        assert(self.messages.deep_view().len() == self.messages.len());
        match self.selected {
            Some(index) => {
                if index < self.messages.len() {
                    return ;
                }
            },
            None => {},
        }
        if self.messages.len() == 0 {
            return ;
        }
        proof {
            self.lemma_rows_fit(width);
        }
        let spans = row_spans(self.messages.as_slice(), width);
        let ghost state = self@;
        let mut count: usize = spans.len();
        let mut chosen: usize = spans.len() - 1;
        while count > 0
            invariant_except_break
                state.newest_shown(spans.len() as int, width, height) == state.newest_shown(
                    count as int,
                    width,
                    height,
                ),
                chosen == spans.len() - 1,
            invariant
                self@ == state,
                count <= spans.len(),
                spans.len() == state.messages.len(),
                spans.len() > 0,
                total_rows(state.said(), width) <= usize::MAX,
                forall|i: int|
                    0 <= i < spans.len() ==> {
                        &&& (#[trigger] spans[i]).0 == start_row(state.said(), i, width)
                        &&& spans[i].1 == state.said()[i].height(width)
                    },
            ensures
                chosen == state.newest_shown(spans.len() as int, width, height),
                0 <= chosen < spans.len(),
            decreases count,
        {
            let index: usize = count - 1;
            let (start, rows): (usize, usize) = spans[index];
            let offset: usize = self.scroll_offset as usize;
            proof {
                lemma_start_rows_grow(
                    state.said(),
                    index as int,
                    state.said().len() as int,
                    width,
                );
            }
            if start >= offset && start - offset + rows <= height as usize {
                chosen = index;
                break ;
            }
            count = index;
        }
        self.selected = Some(chosen);
    }

    /// Scroll as little as shows the selected message.
    pub fn reveal_selection(&mut self, width: u16, height: u16)
        requires
            old(self)@.sound(),
            old(self).laid(width),
            old(self)@.settled(width, height),
        ensures
            final(self)@ == old(self)@.revealed(width, height),
            final(self).laid(width),
            final(self)@.sound(),
            final(self)@.settled(width, height),
    {
        match self.span(width) {
            Some((start, rows)) => {
                proof {
                    let index = self@.selected->0;
                    self.lemma_rows_fit(width);
                    lemma_start_rows_grow(
                        self@.said(),
                        index,
                        self@.said().len() as int,
                        width,
                    );
                }
                let end: usize = start + rows;
                let top: usize = self.scroll_offset as usize;
                let tall: usize = height as usize;
                let offset: usize = if start < top {
                    start
                } else if end - top > tall {
                    end - tall
                } else {
                    top
                };
                let row: u16 = if offset > 65535 {
                    65535
                } else {
                    offset as u16
                };
                self.set_offset(row, width, height);
            },
            None => {},
        }
    }
}

} // verus!
