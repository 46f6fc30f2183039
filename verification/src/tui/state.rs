//! How one conversation is shown: its layout, reading position and selection.

use std::collections::VecDeque;

use vstd::prelude::*;

use crate::layout::LayoutLine;
use crate::model::{Message, MessageId, MessageView};
use crate::sequence::{
    first_index, lemma_first_index, lemma_is_first_index, lemma_no_first_index,
};
use crate::tui::layout::{
    countable, in_order, laid_all, position, LayoutCache, LayoutView,
};
use crate::ui::{less, smaller};

verus! {

pub open spec fn is_message(id: MessageId) -> spec_fn(MessageView) -> bool {
    |message: MessageView| message.id == id
}

/// Where the message with an identity stands in a history.
pub fn find_message(messages: &VecDeque<Message>, id: MessageId) -> (found: Option<usize>)
    ensures
        position(found) == first_index(messages.deep_view(), is_message(id)),
        found is Some ==> found->0 < messages@.len(),
{
    let ghost all = messages.deep_view();
    let mut i: usize = 0;
    while i < messages.len()
        invariant
            i <= messages@.len(),
            all == messages.deep_view(),
            forall|j: int| 0 <= j < i ==> !is_message(id)(#[trigger] all[j]),
        decreases messages@.len() - i,
    {
        assert(all[i as int] == messages@[i as int]@);
        if messages[i].id == id {
            proof {
                lemma_is_first_index(all, is_message(id), i as int);
            }
            return Some(i);
        }
        i = i + 1;
    }
    proof {
        lemma_no_first_index(all, is_message(id));
    }
    None
}

#[verifier::ext_equal]
pub ghost struct ViewStateView {
    pub layout: LayoutView,
    pub offset: int,
    pub selected: Option<MessageId>,
    pub hovered: Option<MessageId>,
    pub viewed: bool,
}

impl ViewStateView {
    pub open spec fn new() -> ViewStateView {
        ViewStateView {
            layout: LayoutView::empty(),
            offset: 0,
            selected: None,
            hovered: None,
            viewed: false,
        }
    }

    /// The largest offset at which the viewport is full, or 0.
    pub open spec fn max_offset(self, height: u16) -> int {
        less(self.layout.total(), height as int)
    }

    pub open spec fn scrolled_to(self, offset: int, height: u16) -> ViewStateView {
        ViewStateView { offset: smaller(offset, self.max_offset(height)), ..self }
    }

    /// The state in line with a history: at its newest rows, or where it was read.
    /// A selected message that is gone gives way to the oldest one, a hovered one to
    /// none.
    pub open spec fn synced(
        self,
        messages: Seq<MessageView>,
        width: u16,
        height: u16,
        follow: bool,
    ) -> ViewStateView {
        let layout = LayoutView::of(messages, width);
        let state = ViewStateView {
            layout,
            selected: match self.selected {
                Some(id) => if first_index(messages, is_message(id)) is Some {
                    Some(id)
                } else if messages.len() > 0 {
                    Some(messages[0].id)
                } else {
                    None
                },
                None => None,
            },
            hovered: match self.hovered {
                Some(id) => if first_index(messages, is_message(id)) is Some {
                    Some(id)
                } else {
                    None
                },
                None => None,
            },
            ..self
        };
        state.scrolled_to(
            if follow {
                state.max_offset(height)
            } else {
                match layout.resolve(self.layout.anchor(self.offset)) {
                    Some(row) => row,
                    None => 0,
                }
            },
            height,
        )
    }

    pub open spec fn span(self) -> Option<(int, int)> {
        match self.selected {
            Some(id) => self.layout.span(id),
            None => None,
        }
    }

    /// Scrolled as little as shows the selected message between its separators.
    pub open spec fn revealed(self, height: u16) -> ViewStateView {
        match self.span() {
            Some((start, rows)) => if start - 1 < self.offset {
                self.scrolled_to(start - 1, height)
            } else if start + rows >= self.offset + height {
                self.scrolled_to(less(start + rows + 1, height as int), height)
            } else {
                self
            },
            None => self,
        }
    }
}

#[derive(Debug)]
pub struct ViewState {
    pub layout: LayoutCache,
    pub scroll_offset: usize,
    pub selected: Option<MessageId>,
    pub hovered: Option<MessageId>,
    /// The conversation was shown before.
    pub viewed: bool,
}

impl View for ViewState {
    type V = ViewStateView;

    open spec fn view(&self) -> ViewStateView {
        ViewStateView {
            layout: self.layout@,
            offset: self.scroll_offset as int,
            selected: self.selected,
            hovered: self.hovered,
            viewed: self.viewed,
        }
    }
}

impl Default for ViewState {
    fn default() -> (state: Self)
        ensures
            state.wf(),
            state@ == ViewStateView::new(),
            state.layout.measured() == 0,
    {
        ViewState {
            layout: LayoutCache::default(),
            scroll_offset: 0,
            selected: None,
            hovered: None,
            viewed: false,
        }
    }
}

impl ViewState {
    pub open spec fn wf(&self) -> bool {
        self.layout.wf()
    }

    pub fn max_offset(&self, height: u16) -> (max: usize)
        requires
            self.wf(),
        ensures
            max == self@.max_offset(height),
    {
        self.layout.total_height().saturating_sub(height as usize)
    }

    pub fn scroll_to(&mut self, offset: usize, height: u16)
        requires
            old(self).wf(),
        ensures
            final(self).wf(),
            final(self)@ == old(self)@.scrolled_to(offset as int, height),
            final(self).layout == old(self).layout,
    {
        let max: usize = self.max_offset(height);
        self.scroll_offset = if offset < max {
            offset
        } else {
            max
        };
    }

    /// Bring the state in line with a history, measuring only messages that are not
    /// measured yet, and keep at most `budget` rows of wrapped text besides those
    /// that are shown.
    pub fn sync(
        &mut self,
        messages: &VecDeque<Message>,
        width: u16,
        height: u16,
        budget: usize,
        follow: bool,
    )
        requires
            old(self).wf(),
            in_order(laid_all(messages.deep_view())),
            countable(messages.deep_view()),
        ensures
            final(self).wf(),
            final(self)@ == old(self)@.synced(messages.deep_view(), width, height, follow),
            final(self).layout.measured() == crate::tui::layout::counted(
                old(self).layout.measured() + old(self)@.layout.unknown(
                    laid_all(messages.deep_view()),
                    width,
                ),
            ),
    {
        let anchor = self.layout.anchor(self.scroll_offset);
        self.layout.sync(messages, width);
        match self.selected {
            Some(id) => {
                if find_message(messages, id).is_none() {
                    self.selected = if messages.len() > 0 {
                        assert(messages.deep_view()[0] == messages@[0]@);
                        Some(messages[0].id)
                    } else {
                        None
                    };
                }
            },
            None => {},
        }
        match self.hovered {
            Some(id) => {
                if find_message(messages, id).is_none() {
                    self.hovered = None;
                }
            },
            None => {},
        }
        let offset: usize = if follow {
            self.max_offset(height)
        } else {
            match self.layout.resolve_anchor(anchor) {
                Some(row) => row,
                None => 0,
            }
        };
        self.scroll_to(offset, height);
        self.layout.prune(self.scroll_offset, height as usize, budget);
    }

    pub fn span(&self) -> (span: Option<(usize, usize)>)
        requires
            self.wf(),
        ensures
            crate::tui::layout::span_view(span) == self@.span(),
    {
        match self.selected {
            Some(id) => self.layout.span(id),
            None => None,
        }
    }

    /// Scroll as little as shows the selected message between its separators.
    pub fn reveal_selection(&mut self, height: u16)
        requires
            old(self).wf(),
        ensures
            final(self).wf(),
            final(self)@ == old(self)@.revealed(height),
            final(self).layout == old(self).layout,
    {
        match self.span() {
            Some((start, rows)) => {
                proof {
                    self.layout.lemma_wf();
                    lemma_first_index(
                        self@.layout.messages,
                        crate::tui::layout::is_laid(self.selected->0),
                    );
                    let index = self@.layout.index_of(self.selected->0)->0;
                    self@.layout.lemma_next_start(index);
                    self@.layout.lemma_total(index);
                }
                let top: usize = start - 1;
                let bottom: usize = start + rows;
                let offset: usize = self.scroll_offset;
                if top < offset {
                    self.scroll_to(top, height);
                } else if bottom - offset >= height as usize {
                    self.scroll_to((bottom + 1).saturating_sub(height as usize), height);
                }
            },
            None => {},
        }
    }

    /// The rows that a viewport of `height` rows shows.
    pub fn visible_lines(&self, height: u16) -> (lines: Vec<LayoutLine>)
        requires
            self.wf(),
        ensures
            lines.deep_view() == self@.layout.visible(self@.offset, height as int),
    {
        self.layout.visible_lines(self.scroll_offset, height as usize)
    }
}

} // verus!
