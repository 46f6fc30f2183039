//! What the session knows of channels.

use vstd::prelude::*;

use crate::application::{index_view, Session, SessionView};
use crate::model::{BufferKind, BufferKindView, ChannelStatus, ServerId};
use crate::text;

verus! {

impl SessionView {
    /// Where a channel's conversation stands, by names as written.
    pub open spec fn channel_index(self, server: Seq<char>, channel: Seq<char>) -> Option<int> {
        self.index_about(text::lower(server), BufferKindView::Channel(channel))
    }

    /// Membership in a channel; unknown channels are not joined and not wanted.
    pub open spec fn channel_status(self, server: Seq<char>, channel: Seq<char>) -> ChannelStatus {
        match self.channel_index(server, channel) {
            Some(index) => self.buffers[index].channel_status,
            None => ChannelStatus::unknown(),
        }
    }
}

impl Session {
    pub(super) fn channel_index(&self, server: &str, channel: &str) -> (found: Option<usize>)
        ensures
            index_view(found) == self@.channel_index(server@, channel@),
            found is Some ==> found->0 < self@.buffers.len(),
    {
        let server = ServerId::new(server);
        self.find_about(&server, &BufferKind::Channel(channel.to_owned()))
    }

    /// Membership in a channel as far as it is known.
    pub fn channel_status(&self, server: &str, channel: &str) -> (status: ChannelStatus)
        ensures
            status == self@.channel_status(server@, channel@),
    {
        match self.channel_index(server, channel) {
            Some(index) => {
                assert(self@.buffers[index as int] == self.buffers@[index as int]@);
                self.buffers[index].channel_status
            },
            None => ChannelStatus::default(),
        }
    }
}

} // verus!
