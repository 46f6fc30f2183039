//! A chat message to display, and how one is read off the wire.

use vstd::prelude::*;

use crate::protocol::{
    is_listed, listed, speech, spoken, WireCommand, WireCommandView, WireMessage, WireMessageView,
};
use crate::text;

verus! {

#[verifier::ext_equal]
pub ghost struct ChatMessageView {
    pub server: Seq<char>,
    pub channel: Seq<char>,
    pub nick: Seq<char>,
    pub text: Seq<char>,
}

/// A single message to display.
#[derive(Debug, PartialEq, Eq)]
pub struct ChatMessage {
    /// Configured name of the server that the message came through.
    pub server: String,
    /// Channel that the message is addressed to, as received; empty for the
    /// server's console.
    pub channel: String,
    pub nick: String,
    pub text: String,
}

impl View for ChatMessage {
    type V = ChatMessageView;

    open spec fn view(&self) -> ChatMessageView {
        ChatMessageView {
            server: self.server@,
            channel: self.channel@,
            nick: self.nick@,
            text: self.text@,
        }
    }
}

impl DeepView for ChatMessage {
    type V = ChatMessageView;

    open spec fn deep_view(&self) -> ChatMessageView {
        self@
    }
}

impl Clone for ChatMessage {
    fn clone(&self) -> (copy: Self)
        ensures
            copy == *self,
    {
        ChatMessage {
            server: self.server.clone(),
            channel: self.channel.clone(),
            nick: self.nick.clone(),
            text: self.text.clone(),
        }
    }
}

/// What a received message says in one of `channels`: something that a user
/// says or does there.
pub open spec fn channel_chat(
    message: WireMessageView,
    server: Seq<char>,
    channels: Seq<Seq<char>>,
) -> Option<ChatMessageView> {
    match message.command {
        WireCommandView::Privmsg { target, text: body } => match (message.source, spoken(body)) {
            (Some(nick), Some((text, _))) if listed(channels, target) => Some(
                ChatMessageView { server, channel: target, nick, text },
            ),
            _ => None,
        },
        _ => None,
    }
}

/// What a received message shows on the server's console: a numeric reply or a
/// notice, as it stands on the wire.
pub open spec fn console_line(message: WireMessageView, server: Seq<char>) -> Option<
    ChatMessageView,
> {
    if message.command is Response || message.command is Notice {
        Some(
            ChatMessageView {
                server,
                channel: Seq::empty(),
                nick: Seq::empty(),
                text: text::trim_end_set(message.line, seq!['\r', '\n']),
            },
        )
    } else {
        None
    }
}

impl ChatMessage {
    /// A message to one of `channels`. Private messages, other channels,
    /// messages without a user behind them and CTCP queries other than an action
    /// give `None`.
    pub fn from_proto(message: &WireMessage, server: &str, channels: &[String]) -> (chat: Option<
        ChatMessage,
    >)
        ensures
            chat.deep_view() == channel_chat(message@, server@, channels.deep_view()),
    {
        let (target, body) = match &message.command {
            WireCommand::Privmsg { target, text } => (target, text),
            _ => return None,
        };
        if !is_listed(channels, target.as_str()) {
            return None;
        }
        let nick = match &message.source {
            Some(nick) => nick.clone(),
            None => return None,
        };
        match speech(body.as_str()) {
            Some((text, _)) => Some(
                ChatMessage { server: server.to_owned(), channel: target.clone(), nick, text },
            ),
            None => None,
        }
    }

    /// A line for the server's console. Presence of other users and keepalives
    /// give `None`.
    pub fn raw_from_proto(message: &WireMessage, server: &str) -> (chat: Option<ChatMessage>)
        ensures
            chat.deep_view() == console_line(message@, server@),
    {
        match &message.command {
            WireCommand::Response(_, _) | WireCommand::Notice { .. } => {
                let ends: [char; 2] = ['\r', '\n'];
                let chat = ChatMessage {
                    server: server.to_owned(),
                    channel: String::new(),
                    nick: String::new(),
                    text: text::trimmed_end_set(message.line.as_str(), &ends).to_owned(),
                };
                assert(ends@ =~= seq!['\r', '\n']);
                assert(chat@.channel =~= Seq::empty());
                assert(chat@.nick =~= Seq::empty());
                Some(chat)
            },
            _ => None,
        }
    }
}

} // verus!
