//! Identities, messages and draft editing, independent of any frontend.
//!
//! Wire metadata is kept here; terminal layout and transport live elsewhere.

use std::ops::Deref;
use std::time::SystemTime;

use vstd::prelude::*;

use crate::text;

verus! {

/// Most characters a draft accepts by typing; wire limits are checked on send.
pub const MAX_DRAFT_CHARS: usize = 512;

#[verifier::external_type_specification]
#[verifier::external_body]
pub struct ExSystemTime(std::time::SystemTime);

/// Trusted: `SystemTime::now` reads the clock, so nothing is said of the result.
#[verifier::external_body]
pub(crate) fn clock() -> SystemTime {
    SystemTime::now()
}

/// A configuration key, folded for lookup without regard to ASCII case.
/// The name as it was written belongs to the registration, not to the identity.
#[derive(Debug, PartialEq, Eq, PartialOrd, Ord, Hash)]
pub struct ServerId(String);

impl View for ServerId {
    type V = Seq<char>;

    closed spec fn view(&self) -> Seq<char> {
        self.0@
    }
}

impl DeepView for ServerId {
    type V = Seq<char>;

    open spec fn deep_view(&self) -> Seq<char> {
        self@
    }
}

impl Clone for ServerId {
    fn clone(&self) -> (copy: Self)
        ensures
            copy == *self,
    {
        ServerId(self.0.clone())
    }
}

impl ServerId {
    pub fn new(name: &str) -> (id: Self)
        ensures
            id@ == text::lower(name@),
    {
        ServerId(text::lowered(name))
    }

    pub fn as_str(&self) -> (name: &str)
        ensures
            name@ == self@,
    {
        self.0.as_str()
    }

    /// The folded name as text of its own.
    pub fn to_text(&self) -> (name: String)
        ensures
            name@ == self@,
    {
        self.0.clone()
    }

    /// Whether both name the same server.
    pub fn same(&self, other: &ServerId) -> (answer: bool)
        ensures
            answer == (self@ == other@),
    {
        self.0 == other.0
    }
}

impl vstd::std_specs::convert::FromSpecImpl<&str> for ServerId {
    open spec fn obeys_from_spec() -> bool {
        false
    }

    open spec fn from_spec(name: &str) -> ServerId {
        arbitrary()
    }
}

impl From<&str> for ServerId {
    fn from(name: &str) -> (id: Self)
        ensures
            id@ == text::lower(name@),
    {
        ServerId::new(name)
    }
}

impl vstd::std_specs::convert::FromSpecImpl<String> for ServerId {
    open spec fn obeys_from_spec() -> bool {
        false
    }

    open spec fn from_spec(name: String) -> ServerId {
        arbitrary()
    }
}

impl From<String> for ServerId {
    fn from(name: String) -> (id: Self)
        ensures
            id@ == text::lower(name@),
    {
        ServerId::new(name.as_str())
    }
}

/// A stable conversation identity, independent of its name and screen position.
#[derive(Debug, Clone, Copy, PartialEq, Eq, Structural, PartialOrd, Ord, Hash)]
pub struct BufferId(pub u64);

/// A process-local message identity; history never reuses an allocated value.
#[derive(Debug, Clone, Copy, PartialEq, Eq, Structural, PartialOrd, Ord, Hash)]
pub struct MessageId(pub u64);

/// What a conversation is, by the characters of its name.
pub ghost enum BufferKindView {
    Server,
    Channel(Seq<char>),
    Query(Seq<char>),
}

impl BufferKindView {
    pub open spec fn matches(self, other: BufferKindView) -> bool {
        match (self, other) {
            (BufferKindView::Server, BufferKindView::Server) => true,
            (BufferKindView::Channel(left), BufferKindView::Channel(right)) => text::same_name(
                left,
                right,
            ),
            (BufferKindView::Query(left), BufferKindView::Query(right)) => text::same_name(
                left,
                right,
            ),
            _ => false,
        }
    }
}

#[derive(Debug, PartialEq, Eq)]
pub enum BufferKind {
    Server,
    Channel(String),
    Query(String),
}

impl View for BufferKind {
    type V = BufferKindView;

    open spec fn view(&self) -> BufferKindView {
        match self {
            BufferKind::Server => BufferKindView::Server,
            BufferKind::Channel(name) => BufferKindView::Channel(name@),
            BufferKind::Query(name) => BufferKindView::Query(name@),
        }
    }
}

impl Clone for BufferKind {
    fn clone(&self) -> (copy: Self)
        ensures
            copy == *self,
    {
        match self {
            BufferKind::Server => BufferKind::Server,
            BufferKind::Channel(name) => BufferKind::Channel(name.clone()),
            BufferKind::Query(name) => BufferKind::Query(name.clone()),
        }
    }
}

impl BufferKind {
    pub fn channel(&self) -> (name: Option<&str>)
        ensures
            name.deep_view() == (match self@ {
                BufferKindView::Channel(name) => Some(name),
                _ => None,
            }),
    {
        match self {
            BufferKind::Channel(name) => Some(name.as_str()),
            BufferKind::Server | BufferKind::Query(_) => None,
        }
    }

    /// Match names using the application's ASCII case mapping.
    pub fn matches(&self, other: &Self) -> (answer: bool)
        ensures
            answer == self@.matches(other@),
    {
        match (self, other) {
            (BufferKind::Server, BufferKind::Server) => true,
            (BufferKind::Channel(left), BufferKind::Channel(right)) => text::names_match(
                left.as_str(),
                right.as_str(),
            ),
            (BufferKind::Query(left), BufferKind::Query(right)) => text::names_match(
                left.as_str(),
                right.as_str(),
            ),
            _ => false,
        }
    }
}

/// Whether a character may stand anywhere in the name of a peer or a channel.
pub open spec fn name_char(c: char) -> bool {
    !text::whitespace(c) && !text::control(c)
}

pub open spec fn nickname_forbidden(c: char) -> bool {
    c == ',' || c == '*' || c == '?' || c == '!' || c == '@' || c == '.'
}

pub open spec fn nickname_prefix(c: char) -> bool {
    c == '$' || c == ':' || c == '#' || c == '&' || c == '+' || c == '%' || c == '~'
}

/// A nickname that a private conversation can be opened with.
pub open spec fn query_nickname(name: Seq<char>) -> bool {
    &&& name.len() > 0
    &&& forall|i: int|
        0 <= i < name.len() ==> name_char(#[trigger] name[i]) && !nickname_forbidden(name[i])
    &&& !nickname_prefix(name[0])
}

/// The name of one channel.
pub open spec fn channel_name(name: Seq<char>) -> bool {
    &&& name.len() >= 2
    &&& name[0] == '#' || name[0] == '&'
    &&& forall|i: int|
        0 <= i < name.len() ==> name_char(#[trigger] name[i]) && name[i] != ',' && name[i] != ':'
}

fn is_control(c: char) -> (answer: bool)
    ensures
        answer == text::control(c),
{
    let code: u32 = c as u32;
    code <= 0x1f || (0x7f <= code && code <= 0x9f)
}

pub(crate) fn is_nickname_forbidden(c: char) -> (answer: bool)
    ensures
        answer == nickname_forbidden(c),
{
    c == ',' || c == '*' || c == '?' || c == '!' || c == '@' || c == '.'
}

pub(crate) fn is_nickname_prefix(c: char) -> (answer: bool)
    ensures
        answer == nickname_prefix(c),
{
    c == '$' || c == ':' || c == '#' || c == '&' || c == '+' || c == '%' || c == '~'
}

pub fn valid_query_nickname(nickname: &str) -> (valid: bool)
    ensures
        valid == query_nickname(nickname@),
{
    let chars = text::chars_of(nickname);
    if chars.len() == 0 || is_nickname_prefix(chars[0]) {
        return false;
    }
    let mut i: usize = 0;
    while i < chars.len()
        invariant
            chars@ == nickname@,
            i <= chars.len(),
            forall|j: int|
                0 <= j < i ==> name_char(#[trigger] nickname@[j]) && !nickname_forbidden(
                    nickname@[j],
                ),
        decreases chars.len() - i,
    {
        let c = chars[i];
        if c.is_whitespace() || is_control(c) || is_nickname_forbidden(c) {
            assert(!name_char(nickname@[i as int]) || nickname_forbidden(nickname@[i as int]));
            return false;
        }
        i = i + 1;
    }
    true
}

pub fn valid_channel_name(name: &str) -> (valid: bool)
    ensures
        valid == channel_name(name@),
{
    let chars = text::chars_of(name);
    if chars.len() < 2 || (chars[0] != '#' && chars[0] != '&') {
        return false;
    }
    let mut i: usize = 0;
    while i < chars.len()
        invariant
            chars@ == name@,
            i <= chars.len(),
            forall|j: int|
                0 <= j < i ==> name_char(#[trigger] name@[j]) && name@[j] != ',' && name@[j] != ':',
        decreases chars.len() - i,
    {
        let c = chars[i];
        if c.is_whitespace() || is_control(c) || c == ',' || c == ':' {
            assert(!name_char(name@[i as int]) || name@[i as int] == ',' || name@[i as int] == ':');
            return false;
        }
        i = i + 1;
    }
    true
}

pub ghost enum MessageKindView {
    Chat,
    Action,
    Console,
    Error { code: u16, target: Option<Seq<char>>, reason: Seq<char> },
}

#[derive(Debug, PartialEq, Eq)]
pub enum MessageKind {
    Chat,
    Action,
    Console,
    Error { code: u16, target: Option<String>, reason: String },
}

impl View for MessageKind {
    type V = MessageKindView;

    open spec fn view(&self) -> MessageKindView {
        match self {
            MessageKind::Chat => MessageKindView::Chat,
            MessageKind::Action => MessageKindView::Action,
            MessageKind::Console => MessageKindView::Console,
            MessageKind::Error { code, target, reason } => MessageKindView::Error {
                code: *code,
                target: target.deep_view(),
                reason: reason@,
            },
        }
    }
}

impl Clone for MessageKind {
    fn clone(&self) -> (copy: Self)
        ensures
            copy@ == self@,
    {
        match self {
            MessageKind::Chat => MessageKind::Chat,
            MessageKind::Action => MessageKind::Action,
            MessageKind::Console => MessageKind::Console,
            MessageKind::Error { code, target, reason } => MessageKind::Error {
                code: *code,
                target: text::copied(target),
                reason: reason.clone(),
            },
        }
    }
}

impl MessageKind {
    /// Whether both describe the same kind of message.
    pub fn same(&self, other: &MessageKind) -> (answer: bool)
        ensures
            answer == (self@ == other@),
    {
        match (self, other) {
            (MessageKind::Chat, MessageKind::Chat) => true,
            (MessageKind::Action, MessageKind::Action) => true,
            (MessageKind::Console, MessageKind::Console) => true,
            (
                MessageKind::Error { code, target, reason },
                MessageKind::Error { code: other_code, target: other_target, reason: other_reason },
            ) => *code == *other_code && text::same_option(target, other_target) && *reason
                == *other_reason,
            _ => false,
        }
    }

    /// Whether this is something a person said.
    pub fn is_speech(&self) -> (answer: bool)
        ensures
            answer == (self@ is Chat || self@ is Action),
    {
        match self {
            MessageKind::Chat | MessageKind::Action => true,
            _ => false,
        }
    }

    pub fn is_error(&self) -> (answer: bool)
        ensures
            answer == (self@ is Error),
    {
        match self {
            MessageKind::Error { .. } => true,
            _ => false,
        }
    }
}

#[derive(Debug, Clone, Copy, PartialEq, Eq, Structural)]
pub enum Direction {
    Incoming,
    Outgoing,
}

#[derive(Debug, Clone, Copy, PartialEq, Eq, Structural)]
pub enum DeliveryState {
    Received,
    /// A local echo that has not been acknowledged by the server.
    Unconfirmed,
}

#[verifier::ext_equal]
pub ghost struct MessageContentView {
    pub nick: Seq<char>,
    pub text: Seq<char>,
    pub kind: MessageKindView,
    pub direction: Direction,
    pub received_at: SystemTime,
    pub tags: Seq<(Seq<char>, Option<Seq<char>>)>,
    pub delivery: DeliveryState,
}

#[derive(Debug, PartialEq, Eq)]
pub struct MessageContent {
    pub nick: String,
    pub text: String,
    pub kind: MessageKind,
    pub direction: Direction,
    pub received_at: SystemTime,
    pub tags: Vec<(String, Option<String>)>,
    pub delivery: DeliveryState,
}

pub(crate) fn copied_tags(tags: &Vec<(String, Option<String>)>) -> (copy: Vec<(String, Option<String>)>)
    ensures
        copy.deep_view() == tags.deep_view(),
{
    let mut copy: Vec<(String, Option<String>)> = Vec::new();
    let mut i: usize = 0;
    while i < tags.len()
        invariant
            i <= tags.len(),
            copy.deep_view() == tags.deep_view().take(i as int),
        decreases tags.len() - i,
    {
        let ghost before = copy.deep_view();
        let tag = (tags[i].0.clone(), text::copied(&tags[i].1));
        assert(tag.deep_view() == tags.deep_view()[i as int]);
        copy.push(tag);
        assert(copy.deep_view() =~= before.push(tag.deep_view()));
        assert(copy.deep_view() =~= tags.deep_view().take(i as int + 1));
        i = i + 1;
    }
    assert(tags.deep_view().take(tags@.len() as int) =~= tags.deep_view());
    copy
}

impl Clone for MessageContent {
    fn clone(&self) -> (copy: Self)
        ensures
            copy@ == self@,
    {
        MessageContent {
            nick: self.nick.clone(),
            text: self.text.clone(),
            kind: self.kind.clone(),
            direction: self.direction,
            received_at: self.received_at,
            tags: copied_tags(&self.tags),
            delivery: self.delivery,
        }
    }
}

impl View for MessageContent {
    type V = MessageContentView;

    open spec fn view(&self) -> MessageContentView {
        MessageContentView {
            nick: self.nick@,
            text: self.text@,
            kind: self.kind@,
            direction: self.direction,
            received_at: self.received_at,
            tags: self.tags.deep_view(),
            delivery: self.delivery,
        }
    }
}

impl MessageContentView {
    /// Something a peer said, received at `at`.
    pub open spec fn chat(nick: Seq<char>, text: Seq<char>, at: SystemTime) -> MessageContentView {
        MessageContentView {
            nick,
            text,
            kind: MessageKindView::Chat,
            direction: Direction::Incoming,
            received_at: at,
            tags: Seq::empty(),
            delivery: DeliveryState::Received,
        }
    }

    /// A line for the console, received at `at`.
    pub open spec fn console(text: Seq<char>, at: SystemTime) -> MessageContentView {
        MessageContentView {
            kind: MessageKindView::Console,
            ..MessageContentView::chat(Seq::empty(), text, at)
        }
    }
}

impl MessageContent {
    pub fn chat(nick: &str, text: &str) -> (content: Self)
        ensures
            content@ == MessageContentView::chat(nick@, text@, content@.received_at),
    {
        let content = MessageContent {
            nick: nick.to_owned(),
            text: text.to_owned(),
            kind: MessageKind::Chat,
            direction: Direction::Incoming,
            received_at: clock(),
            tags: Vec::new(),
            delivery: DeliveryState::Received,
        };
        assert(content@.tags =~= Seq::empty());
        content
    }

    pub fn console(text: &str) -> (content: Self)
        ensures
            content@ == MessageContentView::console(text@, content@.received_at),
    {
        MessageContent::console_at(text, clock())
    }

    /// A console line with the time it was received.
    pub fn console_at(text: &str, received_at: SystemTime) -> (content: Self)
        ensures
            content@ == MessageContentView::console(text@, received_at),
    {
        let content = MessageContent {
            nick: String::new(),
            text: text.to_owned(),
            kind: MessageKind::Console,
            direction: Direction::Incoming,
            received_at,
            tags: Vec::new(),
            delivery: DeliveryState::Received,
        };
        assert(content@.tags =~= Seq::empty());
        content
    }
}

#[verifier::ext_equal]
pub ghost struct MessageView {
    pub id: MessageId,
    pub buffer: BufferId,
    pub content: MessageContentView,
}

#[derive(Debug, PartialEq, Eq)]
pub struct Message {
    pub id: MessageId,
    pub buffer: BufferId,
    pub content: MessageContent,
}

impl Clone for Message {
    fn clone(&self) -> (copy: Self)
        ensures
            copy@ == self@,
    {
        Message { id: self.id, buffer: self.buffer, content: self.content.clone() }
    }
}

impl View for Message {
    type V = MessageView;

    open spec fn view(&self) -> MessageView {
        MessageView { id: self.id, buffer: self.buffer, content: self.content@ }
    }
}

impl DeepView for Message {
    type V = MessageView;

    open spec fn deep_view(&self) -> MessageView {
        self@
    }
}

impl Deref for Message {
    type Target = MessageContent;

    fn deref(&self) -> (content: &MessageContent)
        ensures
            *content == self.content,
    {
        &self.content
    }
}

#[verifier::ext_equal]
pub ghost struct RoutedMessageView {
    pub server: Seq<char>,
    pub target: BufferKindView,
    pub content: MessageContentView,
}

/// A protocol message awaiting routing to a registered buffer.
#[derive(Debug, PartialEq, Eq)]
pub struct RoutedMessage {
    pub server: ServerId,
    pub target: BufferKind,
    pub content: MessageContent,
}

impl Clone for RoutedMessage {
    fn clone(&self) -> (copy: Self)
        ensures
            copy@ == self@,
    {
        RoutedMessage {
            server: self.server.clone(),
            target: self.target.clone(),
            content: self.content.clone(),
        }
    }
}

impl View for RoutedMessage {
    type V = RoutedMessageView;

    open spec fn view(&self) -> RoutedMessageView {
        RoutedMessageView { server: self.server@, target: self.target@, content: self.content@ }
    }
}

impl RoutedMessage {
    pub fn chat(server: &str, channel: &str, nick: &str, text: &str) -> (message: Self)
        ensures
            message@ == (RoutedMessageView {
                server: text::lower(server@),
                target: BufferKindView::Channel(channel@),
                content: MessageContentView::chat(nick@, text@, message@.content.received_at),
            }),
    {
        RoutedMessage {
            server: ServerId::new(server),
            target: BufferKind::Channel(channel.to_owned()),
            content: MessageContent::chat(nick, text),
        }
    }

    pub fn console(server: &str, text: &str) -> (message: Self)
        ensures
            message@ == (RoutedMessageView {
                server: text::lower(server@),
                target: BufferKindView::Server,
                content: MessageContentView::console(text@, message@.content.received_at),
            }),
    {
        RoutedMessage {
            server: ServerId::new(server),
            target: BufferKind::Server,
            content: MessageContent::console(text),
        }
    }
}

#[verifier::ext_equal]
pub ghost struct DraftView {
    pub text: Seq<char>,
    pub cursor: int,
}

impl DraftView {
    pub open spec fn empty() -> DraftView {
        DraftView { text: Seq::empty(), cursor: 0 }
    }

    /// The cursor stands before, between or after the characters.
    pub open spec fn wf(self) -> bool {
        0 <= self.cursor <= self.text.len()
    }

    pub open spec fn insert(self, c: char) -> DraftView {
        if self.text.len() >= MAX_DRAFT_CHARS {
            self
        } else {
            DraftView { text: self.text.insert(self.cursor, c), cursor: self.cursor + 1 }
        }
    }

    pub open spec fn backspace(self) -> DraftView {
        if self.cursor > 0 {
            DraftView { text: self.text.remove(self.cursor - 1), cursor: self.cursor - 1 }
        } else {
            self
        }
    }

    pub open spec fn delete(self) -> DraftView {
        if self.cursor < self.text.len() {
            DraftView { text: self.text.remove(self.cursor), ..self }
        } else {
            self
        }
    }

    pub open spec fn left(self) -> DraftView {
        DraftView { cursor: if self.cursor > 0 { self.cursor - 1 } else { 0 }, ..self }
    }

    pub open spec fn right(self) -> DraftView {
        DraftView {
            cursor: if self.cursor < self.text.len() {
                self.cursor + 1
            } else {
                self.text.len() as int
            },
            ..self
        }
    }

    pub open spec fn home(self) -> DraftView {
        DraftView { cursor: 0, ..self }
    }

    pub open spec fn end(self) -> DraftView {
        DraftView { cursor: self.text.len() as int, ..self }
    }

    /// The saved input, whole, with the cursor inside it.
    pub open spec fn restored(text: Seq<char>, cursor: int) -> DraftView {
        DraftView { text, cursor: if cursor < text.len() { cursor } else { text.len() as int } }
    }
}

/// Editable input and its cursor, counted in characters.
#[derive(Debug, PartialEq, Eq)]
pub struct Draft {
    text: String,
    cursor: usize,
}

impl View for Draft {
    type V = DraftView;

    closed spec fn view(&self) -> DraftView {
        DraftView { text: self.text@, cursor: self.cursor as int }
    }
}

impl Clone for Draft {
    fn clone(&self) -> (copy: Self)
        ensures
            copy == *self,
    {
        Draft { text: self.text.clone(), cursor: self.cursor }
    }
}

impl Default for Draft {
    fn default() -> (draft: Self)
        ensures
            draft@ == DraftView::empty(),
    {
        Draft { text: String::new(), cursor: 0 }
    }
}

impl Draft {
    pub fn text(&self) -> (text: &str)
        ensures
            text@ == self@.text,
    {
        self.text.as_str()
    }

    pub fn cursor(&self) -> (cursor: usize)
        ensures
            cursor == self@.cursor,
    {
        self.cursor
    }

    /// Type one character at the cursor, up to [`MAX_DRAFT_CHARS`].
    pub fn insert(&mut self, character: char)
        requires
            old(self)@.wf(),
        ensures
            final(self)@ == old(self)@.insert(character),
            final(self)@.wf(),
    {
        let count: usize = self.text.as_str().unicode_len();
        if count >= MAX_DRAFT_CHARS {
            return ;
        }
        let ghost before = self.text@;
        let mut text = text::head(self.text.as_str(), self.cursor).to_owned();
        text.push(character);
        text.append(text::tail(self.text.as_str(), self.cursor));
        assert(text@ =~= before.insert(self.cursor as int, character));
        self.text = text;
        self.cursor = self.cursor + 1;
    }

    fn remove(&mut self, at: usize)
        requires
            at < old(self)@.text.len(),
        ensures
            final(self)@.text == old(self)@.text.remove(at as int),
            final(self)@.cursor == old(self)@.cursor,
    {
        let ghost before = self.text@;
        let count: usize = self.text.as_str().unicode_len();
        assert(at < count);
        let mut text = text::head(self.text.as_str(), at).to_owned();
        text.append(text::tail(self.text.as_str(), at + 1));
        assert(text@ =~= before.remove(at as int));
        self.text = text;
    }

    pub fn backspace(&mut self)
        requires
            old(self)@.wf(),
        ensures
            final(self)@ == old(self)@.backspace(),
            final(self)@.wf(),
    {
        if self.cursor > 0 {
            self.cursor = self.cursor - 1;
            self.remove(self.cursor);
        }
    }

    pub fn delete(&mut self)
        requires
            old(self)@.wf(),
        ensures
            final(self)@ == old(self)@.delete(),
            final(self)@.wf(),
    {
        if self.cursor < self.text.as_str().unicode_len() {
            self.remove(self.cursor);
        }
    }

    pub fn left(&mut self)
        requires
            old(self)@.wf(),
        ensures
            final(self)@ == old(self)@.left(),
            final(self)@.wf(),
    {
        if self.cursor > 0 {
            self.cursor = self.cursor - 1;
        }
    }

    pub fn right(&mut self)
        requires
            old(self)@.wf(),
        ensures
            final(self)@ == old(self)@.right(),
            final(self)@.wf(),
    {
        if self.cursor < self.text.as_str().unicode_len() {
            self.cursor = self.cursor + 1;
        }
    }

    pub fn home(&mut self)
        ensures
            final(self)@ == old(self)@.home(),
            final(self)@.wf(),
    {
        self.cursor = 0;
    }

    pub fn end(&mut self)
        ensures
            final(self)@ == old(self)@.end(),
            final(self)@.wf(),
    {
        self.cursor = self.text.as_str().unicode_len();
    }

    /// Restore complete saved input without truncation after a rejected send.
    pub fn restore(&mut self, text: String, cursor: usize)
        ensures
            final(self)@ == DraftView::restored(text@, cursor as int),
            final(self)@.wf(),
    {
        let count: usize = text.as_str().unicode_len();
        self.cursor = if cursor < count {
            cursor
        } else {
            count
        };
        self.text = text;
    }

    pub fn clear(&mut self)
        ensures
            final(self)@ == DraftView::empty(),
            final(self)@.wf(),
    {
        self.text = String::new();
        self.cursor = 0;
    }
}

/// A character typed below the limit is taken back by one backspace.
pub proof fn law_backspace_undoes_insert(draft: DraftView, c: char)
    requires
        draft.wf(),
        draft.text.len() < MAX_DRAFT_CHARS,
    ensures
        draft.insert(c).backspace() == draft,
{
    assert(draft.insert(c).backspace().text =~= draft.text);
}

/// Every edit keeps the cursor inside the text.
pub proof fn law_edits_keep_the_cursor_inside(draft: DraftView, c: char)
    requires
        draft.wf(),
    ensures
        draft.insert(c).wf(),
        draft.backspace().wf(),
        draft.delete().wf(),
        draft.left().wf(),
        draft.right().wf(),
        draft.home().wf(),
        draft.end().wf(),
{
}

/// What a conversation's channel is known to be.
#[derive(Debug, Clone, Copy, PartialEq, Eq, Structural)]
pub enum ChannelState {
    NotJoined,
    Joining,
    Joined,
    Parting,
    /// No confirmation came in time; membership is unknown.
    Uncertain,
}

/// Channel membership and whether the user wants it.
#[derive(Debug, Clone, Copy, PartialEq, Eq, Structural)]
pub struct ChannelStatus {
    pub state: ChannelState,
    pub desired: bool,
}

impl ChannelStatus {
    pub open spec fn unknown() -> ChannelStatus {
        ChannelStatus { state: ChannelState::NotJoined, desired: false }
    }
}

impl Default for ChannelState {
    fn default() -> (state: Self)
        ensures
            state == ChannelState::NotJoined,
    {
        ChannelState::NotJoined
    }
}

impl Default for ChannelStatus {
    fn default() -> (status: Self)
        ensures
            status == ChannelStatus::unknown(),
    {
        ChannelStatus { state: ChannelState::NotJoined, desired: false }
    }
}

pub ghost enum ConnectionCommandView {
    Connect,
    Reconnect,
    Disconnect(Seq<char>),
    Nick(Seq<char>),
    Away(Option<Seq<char>>),
    Back,
    Join(Seq<char>),
    Part { channel: Seq<char>, reason: Option<Seq<char>> },
}

/// A frontend request to the connection lifecycle, with no transport types.
#[derive(Debug, PartialEq, Eq)]
pub enum ConnectionCommand {
    Connect,
    Reconnect,
    Disconnect(String),
    Nick(String),
    Away(Option<String>),
    Back,
    Join(String),
    Part { channel: String, reason: Option<String> },
}

impl View for ConnectionCommand {
    type V = ConnectionCommandView;

    open spec fn view(&self) -> ConnectionCommandView {
        match self {
            ConnectionCommand::Connect => ConnectionCommandView::Connect,
            ConnectionCommand::Reconnect => ConnectionCommandView::Reconnect,
            ConnectionCommand::Disconnect(reason) => ConnectionCommandView::Disconnect(reason@),
            ConnectionCommand::Nick(nick) => ConnectionCommandView::Nick(nick@),
            ConnectionCommand::Away(reason) => ConnectionCommandView::Away(reason.deep_view()),
            ConnectionCommand::Back => ConnectionCommandView::Back,
            ConnectionCommand::Join(channel) => ConnectionCommandView::Join(channel@),
            ConnectionCommand::Part { channel, reason } => ConnectionCommandView::Part {
                channel: channel@,
                reason: reason.deep_view(),
            },
        }
    }
}

impl DeepView for ConnectionCommand {
    type V = ConnectionCommandView;

    open spec fn deep_view(&self) -> ConnectionCommandView {
        self@
    }
}

impl Clone for ConnectionCommand {
    fn clone(&self) -> (copy: Self)
        ensures
            copy == *self,
    {
        match self {
            ConnectionCommand::Connect => ConnectionCommand::Connect,
            ConnectionCommand::Reconnect => ConnectionCommand::Reconnect,
            ConnectionCommand::Disconnect(reason) => ConnectionCommand::Disconnect(reason.clone()),
            ConnectionCommand::Nick(nick) => ConnectionCommand::Nick(nick.clone()),
            ConnectionCommand::Away(reason) => ConnectionCommand::Away(text::copied(reason)),
            ConnectionCommand::Back => ConnectionCommand::Back,
            ConnectionCommand::Join(channel) => ConnectionCommand::Join(channel.clone()),
            ConnectionCommand::Part { channel, reason } => ConnectionCommand::Part {
                channel: channel.clone(),
                reason: text::copied(reason),
            },
        }
    }
}

pub ghost enum OutgoingMessageView {
    Privmsg { server: Seq<char>, target: Seq<char>, text: Seq<char> },
    Raw { server: Seq<char>, line: Seq<char> },
}

/// A message the user wants to send through one of the connections.
///
/// `server` is the configuration key that picks the connection. `Privmsg` sends
/// `text` to `target`; `Raw` sends `line` to the server itself as an IRC
/// command, such as `WHOIS nick`.
#[derive(Debug, PartialEq, Eq)]
pub enum OutgoingMessage {
    Privmsg { server: String, target: String, text: String },
    Raw { server: String, line: String },
}

impl View for OutgoingMessage {
    type V = OutgoingMessageView;

    open spec fn view(&self) -> OutgoingMessageView {
        match self {
            OutgoingMessage::Privmsg { server, target, text } => OutgoingMessageView::Privmsg {
                server: server@,
                target: target@,
                text: text@,
            },
            OutgoingMessage::Raw { server, line } => OutgoingMessageView::Raw {
                server: server@,
                line: line@,
            },
        }
    }
}

impl DeepView for OutgoingMessage {
    type V = OutgoingMessageView;

    open spec fn deep_view(&self) -> OutgoingMessageView {
        self@
    }
}

impl Clone for OutgoingMessage {
    fn clone(&self) -> (copy: Self)
        ensures
            copy == *self,
    {
        match self {
            OutgoingMessage::Privmsg { server, target, text } => OutgoingMessage::Privmsg {
                server: server.clone(),
                target: target.clone(),
                text: text.clone(),
            },
            OutgoingMessage::Raw { server, line } => OutgoingMessage::Raw {
                server: server.clone(),
                line: line.clone(),
            },
        }
    }
}

/// Conversations are about the same thing if both are consoles, or both are channels
/// or both private with names that differ in ASCII case alone.
pub proof fn law_conversations_are_told_apart(a: Seq<char>, b: Seq<char>)
    ensures
        BufferKindView::Server.matches(BufferKindView::Server),
        BufferKindView::Channel(a).matches(BufferKindView::Channel(b)) <==> text::same_name(a, b),
        BufferKindView::Query(a).matches(BufferKindView::Query(b)) <==> text::same_name(a, b),
        !BufferKindView::Channel(a).matches(BufferKindView::Query(b)),
        !BufferKindView::Query(a).matches(BufferKindView::Channel(b)),
        !BufferKindView::Server.matches(BufferKindView::Channel(a)),
        !BufferKindView::Server.matches(BufferKindView::Query(a)),
        !BufferKindView::Channel(a).matches(BufferKindView::Server),
        !BufferKindView::Query(a).matches(BufferKindView::Server),
{
}

/// Something a peer said is theirs, as they said it; a console line is nobody's.
pub proof fn law_contents_hold_what_was_said(nick: Seq<char>, said: Seq<char>, at: SystemTime)
    ensures
        ({
            let chat = MessageContentView::chat(nick, said, at);
            let line = MessageContentView::console(said, at);
            &&& chat.nick == nick && chat.text == said && chat.received_at == at
            &&& chat.kind == MessageKindView::Chat
            &&& chat.direction == Direction::Incoming
            &&& chat.delivery == DeliveryState::Received
            &&& chat.tags.len() == 0
            &&& line.nick.len() == 0 && line.text == said && line.received_at == at
            &&& line.kind == MessageKindView::Console
            &&& line.direction == Direction::Incoming
            &&& line.delivery == DeliveryState::Received
        }),
{
}

/// A saved draft comes back whole, with its cursor where it was or at the end.
pub proof fn law_saved_drafts_come_back(draft: DraftView, past: int)
    requires
        draft.wf(),
        past >= draft.text.len(),
    ensures
        DraftView::restored(draft.text, draft.cursor) == draft,
        DraftView::restored(draft.text, past).text == draft.text,
        DraftView::restored(draft.text, past).cursor == draft.text.len(),
        DraftView::empty().text.len() == 0,
        DraftView::empty().cursor == 0,
{
}

/// A draft takes characters up to 512, where the cursor is; taking them away and
/// moving about changes nothing else.
pub proof fn law_drafts_are_edited_at_the_cursor(
    before: Seq<char>,
    after: Seq<char>,
    c: char,
    d: char,
)
    ensures
        ({
            let at = before.len() as int;
            let draft = DraftView { text: before + after, cursor: at };
            &&& before.len() + after.len() < 512 ==> draft.insert(c) == (DraftView {
                text: before + seq![c] + after,
                cursor: at + 1,
            })
            &&& before.len() + after.len() >= 512 ==> draft.insert(c) == draft
            &&& (DraftView { text: before + seq![c] + after, cursor: at + 1 }).backspace() == draft
            &&& (DraftView { text: before + seq![d] + after, cursor: at }).delete() == draft
            &&& (DraftView { text: before + seq![c] + after, cursor: at + 1 }).left() == (DraftView {
                text: before + seq![c] + after,
                cursor: at,
            })
            &&& (DraftView { text: before + seq![d] + after, cursor: at }).right() == (DraftView {
                text: before + seq![d] + after,
                cursor: at + 1,
            })
            &&& draft.home() == (DraftView { text: before + after, cursor: 0 })
            &&& draft.end() == (DraftView {
                text: before + after,
                cursor: (before + after).len() as int,
            })
            &&& (DraftView { text: after, cursor: 0 }).backspace() == (DraftView {
                text: after,
                cursor: 0,
            })
            &&& (DraftView { text: before, cursor: at }).delete() == (DraftView {
                text: before,
                cursor: at,
            })
        }),
{
    let at = before.len() as int;
    let draft = DraftView { text: before + after, cursor: at };
    let typed = before + seq![c] + after;
    let held = before + seq![d] + after;
    if before.len() + after.len() < 512 {
        assert((before + after).insert(at, c) =~= typed);
    }
    assert(typed.remove(at) =~= before + after);
    assert(held.remove(at) =~= before + after);
}

} // verus!
