//! What the session manager tells its host.
use vstd::prelude::*;

verus! {

/// How far a transfer has come: `done` bytes of `total`.
#[derive(Debug, PartialEq, Eq, Clone, Copy)]
pub struct Progress {
    pub done: u128,
    pub total: u128,
}

/// An event for the host, which drains the manager's queue in order.
#[derive(Debug, PartialEq, Clone)]
pub enum Message {
    /// A transfer was opened: the peer's name, the session, the peer's address.
    New(String, u128, String),
    /// The transfer of a session has come this far.
    SetProgress(u128, Progress),
    /// The state of a session, in words.
    SetStatus(u128, String),
    /// The address under which this side's offer can be fetched.
    SetShare(String),
    /// The transfer of a session is over.
    Destroy(u128),
    /// Something failed; the text says what.
    Error(String),
}

/// A [`Message`] with its texts as sequences of characters.
pub enum MessageView {
    New(Seq<char>, u128, Seq<char>),
    SetProgress(u128, Progress),
    SetStatus(u128, Seq<char>),
    SetShare(Seq<char>),
    Destroy(u128),
    Error(Seq<char>),
}

impl View for Message {
    type V = MessageView;

    open spec fn view(&self) -> MessageView {
        match *self {
            Message::New(name, session, peer) => MessageView::New(name@, session, peer@),
            Message::SetProgress(session, progress) => MessageView::SetProgress(session, progress),
            Message::SetStatus(session, text) => MessageView::SetStatus(session, text@),
            Message::SetShare(url) => MessageView::SetShare(url@),
            Message::Destroy(session) => MessageView::Destroy(session),
            Message::Error(text) => MessageView::Error(text@),
        }
    }
}

/// A queue of messages through their views.
pub open spec fn messages_view(messages: Seq<Message>) -> Seq<MessageView> {
    messages.map_values(|m: Message| m@)
}

} // verus!
