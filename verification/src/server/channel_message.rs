//! Messages between the coordinator and the connection agents.

use crate::communication::common_message::{
    copy_texts, texts_of, ClientMessageView, ClientToServerMessage, ServerMessageView,
    ServerToClientMessage,
};
use vstd::prelude::*;

verus! {

/// Identity of one session: an opaque token minted when the connection is
/// accepted. It holds the 128 bits of the session's UUID.
pub type SessionId = u128;

/// A command of the coordinator to one connection agent.
#[derive(Debug, PartialEq, PartialOrd, Default)]
pub enum MainToThreadsMessage {
    /// Close the session.
    #[default]
    Shutdown,
    /// Write this message to the client.
    SendToClient(ServerToClientMessage),
    /// A roster; agents do not act on it.
    Usernames(Vec<String>),
}

/// An event that a connection agent, or the operator, reports to the
/// coordinator.
#[derive(Debug, PartialEq, PartialOrd, Default)]
pub enum ThreadsToMainMessage {
    /// The operator asked for a global shutdown.
    #[default]
    Shutdown,
    /// A client of the given session sent a message.
    ReceivedFromClient(ClientToServerMessage, SessionId),
    /// The given session ended.
    ConnectionClosed(SessionId),
}

/// Mathematical value of a [`MainToThreadsMessage`].
pub enum CommandView {
    Shutdown,
    SendToClient(ServerMessageView),
    Usernames(Seq<Seq<char>>),
}

/// Mathematical value of a [`ThreadsToMainMessage`].
pub enum EventView {
    Shutdown,
    ReceivedFromClient(ClientMessageView, SessionId),
    ConnectionClosed(SessionId),
}

impl View for MainToThreadsMessage {
    type V = CommandView;

    open spec fn view(&self) -> CommandView {
        match self {
            MainToThreadsMessage::Shutdown => CommandView::Shutdown,
            MainToThreadsMessage::SendToClient(message) => CommandView::SendToClient(message@),
            MainToThreadsMessage::Usernames(names) => CommandView::Usernames(texts_of(names@)),
        }
    }
}

impl View for ThreadsToMainMessage {
    type V = EventView;

    open spec fn view(&self) -> EventView {
        match self {
            ThreadsToMainMessage::Shutdown => EventView::Shutdown,
            ThreadsToMainMessage::ReceivedFromClient(message, identity) => {
                EventView::ReceivedFromClient(message@, *identity)
            },
            ThreadsToMainMessage::ConnectionClosed(identity) => EventView::ConnectionClosed(
                *identity,
            ),
        }
    }
}

impl Clone for MainToThreadsMessage {
    fn clone(&self) -> (copy: Self)
        ensures
            copy@ == self@,
    {
        match self {
            MainToThreadsMessage::Shutdown => MainToThreadsMessage::Shutdown,
            MainToThreadsMessage::SendToClient(message) => MainToThreadsMessage::SendToClient(
                message.clone(),
            ),
            MainToThreadsMessage::Usernames(names) => MainToThreadsMessage::Usernames(
                copy_texts(names),
            ),
        }
    }
}

impl Clone for ThreadsToMainMessage {
    fn clone(&self) -> (copy: Self)
        ensures
            copy@ == self@,
    {
        match self {
            ThreadsToMainMessage::Shutdown => ThreadsToMainMessage::Shutdown,
            ThreadsToMainMessage::ReceivedFromClient(message, identity) => {
                ThreadsToMainMessage::ReceivedFromClient(message.clone(), *identity)
            },
            ThreadsToMainMessage::ConnectionClosed(identity) => {
                ThreadsToMainMessage::ConnectionClosed(*identity)
            },
        }
    }
}

} // verus!
