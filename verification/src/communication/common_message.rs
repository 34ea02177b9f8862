//! Messages exchanged between a client and the server, one per frame.

use vstd::prelude::*;

verus! {

/// What a client asks of the server.
#[derive(Debug, PartialEq, PartialOrd, Default)]
pub enum ClientToServerMessage {
    /// The empty message; the server does not react to it.
    #[default]
    Nothing,
    /// Deliver a text (second field) to the client named by the first field.
    TextTo(String, String),
    /// Ask for the display names that are bound right now.
    GetUsernames,
    /// Claim a display name.
    SetUsername(String),
}

/// What the server tells a client.
#[derive(Debug, PartialEq, PartialOrd, Default)]
pub enum ServerToClientMessage {
    /// The empty message.
    #[default]
    Nothing,
    /// A text (second field) sent by the client named by the first field.
    TextFrom(String, String),
    /// The display names bound when the request was handled.
    Usernames(Vec<String>),
    /// The outcome of a request: a confirmation, or the reason it was refused.
    Response(Result<String, String>),
}

/// Mathematical value of a [`ClientToServerMessage`].
pub enum ClientMessageView {
    Nothing,
    TextTo(Seq<char>, Seq<char>),
    GetUsernames,
    SetUsername(Seq<char>),
}

/// Mathematical value of a [`ServerToClientMessage`].
pub enum ServerMessageView {
    Nothing,
    TextFrom(Seq<char>, Seq<char>),
    Usernames(Seq<Seq<char>>),
    Response(Result<Seq<char>, Seq<char>>),
}

/// The character sequences of a list of strings, in order.
pub open spec fn texts_of(names: Seq<String>) -> Seq<Seq<char>> {
    Seq::new(names.len(), |i: int| names[i]@)
}

impl View for ClientToServerMessage {
    type V = ClientMessageView;

    open spec fn view(&self) -> ClientMessageView {
        match self {
            ClientToServerMessage::Nothing => ClientMessageView::Nothing,
            ClientToServerMessage::TextTo(recipient, text) => ClientMessageView::TextTo(
                recipient@,
                text@,
            ),
            ClientToServerMessage::GetUsernames => ClientMessageView::GetUsernames,
            ClientToServerMessage::SetUsername(name) => ClientMessageView::SetUsername(name@),
        }
    }
}

impl View for ServerToClientMessage {
    type V = ServerMessageView;

    open spec fn view(&self) -> ServerMessageView {
        match self {
            ServerToClientMessage::Nothing => ServerMessageView::Nothing,
            ServerToClientMessage::TextFrom(sender, text) => ServerMessageView::TextFrom(
                sender@,
                text@,
            ),
            ServerToClientMessage::Usernames(names) => ServerMessageView::Usernames(
                texts_of(names@),
            ),
            ServerToClientMessage::Response(outcome) => ServerMessageView::Response(
                match outcome {
                    Ok(note) => Ok(note@),
                    Err(reason) => Err(reason@),
                },
            ),
        }
    }
}

/// A copy of a list of strings.
pub fn copy_texts(names: &Vec<String>) -> (copy: Vec<String>)
    ensures
        texts_of(copy@) == texts_of(names@),
{
    let mut copy: Vec<String> = Vec::new();
    let mut k: usize = 0;
    while k < names.len()
        invariant
            k <= names.len(),
            copy.len() == k,
            forall|i: int| 0 <= i < k ==> copy[i]@ == names[i]@,
        decreases names.len() - k,
    {
        copy.push(names[k].clone());
        k += 1;
    }
    assert(texts_of(copy@) =~= texts_of(names@));
    copy
}

impl Clone for ClientToServerMessage {
    fn clone(&self) -> (copy: Self)
        ensures
            copy@ == self@,
    {
        match self {
            ClientToServerMessage::Nothing => ClientToServerMessage::Nothing,
            ClientToServerMessage::TextTo(recipient, text) => ClientToServerMessage::TextTo(
                recipient.clone(),
                text.clone(),
            ),
            ClientToServerMessage::GetUsernames => ClientToServerMessage::GetUsernames,
            ClientToServerMessage::SetUsername(name) => ClientToServerMessage::SetUsername(
                name.clone(),
            ),
        }
    }
}

impl Clone for ServerToClientMessage {
    fn clone(&self) -> (copy: Self)
        ensures
            copy@ == self@,
    {
        match self {
            ServerToClientMessage::Nothing => ServerToClientMessage::Nothing,
            ServerToClientMessage::TextFrom(sender, text) => ServerToClientMessage::TextFrom(
                sender.clone(),
                text.clone(),
            ),
            ServerToClientMessage::Usernames(names) => ServerToClientMessage::Usernames(
                copy_texts(names),
            ),
            ServerToClientMessage::Response(Ok(note)) => ServerToClientMessage::Response(
                Ok(note.clone()),
            ),
            ServerToClientMessage::Response(Err(reason)) => ServerToClientMessage::Response(
                Err(reason.clone()),
            ),
        }
    }
}

} // verus!
