//! The routing state as a mathematical object, and the rule by which the
//! coordinator moves from one state to the next.
//!
//! The executable coordinator promises that every event it handles is a step
//! of this model; what is proved of the model therefore holds of the code.

use crate::communication::common_message::{ClientMessageView, ServerMessageView};
use crate::server::channel_message::{CommandView, EventView, MainToThreadsMessage, SessionId};
use vstd::prelude::*;

verus! {

/// Life cycle of the coordinator.
#[derive(Debug, Clone, Copy, PartialEq, Eq, Structural)]
pub enum Phase {
    /// Events are handled.
    Running,
    /// A shutdown was requested: agents are told to close, no new work starts.
    ShuttingDown,
    /// The event loop has ended; no event is accepted any more.
    Stopped,
}

/// One command addressed to the agent of one session.
#[derive(Debug, PartialEq)]
pub struct Delivery {
    pub target: SessionId,
    pub command: MainToThreadsMessage,
}

/// What the coordinator wants done after it has handled one event.
#[derive(Debug, PartialEq)]
pub enum Reaction {
    /// Nothing is sent.
    Silent,
    /// One command goes to one agent.
    Reply(Delivery),
    /// `forward` goes to the recipient's agent first. If it could be handed
    /// over, `on_delivered` follows, else `on_failure`; both are addressed to
    /// the sender.
    Forward { forward: Delivery, on_delivered: Delivery, on_failure: Delivery },
    /// Each command goes to its agent; the order carries no meaning.
    Broadcast(Vec<Delivery>),
    /// The event names a session that has no record: nothing can be sent.
    UnknownSession(SessionId),
    /// The coordinator does not accept this event in its present phase.
    NotRunning,
}

/// Mathematical value of a [`Delivery`].
pub struct DeliveryView {
    pub target: SessionId,
    pub command: CommandView,
}

/// Mathematical value of a [`Reaction`].
pub enum ReactionView {
    Silent,
    Reply(DeliveryView),
    Forward { forward: DeliveryView, on_delivered: DeliveryView, on_failure: DeliveryView },
    Broadcast(Seq<DeliveryView>),
    UnknownSession(SessionId),
    NotRunning,
}

impl ReactionView {
    /// The deliveries that carrying out this reaction makes, in order.
    /// `handed_over` says whether the forwarded text, if there is one, could
    /// be handed to the recipient's agent.
    pub open spec fn deliveries(self, handed_over: bool) -> Seq<DeliveryView> {
        match self {
            ReactionView::Reply(delivery) => seq![delivery],
            ReactionView::Forward { forward, on_delivered, on_failure } => if handed_over {
                seq![forward, on_delivered]
            } else {
                seq![forward, on_failure]
            },
            ReactionView::Broadcast(orders) => orders,
            _ => Seq::empty(),
        }
    }
}

impl View for Delivery {
    type V = DeliveryView;

    open spec fn view(&self) -> DeliveryView {
        DeliveryView { target: self.target, command: self.command@ }
    }
}

/// The values of a list of deliveries, in order.
pub open spec fn deliveries_of(orders: Seq<Delivery>) -> Seq<DeliveryView> {
    Seq::new(orders.len(), |i: int| orders[i]@)
}

impl View for Reaction {
    type V = ReactionView;

    open spec fn view(&self) -> ReactionView {
        match self {
            Reaction::Silent => ReactionView::Silent,
            Reaction::Reply(delivery) => ReactionView::Reply(delivery@),
            Reaction::Forward { forward, on_delivered, on_failure } => ReactionView::Forward {
                forward: forward@,
                on_delivered: on_delivered@,
                on_failure: on_failure@,
            },
            Reaction::Broadcast(orders) => ReactionView::Broadcast(deliveries_of(orders@)),
            Reaction::UnknownSession(identity) => ReactionView::UnknownSession(*identity),
            Reaction::NotRunning => ReactionView::NotRunning,
        }
    }
}

/// The command handles of the live sessions after `event` was handled in
/// `state`: a session that is closed gives its handle up, nothing else
/// changes.
pub open spec fn handles_after<H>(
    state: RoutingState,
    handles: Map<SessionId, H>,
    event: EventView,
) -> Map<SessionId, H> {
    match event {
        EventView::ConnectionClosed(identity) => if state.phase is Stopped {
            handles
        } else {
            handles.remove(identity)
        },
        _ => handles,
    }
}

/// The delivery that follows a forwarded text: the confirmation if the text
/// could be handed to the recipient's agent, the refusal if not.
pub fn answer_after_forward(
    handed_over: bool,
    on_delivered: Delivery,
    on_failure: Delivery,
) -> (answer: Delivery)
    ensures
        answer == (if handed_over {
            on_delivered
        } else {
            on_failure
        }),
{
    if handed_over {
        on_delivered
    } else {
        on_failure
    }
}

/// Reason given when the requested name is bound already.
pub open spec fn reason_name_taken() -> Seq<char> {
    "name taken"@
}

/// Reason given when the requester holds a name already.
pub open spec fn reason_name_already_set() -> Seq<char> {
    "name already set"@
}

/// Reason given when no session holds the recipient's name.
pub open spec fn reason_recipient_missing() -> Seq<char> {
    "recipient missing"@
}

/// Reason given when the sender has not claimed a name yet.
pub open spec fn reason_sender_unnamed() -> Seq<char> {
    "sender unnamed"@
}

/// Reason given when the text could not be handed to the recipient's agent.
pub open spec fn reason_recipient_unavailable() -> Seq<char> {
    "recipient unavailable"@
}

/// Confirmation of a claimed name.
pub open spec fn note_name_set(name: Seq<char>) -> Seq<char> {
    "Set username "@ + name + " successfully!"@
}

/// Confirmation of a forwarded text.
pub open spec fn note_sent(recipient: Seq<char>) -> Seq<char> {
    "Sent message to "@ + recipient
}

/// The delivery that writes `message` to the client of `target`.
pub open spec fn to_client(target: SessionId, message: ServerMessageView) -> DeliveryView {
    DeliveryView { target, command: CommandView::SendToClient(message) }
}

/// The delivery that confirms a request of `target` with `note`.
pub open spec fn confirm(target: SessionId, note: Seq<char>) -> DeliveryView {
    to_client(target, ServerMessageView::Response(Ok(note)))
}

/// The delivery that refuses a request of `target` for `reason`.
pub open spec fn refuse(target: SessionId, reason: Seq<char>) -> DeliveryView {
    to_client(target, ServerMessageView::Response(Err(reason)))
}

/// The routing state: the coordinator's phase, the record of every live
/// session (its display name, once it has one), and the name registry.
pub struct RoutingState {
    pub phase: Phase,
    pub sessions: Map<SessionId, Option<Seq<char>>>,
    pub registry: Map<Seq<char>, SessionId>,
}

impl RoutingState {
    /// The state in which a coordinator starts.
    pub open spec fn initial() -> RoutingState {
        RoutingState { phase: Phase::Running, sessions: Map::empty(), registry: Map::empty() }
    }

    /// Registry and session records agree: a name is registered to an
    /// identity exactly if that identity's record holds the name.
    pub open spec fn wf(self) -> bool {
        &&& forall|name: Seq<char>| #[trigger]
            self.registry.dom().contains(name) ==> self.names(self.registry[name], name)
        &&& forall|identity: SessionId| #[trigger]
            self.sessions.dom().contains(identity) && self.sessions[identity] is Some
                ==> self.binds(self.sessions[identity]->0, identity)
    }

    /// Session `identity` is live and holds `name`.
    pub open spec fn names(self, identity: SessionId, name: Seq<char>) -> bool {
        self.sessions.dom().contains(identity) && self.sessions[identity] == Some(name)
    }

    /// The registry maps `name` to `identity`.
    pub open spec fn binds(self, name: Seq<char>, identity: SessionId) -> bool {
        self.registry.dom().contains(name) && self.registry[name] == identity
    }

    /// A connection with this identity can be accepted.
    pub open spec fn admits(self, identity: SessionId) -> bool {
        self.phase is Running && !self.sessions.dom().contains(identity)
    }

    /// The state after a connection was accepted under `identity`.
    pub open spec fn open(self, identity: SessionId) -> RoutingState {
        RoutingState { sessions: self.sessions.insert(identity, None), ..self }
    }

    /// Session `identity` may claim `name`: it is live and nameless, and
    /// nobody holds the name.
    pub open spec fn may_bind(self, identity: SessionId, name: Seq<char>) -> bool {
        &&& self.sessions.dom().contains(identity)
        &&& self.sessions[identity] is None
        &&& !self.registry.dom().contains(name)
    }

    /// The state after `name` was bound to `identity`.
    pub open spec fn bind(self, identity: SessionId, name: Seq<char>) -> RoutingState {
        RoutingState {
            sessions: self.sessions.insert(identity, Some(name)),
            registry: self.registry.insert(name, identity),
            ..self
        }
    }

    /// The state after the record of `identity` was removed, together with
    /// the registry entry of its name, if it had one.
    pub open spec fn close(self, identity: SessionId) -> RoutingState {
        if !self.sessions.dom().contains(identity) {
            self
        } else {
            RoutingState {
                sessions: self.sessions.remove(identity),
                registry: match self.sessions[identity] {
                    Some(name) => self.registry.remove(name),
                    None => self.registry,
                },
                ..self
            }
        }
    }

    /// The answer to `SetUsername(name)` from the live session `identity`.
    pub open spec fn answer_set_username(self, identity: SessionId, name: Seq<char>)
        -> DeliveryView {
        if self.registry.dom().contains(name) {
            refuse(identity, reason_name_taken())
        } else if self.sessions[identity] is Some {
            refuse(identity, reason_name_already_set())
        } else {
            confirm(identity, note_name_set(name))
        }
    }

    /// The reaction to `TextTo(recipient, text)` from the live session
    /// `identity`.
    pub open spec fn answer_text_to(self, identity: SessionId, recipient: Seq<char>, text: Seq<char>)
        -> ReactionView {
        if !self.registry.dom().contains(recipient) {
            ReactionView::Reply(refuse(identity, reason_recipient_missing()))
        } else if self.sessions[identity] is None {
            ReactionView::Reply(refuse(identity, reason_sender_unnamed()))
        } else {
            ReactionView::Forward {
                forward: to_client(
                    self.registry[recipient],
                    ServerMessageView::TextFrom(self.sessions[identity]->0, text),
                ),
                on_delivered: confirm(identity, note_sent(recipient)),
                on_failure: refuse(identity, reason_recipient_unavailable()),
            }
        }
    }

    /// `names` lists every bound display name exactly once.
    pub open spec fn roster(self, names: Seq<Seq<char>>) -> bool {
        names.no_duplicates() && names.to_set() == self.registry.dom()
    }

    /// `orders` holds one `Shutdown` for every live session and nothing else.
    pub open spec fn shutdown_orders(self, orders: Seq<DeliveryView>) -> bool {
        &&& forall|i: int| 0 <= i < orders.len() ==> (#[trigger] orders[i]).command
            == CommandView::Shutdown
        &&& forall|i: int, j: int|
            0 <= i < j < orders.len() ==> (#[trigger] orders[i]).target != (
            #[trigger] orders[j]).target
        &&& forall|identity: SessionId|
            self.sessions.dom().contains(identity) <==> exists|i: int|
                0 <= i < orders.len() && (#[trigger] orders[i]).target == identity
    }

    /// The state after `event` was handled.
    pub open spec fn next(self, event: EventView) -> RoutingState {
        match event {
            EventView::Shutdown => if self.phase is Running {
                RoutingState { phase: Phase::ShuttingDown, ..self }
            } else {
                self
            },
            EventView::ConnectionClosed(identity) => if self.phase is Stopped {
                self
            } else {
                self.close(identity)
            },
            EventView::ReceivedFromClient(ClientMessageView::SetUsername(name), identity) => if self.phase is Running
                && self.may_bind(identity, name) {
                self.bind(identity, name)
            } else {
                self
            },
            EventView::ReceivedFromClient(_, _) => self,
        }
    }

    /// `reaction` is what handling `event` in this state asks for.
    pub open spec fn reacts(self, event: EventView, reaction: ReactionView) -> bool {
        match event {
            EventView::Shutdown => if self.phase is Running {
                reaction matches ReactionView::Broadcast(orders) && self.shutdown_orders(orders)
            } else {
                reaction == ReactionView::NotRunning
            },
            EventView::ConnectionClosed(_) => if self.phase is Stopped {
                reaction == ReactionView::NotRunning
            } else {
                reaction == ReactionView::Silent
            },
            EventView::ReceivedFromClient(message, identity) => if !(self.phase is Running) {
                reaction == ReactionView::NotRunning
            } else if !self.sessions.dom().contains(identity) {
                reaction == ReactionView::UnknownSession(identity)
            } else {
                match message {
                    ClientMessageView::Nothing => reaction == ReactionView::Silent,
                    ClientMessageView::SetUsername(name) => reaction == ReactionView::Reply(
                        self.answer_set_username(identity, name),
                    ),
                    ClientMessageView::GetUsernames => {
                        &&& reaction matches ReactionView::Reply(delivery)
                        &&& delivery.target == identity
                        &&& delivery.command matches CommandView::SendToClient(
                            ServerMessageView::Usernames(names),
                        )
                        &&& self.roster(names)
                    },
                    ClientMessageView::TextTo(recipient, text) => reaction
                        == self.answer_text_to(identity, recipient, text),
                }
            },
        }
    }

    /// The state after the shutdown has been carried out.
    pub open spec fn finish(self) -> RoutingState {
        if self.phase is ShuttingDown {
            RoutingState { phase: Phase::Stopped, ..self }
        } else {
            self
        }
    }
}

} // verus!
