//! The connection agent: the bridge between one client's transport and the
//! coordinator.
//!
//! The agent decides; a runtime reads frames, awaits commands and writes.
//! Whatever happens on either side is handed to [`ConnectionAgent::on_event`]
//! as an [`AgentEvent`], and the [`AgentStep`] that comes back says what to
//! write to the client and what to report to the coordinator.

use crate::communication::common_message::{
    ClientMessageView, ClientToServerMessage, ServerMessageView, ServerToClientMessage,
};
use crate::server::channel_message::{
    CommandView, EventView, MainToThreadsMessage, SessionId, ThreadsToMainMessage,
};
use vstd::prelude::*;

verus! {

/// Something that happened on the transport or on the command channel of
/// one session.
#[derive(Debug, PartialEq)]
pub enum AgentEvent {
    /// The opening handshake failed: the session never carried a frame.
    HandshakeFailed,
    /// A text frame arrived and was decoded into this message.
    Received(ClientToServerMessage),
    /// A text frame arrived that is no client message.
    Undecodable,
    /// A frame arrived that is neither text nor close.
    OtherFrame,
    /// The client sent a close frame.
    CloseFrame,
    /// Reading from or writing to the transport failed.
    TransportFailed,
    /// The transport ended without a close frame.
    StreamEnded,
    /// The coordinator issued this command.
    Command(MainToThreadsMessage),
    /// The command channel ended: the coordinator is gone.
    CommandsEnded,
}

/// A frame for the client.
#[derive(Debug, PartialEq)]
pub enum Frame {
    /// One encoded message.
    Text(ServerToClientMessage),
    /// The close frame.
    Close,
}

/// What the agent wants done after one event. The frame, if any, is written
/// before the report, if any, is sent.
#[derive(Debug, PartialEq)]
pub struct AgentStep {
    /// Frame to write to the client.
    pub write: Option<Frame>,
    /// Event to report to the coordinator.
    pub report: Option<ThreadsToMainMessage>,
    /// The frame at hand was discarded because it could not be decoded.
    pub protocol_error: bool,
}

/// Mathematical value of an [`AgentEvent`].
pub enum AgentEventView {
    HandshakeFailed,
    Received(ClientMessageView),
    Undecodable,
    OtherFrame,
    CloseFrame,
    TransportFailed,
    StreamEnded,
    Command(CommandView),
    CommandsEnded,
}

/// Mathematical value of a [`Frame`].
pub enum FrameView {
    Text(ServerMessageView),
    Close,
}

/// Mathematical value of an [`AgentStep`].
pub struct AgentStepView {
    pub write: Option<FrameView>,
    pub report: Option<EventView>,
    pub protocol_error: bool,
}

impl View for AgentEvent {
    type V = AgentEventView;

    open spec fn view(&self) -> AgentEventView {
        match self {
            AgentEvent::HandshakeFailed => AgentEventView::HandshakeFailed,
            AgentEvent::Received(message) => AgentEventView::Received(message@),
            AgentEvent::Undecodable => AgentEventView::Undecodable,
            AgentEvent::OtherFrame => AgentEventView::OtherFrame,
            AgentEvent::CloseFrame => AgentEventView::CloseFrame,
            AgentEvent::TransportFailed => AgentEventView::TransportFailed,
            AgentEvent::StreamEnded => AgentEventView::StreamEnded,
            AgentEvent::Command(command) => AgentEventView::Command(command@),
            AgentEvent::CommandsEnded => AgentEventView::CommandsEnded,
        }
    }
}

impl View for Frame {
    type V = FrameView;

    open spec fn view(&self) -> FrameView {
        match self {
            Frame::Text(message) => FrameView::Text(message@),
            Frame::Close => FrameView::Close,
        }
    }
}

impl View for AgentStep {
    type V = AgentStepView;

    open spec fn view(&self) -> AgentStepView {
        AgentStepView {
            write: match self.write {
                Some(frame) => Some(frame@),
                None => None,
            },
            report: match self.report {
                Some(event) => Some(event@),
                None => None,
            },
            protocol_error: self.protocol_error,
        }
    }
}

impl AgentStepView {
    /// Nothing to write, nothing to report.
    pub open spec fn idle() -> AgentStepView {
        AgentStepView { write: None, report: None, protocol_error: false }
    }

    /// Only a report to the coordinator.
    pub open spec fn reporting(event: EventView) -> AgentStepView {
        AgentStepView { write: None, report: Some(event), protocol_error: false }
    }
}

/// The state of an agent: the session it serves and whether it has ended.
pub struct AgentState {
    pub identity: SessionId,
    pub closed: bool,
}

impl AgentState {
    /// The event ends the session.
    pub open spec fn ends_on(event: AgentEventView) -> bool {
        match event {
            AgentEventView::HandshakeFailed => true,
            AgentEventView::CloseFrame => true,
            AgentEventView::TransportFailed => true,
            AgentEventView::StreamEnded => true,
            AgentEventView::Command(CommandView::Shutdown) => true,
            AgentEventView::CommandsEnded => true,
            _ => false,
        }
    }

    /// The state after `event`.
    pub open spec fn next(self, event: AgentEventView) -> AgentState {
        AgentState { closed: self.closed || Self::ends_on(event), ..self }
    }

    /// What the agent asks for on `event`.
    pub open spec fn step(self, event: AgentEventView) -> AgentStepView {
        if self.closed {
            AgentStepView::idle()
        } else {
            match event {
                AgentEventView::Received(message) => AgentStepView::reporting(
                    EventView::ReceivedFromClient(message, self.identity),
                ),
                AgentEventView::Undecodable => AgentStepView {
                    write: None,
                    report: None,
                    protocol_error: true,
                },
                AgentEventView::OtherFrame => AgentStepView::idle(),
                AgentEventView::Command(CommandView::SendToClient(message)) => AgentStepView {
                    write: Some(FrameView::Text(message)),
                    report: None,
                    protocol_error: false,
                },
                AgentEventView::Command(CommandView::Usernames(_)) => AgentStepView::idle(),
                AgentEventView::Command(CommandView::Shutdown) => AgentStepView {
                    write: Some(FrameView::Close),
                    report: Some(EventView::ConnectionClosed(self.identity)),
                    protocol_error: false,
                },
                AgentEventView::CommandsEnded => AgentStepView {
                    write: Some(FrameView::Close),
                    report: Some(EventView::ConnectionClosed(self.identity)),
                    protocol_error: false,
                },
                AgentEventView::HandshakeFailed => AgentStepView::reporting(
                    EventView::ConnectionClosed(self.identity),
                ),
                AgentEventView::CloseFrame => AgentStepView::reporting(
                    EventView::ConnectionClosed(self.identity),
                ),
                AgentEventView::TransportFailed => AgentStepView::reporting(
                    EventView::ConnectionClosed(self.identity),
                ),
                AgentEventView::StreamEnded => AgentStepView::reporting(
                    EventView::ConnectionClosed(self.identity),
                ),
            }
        }
    }

    /// The state after the first `count` of `events`.
    pub open spec fn after(self, events: Seq<AgentEventView>, count: nat) -> AgentState
        decreases count,
    {
        if count == 0 {
            self
        } else {
            self.after(events, (count - 1) as nat).next(events[count - 1])
        }
    }

    /// How many of the first `count` of `events` made the agent report the
    /// end of its session.
    pub open spec fn closures_reported(self, events: Seq<AgentEventView>, count: nat) -> nat
        decreases count,
    {
        if count == 0 {
            0
        } else {
            let before = self.closures_reported(events, (count - 1) as nat);
            let step = self.after(events, (count - 1) as nat).step(events[count - 1]);
            if step.report is Some && step.report->0 is ConnectionClosed {
                before + 1
            } else {
                before
            }
        }
    }
}

/// Whatever happens to an agent, and in whatever order, it reports the end
/// of its session exactly once: not before the session has ended, once when
/// it ends, and never again.
pub proof fn law_one_closure_per_session(start: AgentState, events: Seq<AgentEventView>, count: nat)
    requires
        !start.closed,
    ensures
        start.after(events, count).identity == start.identity,
        start.closures_reported(events, count) == (if start.after(events, count).closed {
            1nat
        } else {
            0nat
        }),
    decreases count,
{
    if count > 0 {
        law_one_closure_per_session(start, events, (count - 1) as nat);
    }
}

/// An agent that has ended stays ended, writes nothing and reports nothing.
pub proof fn law_closed_agent_is_silent(state: AgentState, event: AgentEventView)
    requires
        state.closed,
    ensures
        state.next(event) == state,
        state.step(event) == AgentStepView::idle(),
{
}

/// The decisions of one connection agent.
pub struct ConnectionAgent {
    identity: SessionId,
    closed: bool,
}

impl View for ConnectionAgent {
    type V = AgentState;

    closed spec fn view(&self) -> AgentState {
        AgentState { identity: self.identity, closed: self.closed }
    }
}

impl ConnectionAgent {
    /// The agent of a session that has just been accepted.
    pub fn new(identity: SessionId) -> (agent: ConnectionAgent)
        ensures
            agent@ == (AgentState { identity, closed: false }),
    {
        ConnectionAgent { identity, closed: false }
    }

    /// The session that the agent serves.
    pub fn identity(&self) -> (identity: SessionId)
        ensures
            identity == self@.identity,
    {
        self.identity
    }

    /// Whether the session has ended.
    pub fn is_closed(&self) -> (closed: bool)
        ensures
            closed == self@.closed,
    {
        self.closed
    }

    /// The step that only reports the end of the session.
    fn closing(&self) -> (step: AgentStep)
        ensures
            step@ == AgentStepView::reporting(EventView::ConnectionClosed(self@.identity)),
    {
        AgentStep {
            write: None,
            report: Some(ThreadsToMainMessage::ConnectionClosed(self.identity)),
            protocol_error: false,
        }
    }

    /// Takes one event and says what to write to the client and what to
    /// report to the coordinator.
    pub fn on_event(&mut self, event: AgentEvent) -> (step: AgentStep)
        ensures
            final(self)@ == old(self)@.next(event@),
            step@ == old(self)@.step(event@),
    {
        if self.closed {
            return AgentStep { write: None, report: None, protocol_error: false };
        }
        match event {
            AgentEvent::Received(message) => AgentStep {
                write: None,
                report: Some(ThreadsToMainMessage::ReceivedFromClient(message, self.identity)),
                protocol_error: false,
            },
            AgentEvent::Undecodable => AgentStep {
                write: None,
                report: None,
                protocol_error: true,
            },
            AgentEvent::OtherFrame => AgentStep {
                write: None,
                report: None,
                protocol_error: false,
            },
            AgentEvent::Command(MainToThreadsMessage::SendToClient(message)) => AgentStep {
                write: Some(Frame::Text(message)),
                report: None,
                protocol_error: false,
            },
            AgentEvent::Command(MainToThreadsMessage::Usernames(_)) => AgentStep {
                write: None,
                report: None,
                protocol_error: false,
            },
            AgentEvent::Command(MainToThreadsMessage::Shutdown) => {
                self.closed = true;
                AgentStep {
                    write: Some(Frame::Close),
                    report: Some(ThreadsToMainMessage::ConnectionClosed(self.identity)),
                    protocol_error: false,
                }
            },
            AgentEvent::CommandsEnded => {
                self.closed = true;
                AgentStep {
                    write: Some(Frame::Close),
                    report: Some(ThreadsToMainMessage::ConnectionClosed(self.identity)),
                    protocol_error: false,
                }
            },
            AgentEvent::HandshakeFailed => {
                self.closed = true;
                self.closing()
            },
            AgentEvent::CloseFrame => {
                self.closed = true;
                self.closing()
            },
            AgentEvent::TransportFailed => {
                self.closed = true;
                self.closing()
            },
            AgentEvent::StreamEnded => {
                self.closed = true;
                self.closing()
            },
        }
    }
}

} // verus!
