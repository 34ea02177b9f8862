use networking::communication::common_message::{ClientToServerMessage, ServerToClientMessage};
use networking::server::agent::{AgentEvent, AgentStep, ConnectionAgent, Frame};
use networking::server::channel_message::{MainToThreadsMessage, ThreadsToMainMessage};
use networking::server::coordinator::Coordinator;
use networking::server::routing::{answer_after_forward, Delivery, Phase, Reaction};

/// A relay without a network: the coordinator, the agents, and what each
/// client was sent. The handle of a session is the position of its agent.
struct Relay {
    coordinator: Coordinator<usize>,
    agents: Vec<ConnectionAgent>,
    frames: Vec<Vec<Frame>>,
    refuse_commands: Vec<bool>,
}

impl Relay {
    fn new() -> Relay {
        Relay {
            coordinator: Coordinator::new(),
            agents: Vec::new(),
            frames: Vec::new(),
            refuse_commands: Vec::new(),
        }
    }

    fn connect(&mut self) -> usize {
        let slot = self.agents.len();
        let identity = self.coordinator.accept_connection(slot).unwrap();
        self.agents.push(ConnectionAgent::new(identity));
        self.frames.push(Vec::new());
        self.refuse_commands.push(false);
        slot
    }

    fn carry_out_step(&mut self, slot: usize, step: AgentStep) {
        if let Some(frame) = step.write {
            self.frames[slot].push(frame);
        }
        if let Some(event) = step.report {
            self.dispatch(event);
        }
    }

    fn deliver(&mut self, delivery: Delivery) -> bool {
        match self.coordinator.handle_of(delivery.target).copied() {
            Some(slot) if !self.refuse_commands[slot] => {
                assert_eq!(self.agents[slot].identity(), delivery.target);
                let step = self.agents[slot].on_event(AgentEvent::Command(delivery.command));
                self.carry_out_step(slot, step);
                true
            }
            _ => false,
        }
    }

    fn dispatch(&mut self, event: ThreadsToMainMessage) {
        match self.coordinator.handle(event) {
            Reaction::Reply(delivery) => {
                self.deliver(delivery);
            }
            Reaction::Forward { forward, on_delivered, on_failure } => {
                let handed_over = self.deliver(forward);
                self.deliver(answer_after_forward(handed_over, on_delivered, on_failure));
            }
            Reaction::Broadcast(orders) => {
                for order in orders {
                    self.deliver(order);
                }
                self.coordinator.finish_shutdown();
            }
            Reaction::Silent | Reaction::UnknownSession(_) | Reaction::NotRunning => {}
        }
    }

    fn client_sends(&mut self, slot: usize, message: ClientToServerMessage) {
        let step = self.agents[slot].on_event(AgentEvent::Received(message));
        self.carry_out_step(slot, step);
    }

    fn take_frames(&mut self, slot: usize) -> Vec<Frame> {
        std::mem::take(&mut self.frames[slot])
    }
}

fn ok(note: &str) -> Frame {
    Frame::Text(ServerToClientMessage::Response(Ok(note.to_string())))
}

fn err(reason: &str) -> Frame {
    Frame::Text(ServerToClientMessage::Response(Err(reason.to_string())))
}

#[test]
fn two_clients_from_connection_to_shutdown() {
    let mut relay = Relay::new();
    let a = relay.connect();
    let b = relay.connect();

    relay.client_sends(a, ClientToServerMessage::SetUsername("alice".to_string()));
    assert_eq!(relay.take_frames(a), vec![ok("Set username alice successfully!")]);

    relay.client_sends(b, ClientToServerMessage::SetUsername("alice".to_string()));
    assert_eq!(relay.take_frames(b), vec![err("name taken")]);
    assert_eq!(relay.take_frames(a), vec![]);

    relay.client_sends(a, ClientToServerMessage::TextTo("bob".to_string(), "hi".to_string()));
    assert_eq!(relay.take_frames(a), vec![err("recipient missing")]);
    assert_eq!(relay.take_frames(b), vec![]);

    relay.client_sends(b, ClientToServerMessage::SetUsername("bob".to_string()));
    assert_eq!(relay.take_frames(b), vec![ok("Set username bob successfully!")]);

    relay.client_sends(a, ClientToServerMessage::TextTo("bob".to_string(), "hi".to_string()));
    assert_eq!(
        relay.take_frames(b),
        vec![Frame::Text(ServerToClientMessage::TextFrom("alice".to_string(), "hi".to_string()))]
    );
    assert_eq!(relay.take_frames(a), vec![ok("Sent message to bob")]);

    relay.client_sends(b, ClientToServerMessage::GetUsernames);
    match relay.take_frames(b).pop() {
        Some(Frame::Text(ServerToClientMessage::Usernames(mut names))) => {
            names.sort();
            assert_eq!(names, vec!["alice".to_string(), "bob".to_string()]);
        }
        other => panic!("no roster: {:?}", other),
    }

    relay.dispatch(ThreadsToMainMessage::Shutdown);
    assert_eq!(relay.take_frames(a), vec![Frame::Close]);
    assert_eq!(relay.take_frames(b), vec![Frame::Close]);
    assert!(relay.agents[a].is_closed());
    assert!(relay.agents[b].is_closed());
    assert_eq!(relay.coordinator.phase(), Phase::Stopped);

    relay.client_sends(a, ClientToServerMessage::GetUsernames);
    assert_eq!(relay.take_frames(a), vec![]);
}

#[test]
fn a_recipient_that_takes_no_command_is_unavailable() {
    let mut relay = Relay::new();
    let a = relay.connect();
    let b = relay.connect();
    relay.client_sends(a, ClientToServerMessage::SetUsername("alice".to_string()));
    relay.client_sends(b, ClientToServerMessage::SetUsername("bob".to_string()));
    relay.take_frames(a);
    relay.take_frames(b);

    relay.refuse_commands[b] = true;
    relay.client_sends(a, ClientToServerMessage::TextTo("bob".to_string(), "hi".to_string()));
    assert_eq!(relay.take_frames(a), vec![err("recipient unavailable")]);
    assert_eq!(relay.take_frames(b), vec![]);
}

#[test]
fn a_disconnect_frees_the_name() {
    let mut relay = Relay::new();
    let a = relay.connect();
    let b = relay.connect();
    relay.client_sends(a, ClientToServerMessage::SetUsername("alice".to_string()));
    relay.take_frames(a);

    let step = relay.agents[a].on_event(AgentEvent::CloseFrame);
    let identity = relay.agents[a].identity();
    assert_eq!(step.report, Some(ThreadsToMainMessage::ConnectionClosed(identity)));
    relay.carry_out_step(a, step);
    assert!(!relay.coordinator.has_session(identity));

    let again = relay.agents[a].on_event(AgentEvent::StreamEnded);
    assert_eq!(again.report, None);

    relay.client_sends(b, ClientToServerMessage::TextTo("alice".to_string(), "x".to_string()));
    assert_eq!(relay.take_frames(b), vec![err("recipient missing")]);
    relay.client_sends(b, ClientToServerMessage::SetUsername("alice".to_string()));
    assert_eq!(relay.take_frames(b), vec![ok("Set username alice successfully!")]);
    assert_eq!(
        relay.coordinator.handle(ThreadsToMainMessage::ReceivedFromClient(
            ClientToServerMessage::GetUsernames,
            relay.agents[b].identity()
        )),
        Reaction::Reply(Delivery {
            target: relay.agents[b].identity(),
            command: MainToThreadsMessage::SendToClient(ServerToClientMessage::Usernames(vec![
                "alice".to_string()
            ])),
        })
    );
}
