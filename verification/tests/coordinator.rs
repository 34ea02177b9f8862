use networking::communication::common_message::{ClientToServerMessage, ServerToClientMessage};
use networking::server::channel_message::{MainToThreadsMessage, ThreadsToMainMessage};
use networking::server::coordinator::Coordinator;
use networking::server::routing::{Delivery, Phase, Reaction};

const A: u128 = 0xa;
const B: u128 = 0xb;
const C: u128 = 0xc;

fn from_client(message: ClientToServerMessage, identity: u128) -> ThreadsToMainMessage {
    ThreadsToMainMessage::ReceivedFromClient(message, identity)
}

fn set_name(name: &str, identity: u128) -> ThreadsToMainMessage {
    from_client(ClientToServerMessage::SetUsername(name.to_string()), identity)
}

fn text_to(recipient: &str, text: &str, identity: u128) -> ThreadsToMainMessage {
    from_client(ClientToServerMessage::TextTo(recipient.to_string(), text.to_string()), identity)
}

fn to_client(target: u128, message: ServerToClientMessage) -> Delivery {
    Delivery { target, command: MainToThreadsMessage::SendToClient(message) }
}

fn confirmed(target: u128, note: &str) -> Delivery {
    to_client(target, ServerToClientMessage::Response(Ok(note.to_string())))
}

fn refused(target: u128, reason: &str) -> Delivery {
    to_client(target, ServerToClientMessage::Response(Err(reason.to_string())))
}

fn forwarded(
    recipient: u128,
    sender_name: &str,
    text: &str,
    sender: u128,
    recipient_name: &str,
) -> Reaction {
    Reaction::Forward {
        forward: to_client(
            recipient,
            ServerToClientMessage::TextFrom(sender_name.to_string(), text.to_string()),
        ),
        on_delivered: confirmed(sender, &format!("Sent message to {}", recipient_name)),
        on_failure: refused(sender, "recipient unavailable"),
    }
}

fn roster(coordinator: &mut Coordinator<u32>, identity: u128) -> Vec<String> {
    match coordinator.handle(from_client(ClientToServerMessage::GetUsernames, identity)) {
        Reaction::Reply(Delivery {
            target,
            command: MainToThreadsMessage::SendToClient(ServerToClientMessage::Usernames(mut names)),
        }) => {
            assert_eq!(target, identity);
            names.sort();
            names
        }
        other => panic!("no roster: {:?}", other),
    }
}

fn two_sessions() -> Coordinator<u32> {
    let mut coordinator = Coordinator::new();
    assert!(coordinator.open_session(A, 10));
    assert!(coordinator.open_session(B, 11));
    coordinator
}

#[test]
fn a_new_coordinator_runs_without_sessions() {
    let coordinator: Coordinator<u32> = Coordinator::new();
    assert_eq!(coordinator.phase(), Phase::Running);
    assert_eq!(coordinator.handle_of(A), None);
    assert!(!coordinator.has_session(A));
    assert_eq!(coordinator.usernames(), Vec::<String>::new());
}

#[test]
fn an_identity_opens_one_session() {
    let mut coordinator = Coordinator::new();
    assert!(coordinator.open_session(A, 10));
    assert!(coordinator.has_session(A));
    assert_eq!(coordinator.username_of(A), None);
    assert_eq!(coordinator.handle_of(A), Some(&10));
    assert!(!coordinator.open_session(A, 20));
    assert_eq!(coordinator.handle_of(A), Some(&10));
    assert_eq!(coordinator.handle(set_name("alice", A)), Reaction::Reply(confirmed(A, "Set username alice successfully!")));
    assert!(!coordinator.open_session(A, 30));
    assert_eq!(coordinator.username_of(A), Some("alice".to_string()));
    assert_eq!(coordinator.handle_of(A), Some(&10));
}

#[test]
fn minted_identities_are_random_uuids() {
    let mut coordinator = Coordinator::new();
    let first = coordinator.accept_connection("first").unwrap();
    let second = coordinator.accept_connection("second").unwrap();
    assert_ne!(first, second);
    assert_eq!(coordinator.handle_of(first), Some(&"first"));
    assert_eq!(coordinator.handle_of(second), Some(&"second"));
    for identity in [first, second] {
        assert!(coordinator.has_session(identity));
        assert_eq!(coordinator.username_of(identity), None);
        assert_eq!((identity >> 76) & 0xf, 4);
        assert_eq!((identity >> 62) & 0x3, 2);
    }
}

#[test]
fn one_claim_per_name_succeeds() {
    let mut coordinator = Coordinator::new();
    for identity in 1..=5u128 {
        assert!(coordinator.open_session(identity, ()));
    }
    let mut granted = 0;
    for identity in 1..=5u128 {
        match coordinator.handle(set_name("alice", identity)) {
            Reaction::Reply(delivery) => {
                assert_eq!(delivery.target, identity);
                if delivery == confirmed(identity, "Set username alice successfully!") {
                    granted += 1;
                } else {
                    assert_eq!(delivery, refused(identity, "name taken"));
                }
            }
            other => panic!("no reply: {:?}", other),
        }
    }
    assert_eq!(granted, 1);
    assert_eq!(coordinator.owner_of(&"alice".to_string()), Some(1));
    assert_eq!(coordinator.usernames(), vec!["alice".to_string()]);
}

#[test]
fn a_session_claims_one_name_only() {
    let mut coordinator = two_sessions();
    assert_eq!(
        coordinator.handle(set_name("alice", A)),
        Reaction::Reply(confirmed(A, "Set username alice successfully!"))
    );
    assert_eq!(
        coordinator.handle(set_name("alicia", A)),
        Reaction::Reply(refused(A, "name already set"))
    );
    assert_eq!(coordinator.handle(set_name("alice", A)), Reaction::Reply(refused(A, "name taken")));
    assert_eq!(coordinator.username_of(A), Some("alice".to_string()));
    assert_eq!(coordinator.owner_of(&"alicia".to_string()), None);
    assert_eq!(roster(&mut coordinator, B), vec!["alice".to_string()]);
}

#[test]
fn names_are_case_sensitive() {
    let mut coordinator = two_sessions();
    assert_eq!(
        coordinator.handle(set_name("alice", A)),
        Reaction::Reply(confirmed(A, "Set username alice successfully!"))
    );
    assert_eq!(
        coordinator.handle(set_name("Alice", B)),
        Reaction::Reply(confirmed(B, "Set username Alice successfully!"))
    );
    assert_eq!(roster(&mut coordinator, A), vec!["Alice".to_string(), "alice".to_string()]);
}

#[test]
fn the_roster_is_the_set_of_bound_names() {
    let mut coordinator = two_sessions();
    assert!(coordinator.open_session(C, 12));
    assert_eq!(roster(&mut coordinator, A), Vec::<String>::new());
    coordinator.handle(set_name("bob", B));
    assert_eq!(roster(&mut coordinator, A), vec!["bob".to_string()]);
    coordinator.handle(set_name("alice", A));
    coordinator.handle(set_name("bob", C));
    assert_eq!(roster(&mut coordinator, C), vec!["alice".to_string(), "bob".to_string()]);
    coordinator.handle(ThreadsToMainMessage::ConnectionClosed(B));
    assert_eq!(roster(&mut coordinator, C), vec!["alice".to_string()]);
}

#[test]
fn a_text_goes_to_the_recipient_and_then_the_sender_is_told() {
    let mut coordinator = two_sessions();
    coordinator.handle(set_name("alice", A));
    coordinator.handle(set_name("bob", B));
    assert_eq!(
        coordinator.handle(text_to("bob", "hi", A)),
        forwarded(B, "alice", "hi", A, "bob")
    );
    assert_eq!(
        coordinator.handle(text_to("alice", "", B)),
        forwarded(A, "bob", "", B, "alice")
    );
    assert_eq!(
        coordinator.handle(text_to("alice", "to myself", A)),
        forwarded(A, "alice", "to myself", A, "alice")
    );
}

#[test]
fn a_text_to_an_unbound_name_is_refused() {
    let mut coordinator = two_sessions();
    coordinator.handle(set_name("alice", A));
    assert_eq!(
        coordinator.handle(text_to("bob", "hi", A)),
        Reaction::Reply(refused(A, "recipient missing"))
    );
    assert_eq!(
        coordinator.handle(text_to("bob", "hi", B)),
        Reaction::Reply(refused(B, "recipient missing"))
    );
}

#[test]
fn a_nameless_sender_is_refused() {
    let mut coordinator = two_sessions();
    coordinator.handle(set_name("alice", A));
    assert_eq!(
        coordinator.handle(text_to("alice", "hi", B)),
        Reaction::Reply(refused(B, "sender unnamed"))
    );
}

#[test]
fn a_closed_name_is_free_again() {
    let mut coordinator = two_sessions();
    coordinator.handle(set_name("alice", A));
    assert_eq!(coordinator.handle(set_name("alice", B)), Reaction::Reply(refused(B, "name taken")));
    assert_eq!(coordinator.handle(ThreadsToMainMessage::ConnectionClosed(A)), Reaction::Silent);
    assert!(!coordinator.has_session(A));
    assert_eq!(coordinator.handle_of(A), None);
    assert_eq!(coordinator.handle_of(B), Some(&11));
    assert_eq!(coordinator.owner_of(&"alice".to_string()), None);
    assert_eq!(
        coordinator.handle(set_name("alice", B)),
        Reaction::Reply(confirmed(B, "Set username alice successfully!"))
    );
    assert_eq!(coordinator.owner_of(&"alice".to_string()), Some(B));
}

#[test]
fn closing_twice_is_harmless() {
    let mut coordinator = two_sessions();
    coordinator.handle(set_name("alice", A));
    assert_eq!(coordinator.handle(ThreadsToMainMessage::ConnectionClosed(A)), Reaction::Silent);
    assert_eq!(coordinator.handle(ThreadsToMainMessage::ConnectionClosed(A)), Reaction::Silent);
    assert_eq!(coordinator.handle(ThreadsToMainMessage::ConnectionClosed(C)), Reaction::Silent);
    assert!(coordinator.has_session(B));
    assert_eq!(coordinator.handle_of(A), None);
    assert_eq!(coordinator.handle_of(B), Some(&11));
    assert!(coordinator.open_session(A, 14));
    assert_eq!(coordinator.handle_of(A), Some(&14));
}

#[test]
fn an_unknown_session_gets_no_answer() {
    let mut coordinator = two_sessions();
    assert_eq!(coordinator.handle(set_name("carol", C)), Reaction::UnknownSession(C));
    assert_eq!(coordinator.handle(text_to("carol", "x", C)), Reaction::UnknownSession(C));
    assert_eq!(
        coordinator.handle(from_client(ClientToServerMessage::GetUsernames, C)),
        Reaction::UnknownSession(C)
    );
    assert_eq!(coordinator.owner_of(&"carol".to_string()), None);
}

#[test]
fn the_empty_message_is_ignored() {
    let mut coordinator = two_sessions();
    assert_eq!(
        coordinator.handle(from_client(ClientToServerMessage::Nothing, A)),
        Reaction::Silent
    );
    assert_eq!(
        coordinator.handle(from_client(ClientToServerMessage::default(), A)),
        Reaction::Silent
    );
}

#[test]
fn shutdown_reaches_every_agent_and_stops_the_coordinator() {
    let mut coordinator = two_sessions();
    coordinator.handle(set_name("alice", A));
    match coordinator.handle(ThreadsToMainMessage::Shutdown) {
        Reaction::Broadcast(orders) => {
            let mut targets: Vec<u128> = Vec::new();
            for order in &orders {
                assert_eq!(order.command, MainToThreadsMessage::Shutdown);
                targets.push(order.target);
            }
            targets.sort();
            assert_eq!(targets, vec![A, B]);
        }
        other => panic!("no broadcast: {:?}", other),
    }
    assert_eq!(coordinator.phase(), Phase::ShuttingDown);
    assert_eq!(coordinator.handle(ThreadsToMainMessage::Shutdown), Reaction::NotRunning);
    assert_eq!(coordinator.handle(set_name("bob", B)), Reaction::NotRunning);
    assert!(!coordinator.open_session(C, 12));
    assert_eq!(coordinator.accept_connection(13), None);
    assert_eq!(coordinator.handle(ThreadsToMainMessage::ConnectionClosed(A)), Reaction::Silent);
    assert!(!coordinator.has_session(A));
    coordinator.finish_shutdown();
    assert_eq!(coordinator.phase(), Phase::Stopped);
    assert_eq!(coordinator.handle(ThreadsToMainMessage::ConnectionClosed(B)), Reaction::NotRunning);
    assert!(coordinator.has_session(B));
    assert_eq!(coordinator.handle(ThreadsToMainMessage::Shutdown), Reaction::NotRunning);
    coordinator.finish_shutdown();
    assert_eq!(coordinator.phase(), Phase::Stopped);
}

#[test]
fn finishing_without_a_shutdown_changes_nothing() {
    let mut coordinator = two_sessions();
    coordinator.finish_shutdown();
    assert_eq!(coordinator.phase(), Phase::Running);
    assert!(coordinator.open_session(C, 12));
}

#[test]
fn end_to_end_scenario() {
    let mut coordinator = Coordinator::new();
    assert!(coordinator.open_session(A, 'a'));
    assert!(coordinator.open_session(B, 'b'));
    assert_eq!(
        coordinator.handle(set_name("alice", A)),
        Reaction::Reply(confirmed(A, "Set username alice successfully!"))
    );
    assert_eq!(coordinator.handle(set_name("alice", B)), Reaction::Reply(refused(B, "name taken")));
    assert_eq!(
        coordinator.handle(text_to("bob", "hi", A)),
        Reaction::Reply(refused(A, "recipient missing"))
    );
    assert_eq!(
        coordinator.handle(set_name("bob", B)),
        Reaction::Reply(confirmed(B, "Set username bob successfully!"))
    );
    match coordinator.handle(text_to("bob", "hi", A)) {
        Reaction::Forward { forward, on_delivered, on_failure } => {
            assert_eq!(
                forward,
                to_client(B, ServerToClientMessage::TextFrom("alice".to_string(), "hi".to_string()))
            );
            assert_eq!(on_delivered, confirmed(A, "Sent message to bob"));
            assert_eq!(on_failure, refused(A, "recipient unavailable"));
        }
        other => panic!("not forwarded: {:?}", other),
    }
    match coordinator.handle(ThreadsToMainMessage::Shutdown) {
        Reaction::Broadcast(orders) => {
            assert_eq!(orders.len(), 2);
            assert!(orders.contains(&Delivery { target: A, command: MainToThreadsMessage::Shutdown }));
            assert!(orders.contains(&Delivery { target: B, command: MainToThreadsMessage::Shutdown }));
        }
        other => panic!("no broadcast: {:?}", other),
    }
    coordinator.finish_shutdown();
    assert_eq!(coordinator.phase(), Phase::Stopped);
}
