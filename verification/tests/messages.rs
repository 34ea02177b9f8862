use networking::communication::common_message::{
    copy_texts, ClientToServerMessage, ServerToClientMessage,
};
use networking::server::channel_message::{MainToThreadsMessage, ThreadsToMainMessage};

#[test]
fn defaults_are_the_first_variants() {
    assert_eq!(ClientToServerMessage::default(), ClientToServerMessage::Nothing);
    assert_eq!(ServerToClientMessage::default(), ServerToClientMessage::Nothing);
    assert_eq!(MainToThreadsMessage::default(), MainToThreadsMessage::Shutdown);
    assert_eq!(ThreadsToMainMessage::default(), ThreadsToMainMessage::Shutdown);
}

#[test]
fn clones_are_equal() {
    let messages = vec![
        ServerToClientMessage::Nothing,
        ServerToClientMessage::TextFrom("alice".to_string(), "hi".to_string()),
        ServerToClientMessage::Usernames(vec!["alice".to_string(), "bob".to_string()]),
        ServerToClientMessage::Response(Ok("done".to_string())),
        ServerToClientMessage::Response(Err("no".to_string())),
    ];
    for message in &messages {
        assert_eq!(&message.clone(), message);
        let command = MainToThreadsMessage::SendToClient(message.clone());
        assert_eq!(command.clone(), command);
    }
    assert_ne!(
        ServerToClientMessage::Response(Ok("x".to_string())),
        ServerToClientMessage::Response(Err("x".to_string()))
    );
}

#[test]
fn copied_texts_are_equal() {
    let names = vec!["alice".to_string(), String::new(), "bob".to_string()];
    assert_eq!(copy_texts(&names), names);
    assert_eq!(copy_texts(&Vec::new()), Vec::<String>::new());
}

#[test]
fn requests_and_events_clone_equal() {
    let requests = vec![
        ClientToServerMessage::Nothing,
        ClientToServerMessage::TextTo("bob".to_string(), "hi".to_string()),
        ClientToServerMessage::GetUsernames,
        ClientToServerMessage::SetUsername("alice".to_string()),
    ];
    for request in &requests {
        assert_eq!(&request.clone(), request);
        let event = ThreadsToMainMessage::ReceivedFromClient(request.clone(), 7);
        assert_eq!(event.clone(), event);
    }
    let closed = ThreadsToMainMessage::ConnectionClosed(9);
    assert_eq!(closed.clone(), closed);
    assert_ne!(closed, ThreadsToMainMessage::ConnectionClosed(8));
    let roster = MainToThreadsMessage::Usernames(vec!["alice".to_string()]);
    assert_eq!(roster.clone(), roster);
    assert_eq!(MainToThreadsMessage::Shutdown.clone(), MainToThreadsMessage::Shutdown);
}
