//! The commands of the two consoles, read from the tokens of one line.
//!
//! An operator at the server can only ask for a shutdown. A user at a
//! client can send a text, claim a name, ask for the roster, or leave.

use crate::communication::common_message::{ClientMessageView, ClientToServerMessage};
use crate::logic::input_parser::{InputToken, TokenView};
use vstd::prelude::*;

verus! {

/// What an operator's line asks of the server.
#[derive(Debug, Clone, Copy, PartialEq, Eq, Structural)]
pub enum OperatorCommand {
    /// The line holds no token.
    Empty,
    /// `close`: shut the server down.
    Shutdown,
    /// Anything else.
    Invalid,
}

/// The instruction whose arguments are wrong.
#[derive(Debug, Clone, Copy, PartialEq, Eq, Structural)]
pub enum Usage {
    /// `send "<username>" "<message>"`
    Send,
    /// `set_name "<username>"`
    SetName,
}

/// What a user's line asks of the client.
#[derive(Debug, PartialEq)]
pub enum ClientCommand {
    /// The line holds no token: nothing to do.
    Ignore,
    /// Send this message to the server.
    Send(ClientToServerMessage),
    /// `close`: end the connection.
    Close,
    /// A known instruction with the wrong arguments.
    Malformed(Usage),
    /// A word that is no instruction.
    UnknownInstruction,
    /// The line does not start with a word.
    NotAnInstruction,
}

/// Mathematical value of a [`ClientCommand`].
pub enum ClientCommandView {
    Ignore,
    Send(ClientMessageView),
    Close,
    Malformed(Usage),
    UnknownInstruction,
    NotAnInstruction,
}

impl View for ClientCommand {
    type V = ClientCommandView;

    open spec fn view(&self) -> ClientCommandView {
        match self {
            ClientCommand::Ignore => ClientCommandView::Ignore,
            ClientCommand::Send(message) => ClientCommandView::Send(message@),
            ClientCommand::Close => ClientCommandView::Close,
            ClientCommand::Malformed(usage) => ClientCommandView::Malformed(*usage),
            ClientCommand::UnknownInstruction => ClientCommandView::UnknownInstruction,
            ClientCommand::NotAnInstruction => ClientCommandView::NotAnInstruction,
        }
    }
}

/// The command in an operator's line: `close` as the first word, whatever
/// follows it, asks for a shutdown.
pub open spec fn operator_command_of(tokens: Seq<TokenView>) -> OperatorCommand {
    if tokens.len() == 0 {
        OperatorCommand::Empty
    } else if tokens[0] == TokenView::General("close"@) {
        OperatorCommand::Shutdown
    } else {
        OperatorCommand::Invalid
    }
}

/// The command of `send`: it takes two strings, the recipient and the text.
pub open spec fn send_command_of(tokens: Seq<TokenView>) -> ClientCommandView {
    if tokens.len() == 3 && tokens[1] is String && tokens[2] is String {
        ClientCommandView::Send(ClientMessageView::TextTo(tokens[1]->String_0, tokens[2]->String_0))
    } else {
        ClientCommandView::Malformed(Usage::Send)
    }
}

/// The command of `set_name`: it takes one string, the name.
pub open spec fn set_name_command_of(tokens: Seq<TokenView>) -> ClientCommandView {
    if tokens.len() == 2 && tokens[1] is String {
        ClientCommandView::Send(ClientMessageView::SetUsername(tokens[1]->String_0))
    } else {
        ClientCommandView::Malformed(Usage::SetName)
    }
}

/// The command in a user's line. The first token is the instruction;
/// `close` and `usernames` take no arguments and ignore what follows.
pub open spec fn client_command_of(tokens: Seq<TokenView>) -> ClientCommandView {
    if tokens.len() == 0 {
        ClientCommandView::Ignore
    } else {
        match tokens[0] {
            TokenView::General(instruction) => if instruction == "send"@ {
                send_command_of(tokens)
            } else if instruction == "set_name"@ {
                set_name_command_of(tokens)
            } else if instruction == "close"@ {
                ClientCommandView::Close
            } else if instruction == "usernames"@ {
                ClientCommandView::Send(ClientMessageView::GetUsernames)
            } else {
                ClientCommandView::UnknownInstruction
            },
            _ => ClientCommandView::NotAnInstruction,
        }
    }
}

/// What to tell the user about a line that gave no command to carry out.
pub open spec fn complaint_of(command: ClientCommandView) -> Option<Seq<char>> {
    match command {
        ClientCommandView::Malformed(Usage::Send) => Some(
            "Grammar is not correct, should be: send \"<username>\" \"<message>\""@,
        ),
        ClientCommandView::Malformed(Usage::SetName) => Some(
            "Grammar is not correct, should be: set_name \"<username>\""@,
        ),
        ClientCommandView::UnknownInstruction => Some(
            "Invalid instruction, available instructions are: send, set_name, usernames, close"@,
        ),
        ClientCommandView::NotAnInstruction => Some(
            "Instruction is not grammatically correct, please try again"@,
        ),
        _ => None,
    }
}

/// Whether the word is the given instruction.
fn is_word(word: &String, instruction: &str) -> (yes: bool)
    ensures
        yes == (word@ == instruction@),
{
    let expected = instruction.to_string();
    *word == expected
}

/// Reads the command of an operator's line from its tokens.
pub fn operator_command(tokens: &Vec<InputToken>) -> (command: OperatorCommand)
    ensures
        command == operator_command_of(crate::logic::input_parser::tokens_of(tokens@)),
{
    if tokens.len() == 0 {
        return OperatorCommand::Empty;
    }
    match &tokens[0] {
        InputToken::General(word) => if is_word(word, "close") {
            OperatorCommand::Shutdown
        } else {
            OperatorCommand::Invalid
        },
        _ => OperatorCommand::Invalid,
    }
}

/// Reads the command of a user's line from its tokens.
pub fn client_command(tokens: &Vec<InputToken>) -> (command: ClientCommand)
    ensures
        command@ == client_command_of(crate::logic::input_parser::tokens_of(tokens@)),
{
    if tokens.len() == 0 {
        return ClientCommand::Ignore;
    }
    match &tokens[0] {
        InputToken::General(instruction) => {
            if is_word(instruction, "send") {
                if tokens.len() != 3 {
                    return ClientCommand::Malformed(Usage::Send);
                }
                match (&tokens[1], &tokens[2]) {
                    (InputToken::String(recipient), InputToken::String(text)) => {
                        ClientCommand::Send(
                            ClientToServerMessage::TextTo(recipient.clone(), text.clone()),
                        )
                    },
                    _ => ClientCommand::Malformed(Usage::Send),
                }
            } else if is_word(instruction, "set_name") {
                if tokens.len() != 2 {
                    return ClientCommand::Malformed(Usage::SetName);
                }
                match &tokens[1] {
                    InputToken::String(name) => ClientCommand::Send(
                        ClientToServerMessage::SetUsername(name.clone()),
                    ),
                    _ => ClientCommand::Malformed(Usage::SetName),
                }
            } else if is_word(instruction, "close") {
                ClientCommand::Close
            } else if is_word(instruction, "usernames") {
                ClientCommand::Send(ClientToServerMessage::GetUsernames)
            } else {
                ClientCommand::UnknownInstruction
            }
        },
        _ => ClientCommand::NotAnInstruction,
    }
}

impl ClientCommand {
    /// What to tell the user, if the line gave no command to carry out.
    pub fn complaint(&self) -> (text: Option<String>)
        ensures
            match complaint_of(self@) {
                Some(expected) => text matches Some(given) && given@ == expected,
                None => text is None,
            },
    {
        match self {
            ClientCommand::Malformed(Usage::Send) => Some(
                "Grammar is not correct, should be: send \"<username>\" \"<message>\"".to_string(),
            ),
            ClientCommand::Malformed(Usage::SetName) => Some(
                "Grammar is not correct, should be: set_name \"<username>\"".to_string(),
            ),
            ClientCommand::UnknownInstruction => Some(
                "Invalid instruction, available instructions are: send, set_name, usernames, close".to_string(),
            ),
            ClientCommand::NotAnInstruction => Some(
                "Instruction is not grammatically correct, please try again".to_string(),
            ),
            _ => None,
        }
    }
}

} // verus!
