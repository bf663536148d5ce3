use net_chat::client::{
    describe_message, input_is_defined, parse_input, registration_command, ClientAction, Incoming,
};
use net_chat::launch::{parse_args, Launch};
use net_chat::protocol::{Command, ServerResponse};

#[test]
fn typed_commands() {
    assert_eq!(parse_input("quit\n"), ClientAction::Quit);
    assert_eq!(parse_input("  QuIt "), ClientAction::Quit);
    assert_eq!(parse_input("/Scream/hello all/"), ClientAction::Send(Command::Scream("hello all".to_string())));
    assert_eq!(
        parse_input("/Whisper/Bob/hi there/\r\n"),
        ClientAction::Send(Command::Whisper("Bob".to_string(), "hi there".to_string()))
    );
    assert_eq!(parse_input("/ListUsers/"), ClientAction::Send(Command::ListUsers));
    assert_eq!(
        parse_input("/SendFile/Bob/notes.txt/"),
        ClientAction::SendFile("Bob".to_string(), "notes.txt".to_string())
    );
}

#[test]
fn typed_mistakes_get_notices() {
    assert_eq!(
        parse_input("/Whisper/Bob"),
        ClientAction::Notice("Invalid Whisper command. Use: /Whisper/recipient/message/".to_string())
    );
    assert_eq!(
        parse_input("/SendFile/Bob"),
        ClientAction::Notice("Invalid SendFile command. Use: /SendFile/recipient/filename".to_string())
    );
    assert_eq!(
        parse_input("/Dance/now/"),
        ClientAction::Notice("Unknown command. Use /Scream/, /Whisper/, /ListUsers/, or /SendFile/".to_string())
    );
    assert_eq!(
        parse_input("hello"),
        ClientAction::Notice("Invalid command format. Use: `/Command/Message/`, `/Whisper/<recipient>/Message/`, `/ListUsers/` or `/SendFile/<recipient>/<filename>/`".to_string())
    );
    assert_eq!(parse_input("a/Scream/b"), ClientAction::Send(Command::Scream("b".to_string())));
}

#[test]
fn broadcast_and_registration_are_shown() {
    assert_eq!(
        describe_message(Ok(Command::Scream("Message received".to_string()))),
        Incoming::Show("\nBroadcast: Message received".to_string())
    );
    assert_eq!(
        describe_message(Err(ServerResponse::RegistrationSuccessful)),
        Incoming::Show("\nRegistration successful".to_string())
    );
}

#[test]
fn incoming_messages_are_described() {
    assert_eq!(
        describe_message(Ok(Command::Whisper("Ann".to_string(), "psst".to_string()))),
        Incoming::Show("\nWhisper from Ann: psst".to_string())
    );
    assert_eq!(
        describe_message(Err(ServerResponse::UserList(vec!["Ann".to_string(), "Ben".to_string()]))),
        Incoming::Show("\nOnline users: Ann, Ben".to_string())
    );
    assert_eq!(
        describe_message(Err(ServerResponse::UserList(vec![]))),
        Incoming::Show("\nOnline users: ".to_string())
    );
    assert_eq!(
        describe_message(Err(ServerResponse::Message("x".to_string()))),
        Incoming::Show("\nServer: x".to_string())
    );
    assert_eq!(
        describe_message(Err(ServerResponse::FileTransferStarted("f".to_string()))),
        Incoming::Show("\nReceiving file: f".to_string())
    );
    assert_eq!(
        describe_message(Err(ServerResponse::FileTransferComplete("f".to_string()))),
        Incoming::Show("\nFile received: f".to_string())
    );
    assert_eq!(
        describe_message(Err(ServerResponse::FileTransferFailed("e".to_string()))),
        Incoming::Show("\nFile transfer failed: e".to_string())
    );
    assert_eq!(describe_message(Ok(Command::ListUsers)), Incoming::Ignore);
}

#[test]
fn received_file_is_saved() {
    let content = b"Content of the received file.".to_vec();
    let command = Command::SendFile("Bob".to_string(), "received_file.txt".to_string(), content.clone());
    assert_eq!(
        describe_message(Ok(command)),
        Incoming::SaveFile("Bob".to_string(), "received_file.txt".to_string(), content)
    );
}

#[test]
fn command_line_modes() {
    let args = |v: &[&str]| v.iter().map(|s| s.to_string()).collect::<Vec<String>>();
    assert_eq!(parse_args(&args(&["net_chat"])), Launch::Usage);
    assert_eq!(
        parse_args(&args(&["net_chat", "server"])),
        Launch::Server { tcp_address: "0.0.0.0:8080".to_string(), udp_address: "0.0.0.0:8081".to_string() }
    );
    assert_eq!(parse_args(&args(&["net_chat", "client"])), Launch::ClientUsage);
    assert_eq!(
        parse_args(&args(&["net_chat", "client", "10.0.0.2"])),
        Launch::Client { address: "10.0.0.2:8080".to_string(), use_udp: false }
    );
    assert_eq!(
        parse_args(&args(&["net_chat", "client", "10.0.0.2", "udp"])),
        Launch::Client { address: "10.0.0.2:8081".to_string(), use_udp: true }
    );
    assert_eq!(parse_args(&args(&["net_chat", "dance"])), Launch::Invalid);
}

#[test]
fn registration_trims_the_typed_name() {
    assert_eq!(registration_command("  Alice \n"), Command::Register("Alice".to_string()));
    assert_eq!(registration_command("\n"), Command::Register(String::new()));
}

#[test]
fn scream_without_message_is_not_defined() {
    assert!(!input_is_defined("/Scream"));
    assert!(!input_is_defined(" /Scream \n"));
    assert!(input_is_defined("/Scream/"));
    assert!(input_is_defined("quit"));
    assert!(input_is_defined("hello"));
}
