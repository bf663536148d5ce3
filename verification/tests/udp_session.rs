use net_chat::protocol::{Command, Delivery, Payload, ServerResponse};
use net_chat::roster::{PeerAddr, Roster};
use net_chat::udp::{
    broadcast_message, datagram_text, find_client_by_addr, handle_udp_command, handle_udp_datagram,
    Datagram,
};

fn addr(port: u16) -> PeerAddr {
    PeerAddr { ip: 0x7f00_0001, port, v6: false, flowinfo: 0, scope_id: 0 }
}

fn message(to: PeerAddr, text: &str) -> Delivery {
    Delivery { to, payload: Payload::Response(ServerResponse::Message(text.to_string())) }
}

fn scream(to: PeerAddr, text: &str) -> Delivery {
    Delivery { to, payload: Payload::Command(Command::Scream(text.to_string())) }
}

#[test]
fn test_udp_client_registration() {
    let mut roster = Roster::new();
    let me = addr(40000);
    let out = handle_udp_command(&mut roster, me, Command::Register("TestUser".to_string()));
    assert!(matches!(out[0].payload, Payload::Response(ServerResponse::RegistrationSuccessful)));
    assert_eq!(out[0].to, me);
    assert_eq!(out[1], scream(me, "User TestUser has joined the chat"));
    assert_eq!(out.len(), 2);
}

#[test]
fn udp_registration_refusals() {
    let mut roster = Roster::new();
    let (a, b) = (addr(1), addr(2));
    handle_udp_command(&mut roster, a, Command::Register("Ann".to_string()));
    let out = handle_udp_command(&mut roster, a, Command::Register("Other".to_string()));
    assert_eq!(out, vec![message(a, "Already registered")]);
    let out = handle_udp_command(&mut roster, b, Command::Register("Ann".to_string()));
    assert_eq!(out, vec![message(b, "Name already taken")]);
    assert_eq!(roster.len(), 1);
}

#[test]
fn udp_scream_whisper_list_and_leave() {
    let mut roster = Roster::new();
    let (a, b, c) = (addr(1), addr(2), addr(3));
    handle_udp_command(&mut roster, a, Command::Register("Ann".to_string()));
    let out = handle_udp_command(&mut roster, b, Command::Register("Ben".to_string()));
    assert_eq!(out.len(), 3);
    assert_eq!(out[1], scream(a, "User Ben has joined the chat"));
    assert_eq!(out[2], scream(b, "User Ben has joined the chat"));

    let out = handle_udp_command(&mut roster, a, Command::Scream("hi".to_string()));
    assert_eq!(out, vec![scream(b, "Ann: hi")]);

    let out = handle_udp_command(&mut roster, b, Command::Whisper("Ann".to_string(), "psst".to_string()));
    assert_eq!(
        out,
        vec![Delivery { to: a, payload: Payload::Command(Command::Whisper("Ben".to_string(), "psst".to_string())) }]
    );
    let out = handle_udp_command(&mut roster, b, Command::Whisper("Cy".to_string(), "psst".to_string()));
    assert_eq!(out, vec![message(b, "User Cy not found")]);

    let out = handle_udp_command(&mut roster, c, Command::ListUsers);
    assert_eq!(out, vec![message(c, "Not registered")]);
    let out = handle_udp_command(&mut roster, c, Command::Scream("x".to_string()));
    assert_eq!(out, vec![message(c, "Not registered")]);

    let out = handle_udp_command(&mut roster, a, Command::ListUsers);
    assert_eq!(
        out,
        vec![Delivery {
            to: a,
            payload: Payload::Response(ServerResponse::UserList(vec!["Ann".to_string(), "Ben".to_string()])),
        }]
    );

    let out = handle_udp_command(&mut roster, c, Command::Disconnect);
    assert!(out.is_empty());
    let out = handle_udp_command(&mut roster, a, Command::Disconnect);
    assert_eq!(out, vec![scream(b, "User Ann has left the chat")]);
    assert!(find_client_by_addr(&roster, a).is_none());
    assert_eq!(find_client_by_addr(&roster, b), Some(("Ben".to_string(), b)));
}

#[test]
fn udp_file_transfer() {
    let mut roster = Roster::new();
    let (a, b) = (addr(1), addr(2));
    handle_udp_command(&mut roster, a, Command::Register("Ann".to_string()));
    handle_udp_command(&mut roster, b, Command::Register("Ben".to_string()));
    let out = handle_udp_command(
        &mut roster,
        a,
        Command::SendFile("Ben".to_string(), "f.bin".to_string(), vec![0, 255, 7]),
    );
    assert_eq!(
        out,
        vec![
            Delivery { to: b, payload: Payload::Response(ServerResponse::FileTransferStarted("f.bin".to_string())) },
            Delivery {
                to: b,
                payload: Payload::Command(Command::SendFile("Ann".to_string(), "f.bin".to_string(), vec![0, 255, 7])),
            },
            Delivery { to: b, payload: Payload::Response(ServerResponse::FileTransferComplete("f.bin".to_string())) },
        ]
    );
    let out = handle_udp_command(
        &mut roster,
        a,
        Command::SendFile("Nobody".to_string(), "f.bin".to_string(), vec![]),
    );
    assert_eq!(
        out,
        vec![Delivery {
            to: a,
            payload: Payload::Response(ServerResponse::FileTransferFailed("User Nobody not found".to_string())),
        }]
    );
}

#[test]
fn udp_invalid_datagram_gets_notice() {
    let mut roster = Roster::new();
    let a = addr(1);
    let out = handle_udp_datagram(&mut roster, a, Datagram::NotCommand);
    assert_eq!(out, vec![message(a, "Invalid command format")]);
    let out = handle_udp_datagram(&mut roster, a, Datagram::Command(Command::ListUsers));
    assert_eq!(out, vec![message(a, "Not registered")]);
    let out = handle_udp_datagram(&mut roster, a, Datagram::Command(Command::Register("Ann".to_string())));
    assert_eq!(out.len(), 2);
    let out = handle_udp_datagram(&mut roster, a, Datagram::NotText);
    assert!(out.is_empty());
    assert_eq!(roster.len(), 1);
}

#[test]
fn udp_broadcast_excludes_address() {
    let mut roster = Roster::new();
    roster.insert("A".to_string(), addr(1));
    roster.insert("B".to_string(), addr(2));
    let out = broadcast_message(&roster, "m", Some(addr(2)));
    assert_eq!(out, vec![scream(addr(1), "m")]);
    let out = broadcast_message(&roster, "m", None);
    assert_eq!(out, vec![scream(addr(1), "m"), scream(addr(2), "m")]);
}

#[test]
fn datagram_text_checks_utf8() {
    assert_eq!(datagram_text("h\u{e9}llo".as_bytes().to_vec()), Some("h\u{e9}llo".to_string()));
    assert_eq!(datagram_text(vec![0xff, 0x41]), None);
    assert_eq!(datagram_text(vec![0xc3]), None);
    assert_eq!(datagram_text(vec![]), Some(String::new()));
}
