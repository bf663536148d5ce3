use std::hash::{DefaultHasher, Hash, Hasher};
use net_chat::protocol::{Command, Delivery, Payload, ServerResponse};
use net_chat::roster::{PeerAddr, Roster};
use net_chat::server::{
    broadcast_message, calculate_hash, handle_client_command, handle_client_eof,
    handle_file_transfer, whisper_message,
};

fn addr(port: u16) -> PeerAddr {
    PeerAddr { ip: 0x7f00_0001, port, v6: false, flowinfo: 0, scope_id: 0 }
}

fn register(roster: &mut Roster, me: PeerAddr, name: &mut String, who: &str) -> Vec<Delivery> {
    let (out, keep) = handle_client_command(roster, me, name, Command::Register(who.to_string()));
    assert!(keep);
    out
}

#[test]
fn server_test_multiple_clients() {
    let mut roster = Roster::new();
    let (alice, bob) = (addr(5001), addr(5002));
    let (mut alice_name, mut bob_name) = (String::new(), String::new());
    let out = register(&mut roster, alice, &mut alice_name, "Alice");
    assert_eq!(out, vec![Delivery { to: alice, payload: Payload::Response(ServerResponse::RegistrationSuccessful) }]);
    let out = register(&mut roster, bob, &mut bob_name, "Bob");
    assert_eq!(out, vec![Delivery { to: bob, payload: Payload::Response(ServerResponse::RegistrationSuccessful) }]);

    let (out, keep) = handle_client_command(
        &mut roster,
        alice,
        &mut alice_name,
        Command::Scream("Hello, Bob!".to_string()),
    );
    assert!(keep);
    assert_eq!(
        out,
        vec![Delivery { to: bob, payload: Payload::Command(Command::Scream("Alice: Hello, Bob!".to_string())) }]
    );

    let (out, keep) = handle_client_command(&mut roster, alice, &mut alice_name, Command::Disconnect);
    assert!(out.is_empty());
    assert!(!keep);
    let (_, keep) = handle_client_command(&mut roster, bob, &mut bob_name, Command::Disconnect);
    assert!(!keep);
    assert_eq!(roster.len(), 0);
}

#[test]
fn integration_tests_test_multiple_clients() {
    let mut roster = Roster::new();
    let (alice, bob) = (addr(6001), addr(6002));
    let (mut alice_name, mut bob_name) = (String::new(), String::new());
    register(&mut roster, alice, &mut alice_name, "Alice");
    register(&mut roster, bob, &mut bob_name, "Bob");
    let (out, _) = handle_client_command(&mut roster, alice, &mut alice_name, Command::Scream("Hello, Bob!".to_string()));
    assert_eq!(out.len(), 1);
    assert!(matches!(&out[0].payload, Payload::Command(Command::Scream(m)) if m == "Alice: Hello, Bob!"));
    assert_eq!(out[0].to, bob);
    let (out, _) = handle_client_command(&mut roster, bob, &mut bob_name, Command::Scream("Hi, Alice!".to_string()));
    assert_eq!(out.len(), 1);
    assert!(matches!(&out[0].payload, Payload::Command(Command::Scream(m)) if m == "Bob: Hi, Alice!"));
    assert_eq!(out[0].to, alice);
}

#[test]
fn server_test_list_users() {
    let mut roster = Roster::new();
    let (alice, bob) = (addr(7001), addr(7002));
    let (mut alice_name, mut bob_name) = (String::new(), String::new());
    register(&mut roster, alice, &mut alice_name, "Alice");
    register(&mut roster, bob, &mut bob_name, "Bob");
    let (out, keep) = handle_client_command(&mut roster, alice, &mut alice_name, Command::ListUsers);
    assert!(keep);
    assert_eq!(out.len(), 1);
    assert_eq!(out[0].to, alice);
    match &out[0].payload {
        Payload::Response(ServerResponse::UserList(users)) => {
            assert!(users.contains(&"Alice".to_string()));
            assert!(users.contains(&"Bob".to_string()));
            assert_eq!(users.len(), 2);
        }
        other => panic!("Did not receive expected UserList response. Got: {:?}", other),
    }
}

#[test]
fn test_file_transfer() {
    let mut roster = Roster::new();
    let (alice, bob) = (addr(8001), addr(8002));
    let (mut alice_name, mut bob_name) = (String::new(), String::new());
    register(&mut roster, alice, &mut alice_name, "Alice");
    register(&mut roster, bob, &mut bob_name, "Bob");
    let test_content = b"Hello, this is a test file content.".to_vec();
    let (out, _) = handle_client_command(
        &mut roster,
        alice,
        &mut alice_name,
        Command::SendFile("Bob".to_string(), "test.txt".to_string(), test_content.clone()),
    );
    assert_eq!(
        out,
        vec![
            Delivery { to: bob, payload: Payload::Response(ServerResponse::FileTransferStarted("test.txt".to_string())) },
            Delivery {
                to: bob,
                payload: Payload::Command(Command::SendFile("Alice".to_string(), "test.txt".to_string(), test_content)),
            },
            Delivery { to: bob, payload: Payload::Response(ServerResponse::FileTransferComplete("test.txt".to_string())) },
            Delivery { to: alice, payload: Payload::Response(ServerResponse::Message("File sent to Bob".to_string())) },
        ]
    );
}

#[test]
fn file_transfer_to_unknown_recipient_fails() {
    let mut roster = Roster::new();
    let alice = addr(8101);
    let mut name = String::new();
    register(&mut roster, alice, &mut name, "Alice");
    let out = handle_file_transfer(&roster, alice, "Alice", "Carol", "a.txt", vec![1, 2, 3]);
    assert_eq!(
        out,
        vec![Delivery {
            to: alice,
            payload: Payload::Response(ServerResponse::FileTransferFailed("User Carol not found".to_string())),
        }]
    );
}

#[test]
fn unregistered_client_is_asked_to_register() {
    let mut roster = Roster::new();
    let me = addr(9001);
    let mut name = String::new();
    let please = "Please register first".to_string();
    let (out, keep) = handle_client_command(&mut roster, me, &mut name, Command::Scream("hi".to_string()));
    assert!(keep);
    assert_eq!(out, vec![Delivery { to: me, payload: Payload::Command(Command::Scream(please.clone())) }]);
    let (out, _) = handle_client_command(&mut roster, me, &mut name, Command::Whisper("Bob".to_string(), "hi".to_string()));
    assert_eq!(out, vec![Delivery { to: me, payload: Payload::Command(Command::Scream(please.clone())) }]);
    let (out, _) = handle_client_command(
        &mut roster,
        me,
        &mut name,
        Command::SendFile("Bob".to_string(), "f".to_string(), vec![]),
    );
    assert_eq!(out, vec![Delivery { to: me, payload: Payload::Response(ServerResponse::Message(please)) }]);
    assert_eq!(roster.len(), 0);
}

#[test]
fn whisper_reaches_recipient_or_reports_unknown() {
    let mut roster = Roster::new();
    let (alice, bob) = (addr(9101), addr(9102));
    let (mut alice_name, mut bob_name) = (String::new(), String::new());
    register(&mut roster, alice, &mut alice_name, "Alice");
    register(&mut roster, bob, &mut bob_name, "Bob");
    let out = whisper_message(&roster, "Alice", "Bob", "psst");
    assert_eq!(
        out,
        vec![Delivery { to: bob, payload: Payload::Command(Command::Whisper("Alice".to_string(), "psst".to_string())) }]
    );
    let out = whisper_message(&roster, "Alice", "Zed", "psst");
    assert_eq!(
        out,
        vec![Delivery { to: alice, payload: Payload::Response(ServerResponse::Message("User Zed not found".to_string())) }]
    );
}

#[test]
fn broadcast_skips_sender_only() {
    let mut roster = Roster::new();
    roster.insert("A".to_string(), addr(1));
    roster.insert("B".to_string(), addr(2));
    roster.insert("C".to_string(), addr(3));
    let out = broadcast_message(&roster, "B", "yo");
    let targets: Vec<PeerAddr> = out.iter().map(|d| d.to).collect();
    assert_eq!(targets, vec![addr(1), addr(3)]);
    for d in &out {
        assert_eq!(d.payload, Payload::Command(Command::Scream("B: yo".to_string())));
    }
}

#[test]
fn eof_removes_registered_name_only() {
    let mut roster = Roster::new();
    roster.insert("A".to_string(), addr(1));
    handle_client_eof(&mut roster, "");
    assert_eq!(roster.len(), 1);
    handle_client_eof(&mut roster, "A");
    assert_eq!(roster.len(), 0);
}

#[test]
fn reregistering_a_name_moves_it() {
    let mut roster = Roster::new();
    let (a, b) = (addr(11), addr(12));
    let (mut n1, mut n2) = (String::new(), String::new());
    register(&mut roster, a, &mut n1, "Sam");
    register(&mut roster, b, &mut n2, "Sam");
    assert_eq!(roster.len(), 1);
    assert_eq!(roster.lookup("Sam"), Some(b));
}

#[test]
fn hash_depends_on_content() {
    let a = calculate_hash(&b"abc".to_vec());
    let b = calculate_hash(&b"abc".to_vec());
    let c = calculate_hash(&b"abd".to_vec());
    assert_eq!(a, b);
    assert_ne!(a, c);
    let mut s = DefaultHasher::new();
    b"abc".to_vec().hash(&mut s);
    assert_eq!(a, s.finish());
    let mut e = DefaultHasher::new();
    Vec::<u8>::new().hash(&mut e);
    assert_eq!(calculate_hash(&Vec::new()), e.finish());
}
