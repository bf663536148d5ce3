use net_chat::protocol::{classify_message, frame_line, line_payload, send_file, Command, ServerResponse};
use net_chat::roster::{PeerAddr, Roster};
use net_chat::text::{eq_ignore_ascii_case, join_texts, split_text, trim};

#[test]
fn framing_round_trip() {
    let serialized = "{\"Scream\":\"hi\"}";
    let line = frame_line(serialized);
    assert_eq!(line, "{\"Scream\":\"hi\"}\n");
    assert_eq!(line_payload(line.len(), &line), Some(serialized.to_string()));
    assert_eq!(line_payload(0, ""), None);
}

#[test]
fn classify_prefers_commands() {
    assert_eq!(
        classify_message(Some(Command::ListUsers), Some(ServerResponse::RegistrationSuccessful)),
        Some(Ok(Command::ListUsers))
    );
    assert_eq!(
        classify_message(None, Some(ServerResponse::RegistrationSuccessful)),
        Some(Err(ServerResponse::RegistrationSuccessful))
    );
    assert_eq!(classify_message(None, None), None);
}

#[test]
fn send_file_builds_command() {
    let content = b"This is a test file content.".to_vec();
    assert_eq!(
        send_file(content.clone(), "Alice", "test_file.txt"),
        Command::SendFile("Alice".to_string(), "test_file.txt".to_string(), content)
    );
}

#[test]
fn text_helpers_match_std() {
    for s in ["", "  ", " a b ", "\t\u{3000}x\u{2029}", "\u{85}y\u{a0}", "z"] {
        assert_eq!(trim(s), s.trim());
    }
    for s in ["", "/", "a/b", "/Scream/x/", "//", "a//b/"] {
        let ours = split_text(s, '/');
        let theirs: Vec<String> = s.split('/').map(|p| p.to_string()).collect();
        assert_eq!(ours, theirs);
    }
    assert!(eq_ignore_ascii_case("QUIT", "quit"));
    assert!(!eq_ignore_ascii_case("quit!", "quit"));
    assert!(!eq_ignore_ascii_case("Ä", "ä"));
    assert_eq!(join_texts(&vec!["a".to_string(), "b".to_string(), "c".to_string()], ", "), "a, b, c");
}

#[test]
fn roster_insert_lookup_remove() {
    let a = PeerAddr { ip: 1, port: 1, v6: false, flowinfo: 0, scope_id: 0 };
    let b = PeerAddr { ip: 2, port: 2, v6: true, flowinfo: 3, scope_id: 4 };
    let mut r = Roster::new();
    r.insert("x".to_string(), a);
    r.insert("y".to_string(), b);
    assert_eq!(r.lookup("x"), Some(a));
    r.insert("x".to_string(), b);
    assert_eq!(r.lookup("x"), Some(b));
    assert_eq!(r.names(), vec!["x".to_string(), "y".to_string()]);
    r.remove("x");
    assert_eq!(r.lookup("x"), None);
    assert_eq!(r.lookup("y"), Some(b));
    assert!(r.contains_addr(b));
    assert!(!r.contains_addr(a));
}
