//! The decisions of the UDP chat server. A client is known by the address its
//! datagrams come from; each datagram carries one command, and the server answers
//! with datagrams to that address and to other registered clients.
use vstd::prelude::*;
use crate::protocol::{
    command_to, deliveries, fanout, lemma_fanout_covers, lemma_fanout_reaches_all, lemma_fanout_targets, response_to,
    send_command_to, send_file, send_response_to, single,
    Command, CommandView, Delivery, DeliveryView, PayloadView, ResponseView, ServerResponse,
};
use crate::roster::{
    addr_index, addrs_unique, has_addr, has_name, lemma_lookup_after_insert,
    lemma_addr_index, lemma_lookup_after_remove, lemma_name_index, lookup_addr, lookup_name, name_index, name_list, names_unique,
    with_entry, without_name, EntryView, PeerAddr, Roster,
};
use crate::server::{not_found_text, scream_text};
use crate::text::concat3;
use vstd::utf8::{decode_utf8, valid_utf8};

verus! {

/// Picks out the entry at `exclude`, if there is an address to exclude.
pub open spec fn excluding(exclude: Option<PeerAddr>) -> spec_fn(EntryView) -> bool {
    |e: EntryView| Some(e.1) == exclude
}

/// A broadcast of `message` to every registered client except the one at
/// `exclude`, in table order.
pub open spec fn udp_broadcast(s: Seq<EntryView>, message: Seq<char>, exclude: Option<PeerAddr>) -> Seq<
    DeliveryView,
> {
    fanout(
        s,
        excluding(exclude),
        PayloadView::Command(CommandView::Scream(message)),
    )
}

/// The notice to a client that is not registered.
pub open spec fn not_registered(src: PeerAddr) -> Seq<DeliveryView> {
    seq![response_to(src, ResponseView::Message("Not registered"@))]
}

/// The table after the command `cmd` from the address `src`, and the datagrams
/// the server sends, in order.
pub open spec fn udp_step(s: Seq<EntryView>, src: PeerAddr, cmd: CommandView) -> (Seq<EntryView>, Seq<DeliveryView>) {
    match cmd {
        CommandView::Register(n) => if has_addr(s, src) {
            (s, seq![response_to(src, ResponseView::Message("Already registered"@))])
        } else if has_name(s, n) {
            (s, seq![response_to(src, ResponseView::Message("Name already taken"@))])
        } else {
            let s2 = with_entry(s, n, src);
            (
                s2,
                seq![response_to(src, ResponseView::RegistrationSuccessful)] + udp_broadcast(
                    s2,
                    "User "@ + n + " has joined the chat"@,
                    None,
                ),
            )
        },
        CommandView::Scream(m) => match lookup_addr(s, src) {
            Some(e) => (s, udp_broadcast(s, scream_text(e.0, m), Some(src))),
            None => (s, not_registered(src)),
        },
        CommandView::Whisper(r, m) => match lookup_addr(s, src) {
            Some(e) => if has_name(s, r) {
                (s, seq![command_to(lookup_name(s, r)->0, CommandView::Whisper(e.0, m))])
            } else {
                (s, seq![response_to(src, ResponseView::Message(not_found_text(r)))])
            },
            None => (s, not_registered(src)),
        },
        CommandView::ListUsers => match lookup_addr(s, src) {
            Some(_) => (s, seq![response_to(src, ResponseView::UserList(name_list(s)))]),
            None => (s, not_registered(src)),
        },
        CommandView::SendFile(r, f, c) => match lookup_addr(s, src) {
            Some(e) => if has_name(s, r) {
                let to = lookup_name(s, r)->0;
                (
                    s,
                    seq![
                        response_to(to, ResponseView::FileTransferStarted(f)),
                        command_to(to, CommandView::SendFile(e.0, f, c)),
                        response_to(to, ResponseView::FileTransferComplete(f)),
                    ],
                )
            } else {
                (s, seq![response_to(src, ResponseView::FileTransferFailed(not_found_text(r)))])
            },
            None => (s, not_registered(src)),
        },
        CommandView::Disconnect => match lookup_addr(s, src) {
            Some(e) => {
                let s2 = without_name(s, e.0);
                (s2, udp_broadcast(s2, "User "@ + e.0 + " has left the chat"@, None))
            },
            None => (s, Seq::<DeliveryView>::empty()),
        },
    }
}

/// Removing a name keeps the addresses that remain distinct.
proof fn lemma_remove_keeps_addrs_unique(s: Seq<EntryView>, name: Seq<char>)
    requires
        addrs_unique(s),
    ensures
        addrs_unique(without_name(s, name)),
        without_name(s, name).len() == if has_name(s, name) {
            s.len() - 1
        } else {
            s.len() as int
        },
        forall|i: int| 0 <= i < without_name(s, name).len() ==> has_addr(s, #[trigger] without_name(s, name)[i].1),
{
    let t = without_name(s, name);
    if has_name(s, name) {
        lemma_name_index(s, name);
        let k = name_index(s, name);
        assert forall|a: int, b: int| 0 <= a < b < t.len() implies #[trigger] t[a].1 != #[trigger] t[b].1 by {
            let a0 = if a < k { a } else { a + 1 };
            let b0 = if b < k { b } else { b + 1 };
            assert(t[a] == s[a0]);
            assert(t[b] == s[b0]);
            assert(s[a0].1 != s[b0].1);
        }
        assert forall|i: int| 0 <= i < t.len() implies has_addr(s, #[trigger] t[i].1) by {
            let i0 = if i < k { i } else { i + 1 };
            assert(t[i] == s[i0]);
        }
    } else {
        assert forall|i: int| 0 <= i < t.len() implies has_addr(s, #[trigger] t[i].1) by {
            assert(t[i] == s[i]);
        }
    }
}

/// The UDP table never holds one name twice nor two names for one address:
/// every command keeps both properties.
pub proof fn lemma_udp_keeps_table_consistent(s: Seq<EntryView>, src: PeerAddr, cmd: CommandView)
    requires
        names_unique(s),
        addrs_unique(s),
    ensures
        names_unique(udp_step(s, src, cmd).0),
        addrs_unique(udp_step(s, src, cmd).0),
{
    match cmd {
        CommandView::Register(n) => {
            if !has_addr(s, src) && !has_name(s, n) {
                lemma_lookup_after_insert(s, n, src, n);
                let t = s.push((n, src));
                assert(with_entry(s, n, src) == t);
                assert forall|a: int, b: int| 0 <= a < b < t.len() implies #[trigger] t[a].1 != #[trigger] t[b].1 by {
                    if b == s.len() {
                        assert(s[a].1 != src);
                    } else {
                        assert(s[a].1 != s[b].1);
                    }
                }
            }
        },
        CommandView::Disconnect => {
            if has_addr(s, src) {
                lemma_addr_index(s, src);
                let e = s[addr_index(s, src)];
                lemma_lookup_after_remove(s, e.0, e.0);
                lemma_remove_keeps_addrs_unique(s, e.0);
            }
        },
        _ => {},
    }
}

/// A client that registers a name nobody has, from an address not yet
/// registered, is then found by its address and by its name; it is told that it
/// is registered, and then every registered client, itself included, hears that
/// it joined.
pub proof fn lemma_udp_register_then_find(s: Seq<EntryView>, src: PeerAddr, n: Seq<char>)
    requires
        names_unique(s),
        !has_addr(s, src),
        !has_name(s, n),
    ensures
        lookup_addr(udp_step(s, src, CommandView::Register(n)).0, src) == Some((n, src)),
        lookup_name(udp_step(s, src, CommandView::Register(n)).0, n) == Some(src),
        udp_step(s, src, CommandView::Register(n)).1.len() == s.len() + 2,
        udp_step(s, src, CommandView::Register(n)).1[0] == response_to(
            src,
            ResponseView::RegistrationSuccessful,
        ),
        forall|i: int|
            0 <= i <= s.len() ==> #[trigger] udp_step(s, src, CommandView::Register(n)).1[i + 1]
                == command_to(
                udp_step(s, src, CommandView::Register(n)).0[i].1,
                CommandView::Scream("User "@ + n + " has joined the chat"@),
            ),
{
    let t = s.push((n, src));
    assert(with_entry(s, n, src) == t);
    lemma_lookup_after_insert(s, n, src, n);
    let k = s.len() as int;
    assert(t[k].1 == src);
    assert(has_addr(t, src));
    lemma_addr_index(t, src);
    let j = addr_index(t, src);
    assert(j == k) by {
        if j < k {
            assert(s[j].1 == src);
        }
    }
    let p = PayloadView::Command(CommandView::Scream("User "@ + n + " has joined the chat"@));
    lemma_fanout_reaches_all(t, excluding(None), p);
    let out = udp_step(s, src, CommandView::Register(n)).1;
    assert forall|i: int| 0 <= i <= s.len() implies #[trigger] out[i + 1] == command_to(
        t[i].1,
        CommandView::Scream("User "@ + n + " has joined the chat"@),
    ) by {
        assert(out[i + 1] == fanout(t, excluding(None), p)[i]);
    }
}

/// A registration from an address that is already registered, or of a name that
/// is taken, changes nothing and is answered with a notice to the sender alone.
pub proof fn lemma_udp_register_refused(s: Seq<EntryView>, src: PeerAddr, n: Seq<char>)
    requires
        has_addr(s, src) || has_name(s, n),
    ensures
        udp_step(s, src, CommandView::Register(n)).0 == s,
        udp_step(s, src, CommandView::Register(n)).1.len() == 1,
        udp_step(s, src, CommandView::Register(n)).1[0].to == src,
{
}

/// A broadcast never comes back to the address it came from; every datagram of
/// it carries the sender's name and the message to another registered client.
pub proof fn lemma_udp_scream_skips_sender(s: Seq<EntryView>, src: PeerAddr, message: Seq<char>)
    requires
        has_addr(s, src),
    ensures
        forall|i: int|
            0 <= i < udp_step(s, src, CommandView::Scream(message)).1.len() ==> {
                &&& (#[trigger] udp_step(s, src, CommandView::Scream(message)).1[i]).to != src
                &&& udp_step(s, src, CommandView::Scream(message)).1[i].payload == PayloadView::Command(
                    CommandView::Scream(scream_text(s[addr_index(s, src)].0, message)),
                )
                &&& has_addr(s, udp_step(s, src, CommandView::Scream(message)).1[i].to)
            },
{
    lemma_addr_index(s, src);
    let p = PayloadView::Command(CommandView::Scream(scream_text(s[addr_index(s, src)].0, message)));
    lemma_fanout_targets(s, excluding(Some(src)), p);
    let out = udp_step(s, src, CommandView::Scream(message)).1;
    assert forall|i: int| 0 <= i < out.len() implies has_addr(s, #[trigger] out[i].to) by {
        let j = choose|j: int| 0 <= j < s.len() && !excluding(Some(src))(s[j]) && out[i].to == s[j].1;
        assert(s[j].1 == out[i].to);
    }
}

/// A fan-out that skips the entry at `addr` reaches one fewer client than are
/// registered when `addr` is registered, and all of them otherwise.
proof fn lemma_fanout_count_without_addr(s: Seq<EntryView>, addr: PeerAddr, p: PayloadView)
    requires
        addrs_unique(s),
    ensures
        fanout(s, excluding(Some(addr)), p).len() == if has_addr(s, addr) {
            s.len() - 1
        } else {
            s.len() as int
        },
    decreases s.len(),
{
    if s.len() > 0 {
        let t = s.drop_last();
        assert(addrs_unique(t)) by {
            assert forall|a: int, b: int| 0 <= a < b < t.len() implies #[trigger] t[a].1 != #[trigger] t[b].1 by {
                assert(s[a].1 != s[b].1);
            }
        }
        lemma_fanout_count_without_addr(t, addr, p);
        if s.last().1 == addr {
            assert(!has_addr(t, addr)) by {
                if has_addr(t, addr) {
                    let w = choose|w: int| 0 <= w < t.len() && #[trigger] t[w].1 == addr;
                    assert(s[w].1 != s[s.len() - 1].1);
                }
            }
            assert(s[s.len() - 1].1 == addr);
            assert(has_addr(s, addr));
        } else {
            if has_addr(t, addr) {
                let w = choose|w: int| 0 <= w < t.len() && #[trigger] t[w].1 == addr;
                assert(s[w].1 == addr);
                assert(has_addr(s, addr));
            }
            if has_addr(s, addr) {
                let w = choose|w: int| 0 <= w < s.len() && #[trigger] s[w].1 == addr;
                assert(w != s.len() - 1);
                assert(t[w].1 == addr);
                assert(has_addr(t, addr));
            }
        }
    }
}

/// A broadcast from a registered client, in a table whose addresses are
/// distinct, sends exactly one datagram to every other registered client and
/// none to the sender: as many datagrams as there are other clients, each other
/// address getting the text "<sender's name>: <message>". The table is unchanged.
pub proof fn lemma_udp_scream_reaches_everyone_else(s: Seq<EntryView>, src: PeerAddr, message: Seq<char>)
    requires
        addrs_unique(s),
        has_addr(s, src),
    ensures
        udp_step(s, src, CommandView::Scream(message)).0 == s,
        udp_step(s, src, CommandView::Scream(message)).1.len() == s.len() - 1,
        forall|j: int|
            0 <= j < s.len() && s[j].1 != src ==> exists|i: int|
                0 <= i < udp_step(s, src, CommandView::Scream(message)).1.len()
                    && #[trigger] udp_step(s, src, CommandView::Scream(message)).1[i] == command_to(
                    s[j].1,
                    CommandView::Scream(s[addr_index(s, src)].0 + ": "@ + message),
                ),
{
    lemma_addr_index(s, src);
    let p = PayloadView::Command(CommandView::Scream(s[addr_index(s, src)].0 + ": "@ + message));
    lemma_fanout_count_without_addr(s, src, p);
    lemma_fanout_covers(s, excluding(Some(src)), p);
    let out = udp_step(s, src, CommandView::Scream(message)).1;
    assert(out == fanout(s, excluding(Some(src)), p));
    assert forall|j: int| 0 <= j < s.len() && s[j].1 != src implies exists|i: int|
        0 <= i < out.len() && #[trigger] out[i] == command_to(
            s[j].1,
            CommandView::Scream(s[addr_index(s, src)].0 + ": "@ + message),
        ) by {
        assert(!excluding(Some(src))(s[j]));
    }
}

/// A client that is not registered can only register: anything else changes
/// nothing, and is answered "Not registered" unless it is a disconnect, which
/// gets no answer.
pub proof fn lemma_udp_unregistered(s: Seq<EntryView>, src: PeerAddr, cmd: CommandView)
    requires
        !has_addr(s, src),
        !(cmd is Register),
    ensures
        udp_step(s, src, cmd).0 == s,
        cmd is Disconnect ==> udp_step(s, src, cmd).1.len() == 0,
        !(cmd is Disconnect) ==> udp_step(s, src, cmd).1 == not_registered(src),
{
}

/// After a registered client disconnects, its address is no longer registered,
/// and every client that stays hears that it left.
pub proof fn lemma_udp_disconnect_forgets(s: Seq<EntryView>, src: PeerAddr)
    requires
        names_unique(s),
        addrs_unique(s),
        has_addr(s, src),
    ensures
        !has_addr(udp_step(s, src, CommandView::Disconnect).0, src),
        udp_step(s, src, CommandView::Disconnect).0.len() == s.len() - 1,
        udp_step(s, src, CommandView::Disconnect).1.len() == s.len() - 1,
{
    lemma_addr_index(s, src);
    let k = addr_index(s, src);
    let e = s[k];
    assert(has_name(s, e.0));
    lemma_name_index(s, e.0);
    let m = name_index(s, e.0);
    assert(m == k) by {
        if m != k {
            if m < k {
                assert(s[m].0 != s[k].0);
            } else {
                assert(s[k].0 != s[m].0);
            }
        }
    }
    let t = without_name(s, e.0);
    lemma_remove_keeps_addrs_unique(s, e.0);
    assert(!has_addr(t, src)) by {
        if has_addr(t, src) {
            let w = choose|w: int| 0 <= w < t.len() && #[trigger] t[w].1 == src;
            let w0 = if w < k { w } else { w + 1 };
            assert(t[w] == s[w0]);
            assert(w0 != k);
            if w0 < k {
                assert(s[w0].1 != s[k].1);
            } else {
                assert(s[k].1 != s[w0].1);
            }
        }
    }
    let p = PayloadView::Command(CommandView::Scream("User "@ + e.0 + " has left the chat"@));
    lemma_fanout_reaches_all(t, excluding(None), p);
}

/// The first registered client at `addr`: its name and address.
pub fn find_client_by_addr(clients: &Roster, addr: PeerAddr) -> (r: Option<(String, PeerAddr)>)
    ensures
        match r {
            Some(found) => lookup_addr(clients@, addr) == Some((found.0@, found.1)),
            None => lookup_addr(clients@, addr) is None,
        },
{
    match clients.addr_position(addr) {
        Some(i) => Some((clients.name_at(i).clone(), clients.addr_at(i))),
        None => None,
    }
}

/// A broadcast of `message` to every registered client except the one at
/// `exclude`.
pub fn broadcast_message(clients: &Roster, message: &str, exclude: Option<PeerAddr>) -> (out: Vec<
    Delivery,
>)
    ensures
        deliveries(out@) == udp_broadcast(clients@, message@, exclude),
{
    let ghost skip = excluding(exclude);
    let ghost p = PayloadView::Command(CommandView::Scream(message@));
    let mut out: Vec<Delivery> = Vec::new();
    let n = clients.len();
    let mut i: usize = 0;
    while i < n
        invariant
            i <= n,
            n == clients@.len(),
            p == PayloadView::Command(CommandView::Scream(message@)),
            skip == excluding(exclude),
            deliveries(out@) == fanout(clients@.take(i as int), skip, p),
        decreases n - i,
    {
        let ghost prev = deliveries(out@);
        let ghost entry = clients@[i as int];
        let addr = clients.addr_at(i);
        let excluded = match exclude {
            Some(x) => x == addr,
            None => false,
        };
        if !excluded {
            out.push(send_command_to(addr, Command::Scream(String::from_str(message))));
            assert(deliveries(out@) =~= prev.push(DeliveryView { to: entry.1, payload: p }));
        }
        proof {
            let t = clients@.take(i + 1);
            assert(t.drop_last() =~= clients@.take(i as int));
            assert(t.last() == entry);
        }
        i = i + 1;
    }
    assert(clients@.take(n as int) =~= clients@);
    out
}

/// Registration of `name` from `src`.
fn udp_register(clients: &mut Roster, src: PeerAddr, name: String) -> (out: Vec<Delivery>)
    ensures
        final(clients)@ == udp_step(old(clients)@, src, CommandView::Register(name@)).0,
        deliveries(out@) == udp_step(old(clients)@, src, CommandView::Register(name@)).1,
{
    if clients.contains_addr(src) {
        return single(
            send_response_to(src, ServerResponse::Message(String::from_str("Already registered"))),
        );
    }
    if clients.contains_name(name.as_str()) {
        return single(
            send_response_to(src, ServerResponse::Message(String::from_str("Name already taken"))),
        );
    }
    let joined = concat3("User ", name.as_str(), " has joined the chat");
    clients.insert(name, src);
    let mut out = single(send_response_to(src, ServerResponse::RegistrationSuccessful));
    let ghost first = deliveries(out@);
    let mut rest = broadcast_message(clients, joined.as_str(), None);
    let ghost later = deliveries(rest@);
    out.append(&mut rest);
    assert(deliveries(out@) =~= first + later);
    out
}

/// A broadcast from the client at `src`.
fn udp_scream(clients: &Roster, src: PeerAddr, message: String) -> (out: Vec<Delivery>)
    ensures
        deliveries(out@) == udp_step(clients@, src, CommandView::Scream(message@)).1,
{
    match find_client_by_addr(clients, src) {
        Some((sender_name, _)) => {
            let text = concat3(sender_name.as_str(), ": ", message.as_str());
            broadcast_message(clients, text.as_str(), Some(src))
        },
        None => single(
            send_response_to(src, ServerResponse::Message(String::from_str("Not registered"))),
        ),
    }
}

/// A whisper from the client at `src` to `recipient`.
fn udp_whisper(clients: &Roster, src: PeerAddr, recipient: String, message: String) -> (out: Vec<
    Delivery,
>)
    ensures
        deliveries(out@) == udp_step(clients@, src, CommandView::Whisper(recipient@, message@)).1,
{
    match find_client_by_addr(clients, src) {
        Some((sender_name, _)) => match clients.lookup(recipient.as_str()) {
            Some(to) => single(send_command_to(to, Command::Whisper(sender_name, message))),
            None => single(
                send_response_to(
                    src,
                    ServerResponse::Message(concat3("User ", recipient.as_str(), " not found")),
                ),
            ),
        },
        None => single(
            send_response_to(src, ServerResponse::Message(String::from_str("Not registered"))),
        ),
    }
}

/// The list of users, asked for by the client at `src`.
fn udp_list_users(clients: &Roster, src: PeerAddr) -> (out: Vec<Delivery>)
    ensures
        deliveries(out@) == udp_step(clients@, src, CommandView::ListUsers).1,
{
    if clients.contains_addr(src) {
        let users = clients.names();
        single(send_response_to(src, ServerResponse::UserList(users)))
    } else {
        single(send_response_to(src, ServerResponse::Message(String::from_str("Not registered"))))
    }
}

/// A file from the client at `src` to `recipient`.
fn udp_send_file(
    clients: &Roster,
    src: PeerAddr,
    recipient: String,
    filename: String,
    content: Vec<u8>,
) -> (out: Vec<Delivery>)
    ensures
        deliveries(out@) == udp_step(
            clients@,
            src,
            CommandView::SendFile(recipient@, filename@, content@),
        ).1,
{
    match find_client_by_addr(clients, src) {
        Some((sender_name, _)) => match clients.lookup(recipient.as_str()) {
            Some(to) => {
                let mut out = Vec::new();
                out.push(send_response_to(to, ServerResponse::FileTransferStarted(filename.clone())));
                out.push(
                    send_command_to(to, send_file(content, sender_name.as_str(), filename.as_str())),
                );
                out.push(send_response_to(to, ServerResponse::FileTransferComplete(filename)));
                assert(deliveries(out@) =~= udp_step(
                    clients@,
                    src,
                    CommandView::SendFile(recipient@, filename@, content@),
                ).1);
                out
            },
            None => single(
                send_response_to(
                    src,
                    ServerResponse::FileTransferFailed(concat3("User ", recipient.as_str(), " not found")),
                ),
            ),
        },
        None => single(
            send_response_to(src, ServerResponse::Message(String::from_str("Not registered"))),
        ),
    }
}

/// The departure of the client at `src`.
fn udp_disconnect(clients: &mut Roster, src: PeerAddr) -> (out: Vec<Delivery>)
    ensures
        final(clients)@ == udp_step(old(clients)@, src, CommandView::Disconnect).0,
        deliveries(out@) == udp_step(old(clients)@, src, CommandView::Disconnect).1,
{
    match find_client_by_addr(clients, src) {
        Some((name, _)) => {
            clients.remove(name.as_str());
            let left = concat3("User ", name.as_str(), " has left the chat");
            broadcast_message(clients, left.as_str(), None)
        },
        None => Vec::new(),
    }
}

/// Handles the command `command` that came from `src`: updates the table and
/// returns the datagrams to send, in order.
pub fn handle_udp_command(clients: &mut Roster, src: PeerAddr, command: Command) -> (out: Vec<Delivery>)
    ensures
        final(clients)@ == udp_step(old(clients)@, src, command@).0,
        deliveries(out@) == udp_step(old(clients)@, src, command@).1,
{
    match command {
        Command::Register(name) => udp_register(clients, src, name),
        Command::Scream(message) => udp_scream(clients, src, message),
        Command::Whisper(recipient, message) => udp_whisper(clients, src, recipient, message),
        Command::ListUsers => udp_list_users(clients, src),
        Command::SendFile(recipient, filename, content) => udp_send_file(
            clients,
            src,
            recipient,
            filename,
            content,
        ),
        Command::Disconnect => udp_disconnect(clients, src),
    }
}

/// Calls `String::from_utf8`: the text the bytes encode when they are valid
/// UTF-8, and nothing otherwise.
#[verifier::external_body]
fn utf8_text(bytes: Vec<u8>) -> (r: Option<String>)
    ensures
        r is Some <==> valid_utf8(bytes@),
        r matches Some(t) ==> t@ == decode_utf8(bytes@),
{
    String::from_utf8(bytes).ok()
}

/// The text a received datagram carries: its bytes decoded as UTF-8, or nothing
/// when they are not valid UTF-8 (such a datagram is `Datagram::NotText`).
pub fn datagram_text(bytes: Vec<u8>) -> (r: Option<String>)
    ensures
        r is Some <==> valid_utf8(bytes@),
        r matches Some(t) ==> t@ == decode_utf8(bytes@),
{
    utf8_text(bytes)
}

/// What a received datagram turned out to be.
#[derive(Debug, Clone, PartialEq)]
pub enum Datagram {
    /// Its bytes are not UTF-8 text.
    NotText,
    /// It is text, but no command.
    NotCommand,
    /// It carries this command.
    Command(Command),
}

/// Handles one datagram from `src`: one that is not text is dropped without a
/// reply, one that is text but no command is answered with a notice, and a
/// command is handled as `handle_udp_command` does.
pub fn handle_udp_datagram(clients: &mut Roster, src: PeerAddr, datagram: Datagram) -> (out: Vec<
    Delivery,
>)
    ensures
        datagram is NotText ==> final(clients)@ == old(clients)@ && deliveries(out@)
            == Seq::<DeliveryView>::empty(),
        datagram is NotCommand ==> final(clients)@ == old(clients)@ && deliveries(out@) == seq![
            response_to(src, ResponseView::Message("Invalid command format"@)),
        ],
        datagram matches Datagram::Command(c) ==> final(clients)@ == udp_step(old(clients)@, src, c@).0
            && deliveries(out@) == udp_step(old(clients)@, src, c@).1,
{
    match datagram {
        Datagram::Command(c) => handle_udp_command(clients, src, c),
        Datagram::NotCommand => single(
            send_response_to(src, ServerResponse::Message(String::from_str("Invalid command format"))),
        ),
        Datagram::NotText => {
            let out: Vec<Delivery> = Vec::new();
            assert(deliveries(out@) =~= Seq::<DeliveryView>::empty());
            out
        },
    }
}

} // verus!
