//! The decisions of the TCP chat server: what a connected client's command does to
//! the table of registered clients, and which messages go to whom as a result.
//! Each connection keeps the name it registered (empty until it registers).
use vstd::prelude::*;
use std::hash::DefaultHasher;
use std::hash::Hasher;
use vstd::std_specs::hash::DefaultHasherAdditionalSpecFns;
use crate::protocol::{
    command_to, deliveries, fanout, lemma_fanout_count_without_name, lemma_fanout_targets, named,
    response_to, send_command_to, send_file, send_response_to, single,
    Command, CommandView, Delivery, DeliveryView, PayloadView, ResponseView, ServerResponse,
};
use crate::roster::{
    has_name, lemma_lookup_after_insert, lemma_lookup_after_remove, lemma_name_list_exact,
    lookup_name, name_list, names_unique, with_entry, without_name, EntryView, PeerAddr, Roster,
};
use crate::text::concat3;

verus! {

/// The text of a broadcast as the other clients see it.
pub open spec fn scream_text(sender: Seq<char>, message: Seq<char>) -> Seq<char> {
    sender + ": "@ + message
}

/// The notice that `recipient` is not registered.
pub open spec fn not_found_text(recipient: Seq<char>) -> Seq<char> {
    "User "@ + recipient + " not found"@
}

/// The deliveries of a broadcast from `sender`: one to each registered client
/// whose name is not `sender`, in table order.
pub open spec fn tcp_broadcast(s: Seq<EntryView>, sender: Seq<char>, message: Seq<char>) -> Seq<
    DeliveryView,
> {
    fanout(
        s,
        named(sender),
        PayloadView::Command(CommandView::Scream(scream_text(sender, message))),
    )
}

/// The deliveries of a whisper from `sender` to `recipient`: the message to the
/// recipient when it is registered, else a notice to the client registered as
/// `sender`.
pub open spec fn tcp_whisper(
    s: Seq<EntryView>,
    sender: Seq<char>,
    recipient: Seq<char>,
    message: Seq<char>,
) -> Seq<DeliveryView> {
    if has_name(s, recipient) {
        seq![
            command_to(
                lookup_name(s, recipient)->0,
                CommandView::Whisper(sender, message),
            ),
        ]
    } else {
        seq![
            response_to(
                lookup_name(s, sender)->0,
                ResponseView::Message(not_found_text(recipient)),
            ),
        ]
    }
}

/// The deliveries of a file sent by the client at `me`, registered as `sender`:
/// when the recipient is registered, it is told that the transfer starts, gets the
/// file and is told that it is complete, and then the sender is told that the file
/// was sent; else the sender is told that the transfer failed.
pub open spec fn tcp_file_transfer(
    s: Seq<EntryView>,
    me: PeerAddr,
    sender: Seq<char>,
    recipient: Seq<char>,
    filename: Seq<char>,
    content: Seq<u8>,
) -> Seq<DeliveryView> {
    if has_name(s, recipient) {
        let to = lookup_name(s, recipient)->0;
        seq![
            response_to(to, ResponseView::FileTransferStarted(filename)),
            command_to(to, CommandView::SendFile(sender, filename, content)),
            response_to(to, ResponseView::FileTransferComplete(filename)),
            response_to(me, ResponseView::Message("File sent to "@ + recipient)),
        ]
    } else {
        seq![
            response_to(me, ResponseView::FileTransferFailed(not_found_text(recipient))),
        ]
    }
}

/// The state of a connection after one command, and what it sends.
pub struct SessionOutcome {
    pub roster: Seq<EntryView>,
    pub name: Seq<char>,
    pub out: Seq<DeliveryView>,
    pub keep_going: bool,
}

/// Whether the server can handle `cmd` from a connection registered as `name`:
/// a whisper to an unknown recipient is answered through the sender's own entry,
/// which must then exist.
pub open spec fn tcp_step_defined(s: Seq<EntryView>, name: Seq<char>, cmd: CommandView) -> bool {
    match cmd {
        CommandView::Whisper(recipient, _) => name.len() > 0 ==> (has_name(s, recipient) || has_name(
            s,
            name,
        )),
        _ => true,
    }
}

/// What the command `cmd` from the connection at `me`, registered as `name`
/// (empty if not registered), does.
pub open spec fn tcp_step(s: Seq<EntryView>, me: PeerAddr, name: Seq<char>, cmd: CommandView) -> SessionOutcome {
    let please = "Please register first"@;
    match cmd {
        CommandView::Register(n) => SessionOutcome {
            roster: with_entry(s, n, me),
            name: n,
            out: seq![response_to(me, ResponseView::RegistrationSuccessful)],
            keep_going: true,
        },
        CommandView::Scream(m) => SessionOutcome {
            roster: s,
            name,
            out: if name.len() == 0 {
                seq![command_to(me, CommandView::Scream(please))]
            } else {
                tcp_broadcast(s, name, m)
            },
            keep_going: true,
        },
        CommandView::Whisper(r, m) => SessionOutcome {
            roster: s,
            name,
            out: if name.len() == 0 {
                seq![command_to(me, CommandView::Scream(please))]
            } else {
                tcp_whisper(s, name, r, m)
            },
            keep_going: true,
        },
        CommandView::SendFile(r, f, c) => SessionOutcome {
            roster: s,
            name,
            out: if name.len() == 0 {
                seq![response_to(me, ResponseView::Message(please))]
            } else {
                tcp_file_transfer(s, me, name, r, f, c)
            },
            keep_going: true,
        },
        CommandView::ListUsers => SessionOutcome {
            roster: s,
            name,
            out: seq![response_to(me, ResponseView::UserList(name_list(s)))],
            keep_going: true,
        },
        CommandView::Disconnect => SessionOutcome {
            roster: without_name(s, name),
            name,
            out: Seq::<DeliveryView>::empty(),
            keep_going: false,
        },
    }
}

/// A broadcast from a registered client reaches every other registered client,
/// once each, and not the sender's own entry; each gets the text prefixed with
/// the sender's name.
pub proof fn lemma_broadcast_reaches_everyone_else(s: Seq<EntryView>, sender: Seq<char>, message: Seq<char>)
    requires
        names_unique(s),
        has_name(s, sender),
    ensures
        tcp_broadcast(s, sender, message).len() == s.len() - 1,
        forall|i: int|
            0 <= i < tcp_broadcast(s, sender, message).len() ==> (#[trigger] tcp_broadcast(
                s,
                sender,
                message,
            )[i]).payload == PayloadView::Command(CommandView::Scream(scream_text(sender, message)))
                && exists|j: int|
                0 <= j < s.len() && s[j].0 != sender && tcp_broadcast(s, sender, message)[i].to
                    == s[j].1,
{
    let p = PayloadView::Command(CommandView::Scream(scream_text(sender, message)));
    lemma_fanout_count_without_name(s, sender, p);
    lemma_fanout_targets(s, named(sender), p);
}

/// The server keeps reading a connection after every command except a
/// disconnect, whether the connection has registered or not.
pub proof fn lemma_only_disconnect_stops(s: Seq<EntryView>, me: PeerAddr, name: Seq<char>, cmd: CommandView)
    ensures
        tcp_step(s, me, name, cmd).keep_going <==> !(cmd is Disconnect),
{
}

/// A connection that has not registered reaches nobody but itself with a
/// broadcast, a whisper or a file, and changes no registration.
pub proof fn lemma_unregistered_reaches_only_itself(s: Seq<EntryView>, me: PeerAddr, cmd: CommandView)
    requires
        cmd is Scream || cmd is Whisper || cmd is SendFile,
    ensures
        tcp_step(s, me, Seq::<char>::empty(), cmd).roster == s,
        tcp_step(s, me, Seq::<char>::empty(), cmd).out.len() == 1,
        tcp_step(s, me, Seq::<char>::empty(), cmd).out[0].to == me,
        tcp_step(s, me, Seq::<char>::empty(), cmd).keep_going,
{
}

/// After a connection registers a name, the name is registered at the
/// connection's address and the connection goes by that name.
pub proof fn lemma_register_then_lookup(s: Seq<EntryView>, me: PeerAddr, name: Seq<char>, n: Seq<char>)
    requires
        names_unique(s),
    ensures
        lookup_name(tcp_step(s, me, name, CommandView::Register(n)).roster, n) == Some(me),
        tcp_step(s, me, name, CommandView::Register(n)).name == n,
        names_unique(tcp_step(s, me, name, CommandView::Register(n)).roster),
{
    lemma_lookup_after_insert(s, n, me, n);
}

/// After a connection disconnects, its name is no longer registered, the other
/// names keep their addresses, and the server stops reading from it.
pub proof fn lemma_disconnect_forgets(s: Seq<EntryView>, me: PeerAddr, name: Seq<char>, other: Seq<char>)
    requires
        names_unique(s),
    ensures
        lookup_name(tcp_step(s, me, name, CommandView::Disconnect).roster, name) is None,
        other != name ==> lookup_name(tcp_step(s, me, name, CommandView::Disconnect).roster, other)
            == lookup_name(s, other),
        !tcp_step(s, me, name, CommandView::Disconnect).keep_going,
        tcp_step(s, me, name, CommandView::Disconnect).out.len() == 0,
{
    lemma_lookup_after_remove(s, name, other);
}

/// The user list sent back holds every registered name exactly once and no
/// other name.
pub proof fn lemma_list_users_exact(s: Seq<EntryView>, me: PeerAddr, name: Seq<char>, n: Seq<char>)
    requires
        names_unique(s),
    ensures
        tcp_step(s, me, name, CommandView::ListUsers).out == seq![
            response_to(me, ResponseView::UserList(name_list(s))),
        ],
        name_list(s).len() == s.len(),
        name_list(s).no_duplicates(),
        name_list(s).contains(n) <==> has_name(s, n),
{
    lemma_name_list_exact(s, n);
}

/// A file sent to a registered recipient reaches it intact: first the notice
/// that the transfer starts, then the file with the sender's name, its name and
/// its content unchanged, then the notice that it is complete; the sender is then
/// told that the file was sent.
pub proof fn lemma_file_reaches_recipient(
    s: Seq<EntryView>,
    me: PeerAddr,
    name: Seq<char>,
    recipient: Seq<char>,
    filename: Seq<char>,
    content: Seq<u8>,
)
    requires
        name.len() > 0,
        has_name(s, recipient),
    ensures
        ({
            let out = tcp_step(s, me, name, CommandView::SendFile(recipient, filename, content)).out;
            let to = lookup_name(s, recipient)->0;
            &&& out.len() == 4
            &&& out[0] == response_to(to, ResponseView::FileTransferStarted(filename))
            &&& out[1] == command_to(to, CommandView::SendFile(name, filename, content))
            &&& out[2] == response_to(to, ResponseView::FileTransferComplete(filename))
            &&& out[3].to == me
        }),
{
}

/// A whisper to a registered recipient reaches that recipient alone, with the
/// sender's name and the message.
pub proof fn lemma_whisper_reaches_recipient(
    s: Seq<EntryView>,
    me: PeerAddr,
    name: Seq<char>,
    recipient: Seq<char>,
    message: Seq<char>,
)
    requires
        name.len() > 0,
        has_name(s, recipient),
    ensures
        tcp_step(s, me, name, CommandView::Whisper(recipient, message)).out == seq![
            command_to(lookup_name(s, recipient)->0, CommandView::Whisper(name, message)),
        ],
        tcp_step(s, me, name, CommandView::Whisper(recipient, message)).roster == s,
{
}

/// The deliveries of a broadcast of `message` from the client registered as `sender`.
pub fn broadcast_message(clients: &Roster, sender: &str, message: &str) -> (out: Vec<Delivery>)
    ensures
        deliveries(out@) == tcp_broadcast(clients@, sender@, message@),
{
    let text = concat3(sender, ": ", message);
    let ghost skip = named(sender@);
    let ghost p = PayloadView::Command(CommandView::Scream(scream_text(sender@, message@)));
    let mut out: Vec<Delivery> = Vec::new();
    let n = clients.len();
    let mut i: usize = 0;
    while i < n
        invariant
            i <= n,
            n == clients@.len(),
            text@ == scream_text(sender@, message@),
            p == PayloadView::Command(CommandView::Scream(scream_text(sender@, message@))),
            skip == named(sender@),
            deliveries(out@) == fanout(clients@.take(i as int), skip, p),
        decreases n - i,
    {
        let ghost prev = deliveries(out@);
        let ghost entry = clients@[i as int];
        if !crate::text::same_text(clients.name_at(i).as_str(), sender) {
            let d = send_command_to(clients.addr_at(i), Command::Scream(text.clone()));
            let ghost before = out@;
            out.push(d);
            assert(out@ == before.push(d));
            assert(deliveries(out@) =~= prev.push(DeliveryView { to: entry.1, payload: p }));
        }
        proof {
            let t = clients@.take(i + 1);
            assert(t.drop_last() =~= clients@.take(i as int));
            assert(t.last() == entry);
        }
        i = i + 1;
    }
    assert(clients@.take(n as int) =~= clients@);
    out
}

/// The deliveries of a whisper of `message` from the client registered as
/// `sender` to `recipient`.
pub fn whisper_message(clients: &Roster, sender: &str, recipient: &str, message: &str) -> (out: Vec<
    Delivery,
>)
    requires
        has_name(clients@, recipient@) || has_name(clients@, sender@),
    ensures
        deliveries(out@) == tcp_whisper(clients@, sender@, recipient@, message@),
{
    match clients.lookup(recipient) {
        Some(to) => single(
            send_command_to(
                to,
                Command::Whisper(String::from_str(sender), String::from_str(message)),
            ),
        ),
        None => {
            let back = clients.lookup(sender);
            let to = back.unwrap();
            single(
                send_response_to(
                    to,
                    ServerResponse::Message(concat3("User ", recipient, " not found")),
                ),
            )
        },
    }
}

/// The deliveries of the file `filename` with content `content` sent by the
/// client at `me`, registered as `sender`, to `recipient`.
pub fn handle_file_transfer(
    clients: &Roster,
    me: PeerAddr,
    sender: &str,
    recipient: &str,
    filename: &str,
    content: Vec<u8>,
) -> (out: Vec<Delivery>)
    ensures
        deliveries(out@) == tcp_file_transfer(
            clients@,
            me,
            sender@,
            recipient@,
            filename@,
            content@,
        ),
{
    match clients.lookup(recipient) {
        Some(to) => {
            let mut out = Vec::new();
            out.push(
                send_response_to(to, ServerResponse::FileTransferStarted(String::from_str(filename))),
            );
            out.push(send_command_to(to, send_file(content, sender, filename)));
            out.push(
                send_response_to(
                    to,
                    ServerResponse::FileTransferComplete(String::from_str(filename)),
                ),
            );
            let mut notice = String::from_str("File sent to ");
            notice.append(recipient);
            out.push(send_response_to(me, ServerResponse::Message(notice)));
            assert(deliveries(out@) =~= tcp_file_transfer(
                clients@,
                me,
                sender@,
                recipient@,
                filename@,
                content@,
            ));
            out
        },
        None => single(
            send_response_to(
                me,
                ServerResponse::FileTransferFailed(concat3("User ", recipient, " not found")),
            ),
        ),
    }
}

/// Handles one command from the connection at `me`, whose registered name is
/// `name` (empty until it registers): updates the table and the name, and returns
/// the deliveries to make, in order, and whether to keep reading from the
/// connection.
pub fn handle_client_command(
    clients: &mut Roster,
    me: PeerAddr,
    name: &mut String,
    command: Command,
) -> (r: (Vec<Delivery>, bool))
    requires
        tcp_step_defined(old(clients)@, old(name)@, command@),
    ensures
        final(clients)@ == tcp_step(old(clients)@, me, old(name)@, command@).roster,
        final(name)@ == tcp_step(old(clients)@, me, old(name)@, command@).name,
        deliveries(r.0@) == tcp_step(old(clients)@, me, old(name)@, command@).out,
        r.1 == tcp_step(old(clients)@, me, old(name)@, command@).keep_going,
{
    match command {
        Command::Register(client_name) => {
            let registered = client_name.clone();
            clients.insert(client_name, me);
            *name = registered;
            (single(send_response_to(me, ServerResponse::RegistrationSuccessful)), true)
        },
        Command::Scream(message) => {
            if name.as_str().is_empty() {
                (
                    single(
                        send_command_to(
                            me,
                            Command::Scream(String::from_str("Please register first")),
                        ),
                    ),
                    true,
                )
            } else {
                (broadcast_message(clients, name.as_str(), message.as_str()), true)
            }
        },
        Command::Whisper(recipient, message) => {
            if name.as_str().is_empty() {
                (
                    single(
                        send_command_to(
                            me,
                            Command::Scream(String::from_str("Please register first")),
                        ),
                    ),
                    true,
                )
            } else {
                (
                    whisper_message(clients, name.as_str(), recipient.as_str(), message.as_str()),
                    true,
                )
            }
        },
        Command::SendFile(recipient, filename, content) => {
            if name.as_str().is_empty() {
                (
                    single(
                        send_response_to(
                            me,
                            ServerResponse::Message(String::from_str("Please register first")),
                        ),
                    ),
                    true,
                )
            } else {
                (
                    handle_file_transfer(
                        clients,
                        me,
                        name.as_str(),
                        recipient.as_str(),
                        filename.as_str(),
                        content,
                    ),
                    true,
                )
            }
        },
        Command::ListUsers => {
            let users = clients.names();
            (single(send_response_to(me, ServerResponse::UserList(users))), true)
        },
        Command::Disconnect => {
            clients.remove(name.as_str());
            (Vec::new(), false)
        },
    }
}

/// Handles the end of the connection's stream: a registered name is removed.
pub fn handle_client_eof(clients: &mut Roster, name: &str)
    ensures
        name@.len() > 0 ==> final(clients)@ == without_name(old(clients)@, name@),
        name@.len() == 0 ==> final(clients)@ == old(clients)@,
{
    if !name.is_empty() {
        clients.remove(name);
    }
}

/// The `k` lowest bytes of `n`, least significant first.
pub open spec fn le_bytes(n: nat, k: nat) -> Seq<u8>
    decreases k,
{
    if k == 0 {
        Seq::<u8>::empty()
    } else {
        seq![(n % 256) as u8] + le_bytes(n / 256, (k - 1) as nat)
    }
}

/// The `k` lowest bytes of `n`, most significant first.
pub open spec fn be_bytes(n: nat, k: nat) -> Seq<u8> {
    le_bytes(n, k).reverse()
}

/// The bytes of a `usize` in the byte order of a little- or a big-endian machine.
pub open spec fn native_bytes(n: nat, r: Seq<u8>) -> bool {
    let k = (usize::BITS / 8) as nat;
    r == le_bytes(n, k) || r == be_bytes(n, k)
}

/// Calls `usize::to_ne_bytes`, the bytes in which a slice's length is fed to a
/// hasher before its contents: the memory representation of `len` in the
/// machine's byte order, which is little- or big-endian. Which of the two it is,
/// is the machine's and is left unsaid.
#[verifier::external_body]
fn native_length_prefix(len: usize) -> (r: Vec<u8>)
    ensures
        native_bytes(len as nat, r@),
{
    len.to_ne_bytes().to_vec()
}

/// The hash under which a file transfer is reported: the standard library's
/// default hasher, fed what hashing the content as a byte slice feeds it (its
/// length in the machine's byte order, then its bytes).
pub fn calculate_hash(content: &Vec<u8>) -> (h: u64)
    ensures
        exists|prefix: Seq<u8>|
            native_bytes(content@.len(), prefix) && h == DefaultHasher::spec_finish(
                seq![prefix, content@],
            ),
{
    let mut state = DefaultHasher::new();
    let prefix = native_length_prefix(content.len());
    state.write(prefix.as_slice());
    state.write(content.as_slice());
    assert(state@ =~= seq![prefix@, content@]);
    state.finish()
}

} // verus!
