//! The messages that clients and the server exchange, the line framing that
//! carries them over a stream, and how a received line is told apart as a
//! command or a server response.
use vstd::prelude::*;
use crate::roster::{has_name, names_unique, EntryView, PeerAddr};
use crate::text::{is_ws, texts, trim, trim_ws};

verus! {

/// A request from a client (and, relayed by the server, a message to a client).
#[derive(Debug, Clone, PartialEq)]
pub enum Command {
    Register(String),
    Scream(String),
    /// (recipient, message); relayed to the recipient as (sender, message).
    Whisper(String, String),
    /// (recipient, file name, file content); relayed as (sender, file name, content).
    SendFile(String, String, Vec<u8>),
    ListUsers,
    Disconnect,
}

/// A reply or notice from the server.
#[derive(Debug, Clone, PartialEq)]
pub enum ServerResponse {
    RegistrationSuccessful,
    Message(String),
    UserList(Vec<String>),
    /// file name
    FileTransferStarted(String),
    /// file name
    FileTransferComplete(String),
    /// error message
    FileTransferFailed(String),
}

/// A command, with texts and bytes as sequences.
pub enum CommandView {
    Register(Seq<char>),
    Scream(Seq<char>),
    Whisper(Seq<char>, Seq<char>),
    SendFile(Seq<char>, Seq<char>, Seq<u8>),
    ListUsers,
    Disconnect,
}

/// A server response, with texts as sequences.
pub enum ResponseView {
    RegistrationSuccessful,
    Message(Seq<char>),
    UserList(Seq<Seq<char>>),
    FileTransferStarted(Seq<char>),
    FileTransferComplete(Seq<char>),
    FileTransferFailed(Seq<char>),
}

impl View for Command {
    type V = CommandView;

    open spec fn view(&self) -> CommandView {
        match self {
            Command::Register(n) => CommandView::Register(n@),
            Command::Scream(m) => CommandView::Scream(m@),
            Command::Whisper(r, m) => CommandView::Whisper(r@, m@),
            Command::SendFile(r, f, c) => CommandView::SendFile(r@, f@, c@),
            Command::ListUsers => CommandView::ListUsers,
            Command::Disconnect => CommandView::Disconnect,
        }
    }
}

impl View for ServerResponse {
    type V = ResponseView;

    open spec fn view(&self) -> ResponseView {
        match self {
            ServerResponse::RegistrationSuccessful => ResponseView::RegistrationSuccessful,
            ServerResponse::Message(m) => ResponseView::Message(m@),
            ServerResponse::UserList(u) => ResponseView::UserList(texts(u@)),
            ServerResponse::FileTransferStarted(f) => ResponseView::FileTransferStarted(f@),
            ServerResponse::FileTransferComplete(f) => ResponseView::FileTransferComplete(f@),
            ServerResponse::FileTransferFailed(e) => ResponseView::FileTransferFailed(e@),
        }
    }
}

/// What goes over the wire to a peer: a command or a server response.
#[derive(Debug, Clone, PartialEq)]
pub enum Payload {
    Command(Command),
    Response(ServerResponse),
}

/// A payload, as a value.
pub enum PayloadView {
    Command(CommandView),
    Response(ResponseView),
}

impl View for Payload {
    type V = PayloadView;

    open spec fn view(&self) -> PayloadView {
        match self {
            Payload::Command(c) => PayloadView::Command(c@),
            Payload::Response(r) => PayloadView::Response(r@),
        }
    }
}

/// A payload to be sent to the peer at `to`.
#[derive(Debug, Clone, PartialEq)]
pub struct Delivery {
    pub to: PeerAddr,
    pub payload: Payload,
}

/// A delivery, as a value.
pub struct DeliveryView {
    pub to: PeerAddr,
    pub payload: PayloadView,
}

impl View for Delivery {
    type V = DeliveryView;

    open spec fn view(&self) -> DeliveryView {
        DeliveryView { to: self.to, payload: self.payload@ }
    }
}

/// The views of a sequence of deliveries, in order.
pub open spec fn deliveries(v: Seq<Delivery>) -> Seq<DeliveryView> {
    v.map_values(|d: Delivery| d@)
}

/// One delivery of `p` to each entry of `s` that `skip` does not pick out, in
/// table order.
pub open spec fn fanout(s: Seq<EntryView>, skip: spec_fn(EntryView) -> bool, p: PayloadView) -> Seq<
    DeliveryView,
>
    decreases s.len(),
{
    if s.len() == 0 {
        Seq::<DeliveryView>::empty()
    } else {
        let front = fanout(s.drop_last(), skip, p);
        if skip(s.last()) {
            front
        } else {
            front.push(DeliveryView { to: s.last().1, payload: p })
        }
    }
}

/// The entries of `s` that `skip` does not pick out, in order.
pub open spec fn kept(s: Seq<EntryView>, skip: spec_fn(EntryView) -> bool) -> Seq<EntryView> {
    s.filter(|e: EntryView| !skip(e))
}

/// A fan-out reaches exactly the entries that are not skipped, each once and in
/// table order, and carries the same payload to each of them.
pub proof fn lemma_fanout_reaches_kept(s: Seq<EntryView>, skip: spec_fn(EntryView) -> bool, p: PayloadView)
    ensures
        fanout(s, skip, p) == kept(s, skip).map_values(
            |e: EntryView| DeliveryView { to: e.1, payload: p },
        ),
    decreases s.len(),
{
    reveal_with_fuel(Seq::filter, 1);
    if s.len() == 0 {
        assert(kept(s, skip) =~= Seq::<EntryView>::empty());
        assert(fanout(s, skip, p) =~= kept(s, skip).map_values(
            |e: EntryView| DeliveryView { to: e.1, payload: p },
        ));
    } else {
        lemma_fanout_reaches_kept(s.drop_last(), skip, p);
        assert(kept(s.drop_last(), skip) == s.drop_last().filter(|e: EntryView| !skip(e)));
        assert(fanout(s, skip, p) =~= kept(s, skip).map_values(
            |e: EntryView| DeliveryView { to: e.1, payload: p },
        ));
    }
}

/// Each delivery of a fan-out carries its payload to the address of an entry
/// that is not skipped.
pub proof fn lemma_fanout_targets(s: Seq<EntryView>, skip: spec_fn(EntryView) -> bool, p: PayloadView)
    ensures
        fanout(s, skip, p).len() <= s.len(),
        forall|i: int|
            0 <= i < fanout(s, skip, p).len() ==> (#[trigger] fanout(s, skip, p)[i]).payload == p
                && exists|j: int| 0 <= j < s.len() && !skip(s[j]) && fanout(s, skip, p)[i].to == s[j].1,
    decreases s.len(),
{
    if s.len() > 0 {
        let t = s.drop_last();
        lemma_fanout_targets(t, skip, p);
        let out = fanout(s, skip, p);
        assert forall|i: int| 0 <= i < out.len() implies (#[trigger] out[i]).payload == p
            && exists|j: int| 0 <= j < s.len() && !skip(s[j]) && out[i].to == s[j].1 by {
            if i < fanout(t, skip, p).len() {
                assert(out[i] == fanout(t, skip, p)[i]);
                let j = choose|j: int| 0 <= j < t.len() && !skip(t[j]) && fanout(t, skip, p)[i].to == t[j].1;
                assert(s[j] == t[j]);
            } else {
                assert(!skip(s.last()));
                assert(out[i].to == s[s.len() - 1].1);
            }
        }
    }
}

/// A fan-out that skips nobody reaches every entry, in table order.
pub proof fn lemma_fanout_reaches_all(s: Seq<EntryView>, skip: spec_fn(EntryView) -> bool, p: PayloadView)
    requires
        forall|i: int| 0 <= i < s.len() ==> !skip(#[trigger] s[i]),
    ensures
        fanout(s, skip, p).len() == s.len(),
        forall|i: int|
            0 <= i < s.len() ==> #[trigger] fanout(s, skip, p)[i] == (DeliveryView {
                to: s[i].1,
                payload: p,
            }),
    decreases s.len(),
{
    if s.len() > 0 {
        let t = s.drop_last();
        assert forall|i: int| 0 <= i < t.len() implies !skip(#[trigger] t[i]) by {
            assert(t[i] == s[i]);
        }
        lemma_fanout_reaches_all(t, skip, p);
        assert(!skip(s[s.len() - 1]));
    }
}

/// Every entry that a fan-out does not skip gets the payload: some delivery goes
/// to its address and carries the payload.
pub proof fn lemma_fanout_covers(s: Seq<EntryView>, skip: spec_fn(EntryView) -> bool, p: PayloadView)
    ensures
        forall|j: int|
            0 <= j < s.len() && !skip(#[trigger] s[j]) ==> exists|i: int|
                0 <= i < fanout(s, skip, p).len() && fanout(s, skip, p)[i] == (DeliveryView {
                    to: s[j].1,
                    payload: p,
                }),
    decreases s.len(),
{
    if s.len() > 0 {
        let t = s.drop_last();
        lemma_fanout_covers(t, skip, p);
        let out = fanout(s, skip, p);
        let front = fanout(t, skip, p);
        assert forall|j: int| 0 <= j < s.len() && !skip(#[trigger] s[j]) implies exists|i: int|
            0 <= i < out.len() && out[i] == (DeliveryView { to: s[j].1, payload: p }) by {
            if j < s.len() - 1 {
                assert(t[j] == s[j]);
                let i = choose|i: int|
                    0 <= i < front.len() && front[i] == (DeliveryView { to: t[j].1, payload: p });
                assert(out[i] == front[i]);
            } else {
                assert(s.last() == s[j]);
                assert(out[front.len() as int] == (DeliveryView { to: s[j].1, payload: p }));
            }
        }
    }
}

/// Picks out the entry named `name`.
pub open spec fn named(name: Seq<char>) -> spec_fn(EntryView) -> bool {
    |e: EntryView| e.0 == name
}

/// A fan-out that skips the entry named `name` reaches one fewer client than are
/// registered when `name` is registered, and all of them otherwise.
pub proof fn lemma_fanout_count_without_name(s: Seq<EntryView>, name: Seq<char>, p: PayloadView)
    requires
        names_unique(s),
    ensures
        fanout(s, named(name), p).len() == if has_name(s, name) {
            s.len() - 1
        } else {
            s.len() as int
        },
    decreases s.len(),
{
    if s.len() > 0 {
        let t = s.drop_last();
        assert(names_unique(t)) by {
            assert forall|a: int, b: int| 0 <= a < b < t.len() implies #[trigger] t[a].0 != #[trigger] t[b].0 by {
                assert(s[a].0 != s[b].0);
            }
        }
        lemma_fanout_count_without_name(t, name, p);
        if s.last().0 == name {
            assert(!has_name(t, name)) by {
                if has_name(t, name) {
                    let w = choose|w: int| 0 <= w < t.len() && #[trigger] t[w].0 == name;
                    assert(s[w].0 != s[s.len() - 1].0);
                }
            }
            assert(s[s.len() - 1].0 == name);
            assert(has_name(s, name));
        } else {
            if has_name(t, name) {
                let w = choose|w: int| 0 <= w < t.len() && #[trigger] t[w].0 == name;
                assert(s[w].0 == name);
                assert(has_name(s, name));
            }
            if has_name(s, name) {
                let w = choose|w: int| 0 <= w < s.len() && #[trigger] s[w].0 == name;
                assert(w != s.len() - 1);
                assert(t[w].0 == name);
                assert(has_name(t, name));
            }
        }
    }
}

/// A delivery of a command.
pub open spec fn command_to(to: PeerAddr, c: CommandView) -> DeliveryView {
    DeliveryView { to, payload: PayloadView::Command(c) }
}

/// A delivery of a server response.
pub open spec fn response_to(to: PeerAddr, r: ResponseView) -> DeliveryView {
    DeliveryView { to, payload: PayloadView::Response(r) }
}

/// A delivery of a command, built from its parts.
pub fn send_command_to(to: PeerAddr, c: Command) -> (d: Delivery)
    ensures
        d@ == command_to(to, c@),
{
    Delivery { to, payload: Payload::Command(c) }
}

/// A delivery of a server response, built from its parts.
pub fn send_response_to(to: PeerAddr, r: ServerResponse) -> (d: Delivery)
    ensures
        d@ == response_to(to, r@),
{
    Delivery { to, payload: Payload::Response(r) }
}

/// The single delivery `d`.
pub fn single(d: Delivery) -> (v: Vec<Delivery>)
    ensures
        deliveries(v@) == seq![d@],
{
    let mut v = Vec::new();
    v.push(d);
    assert(deliveries(v@) =~= seq![d@]);
    v
}

/// The command that sends the file content `content`, read from the file
/// `filename`, to `recipient`.
pub fn send_file(content: Vec<u8>, recipient: &str, filename: &str) -> (c: Command)
    ensures
        c@ == CommandView::SendFile(recipient@, filename@, content@),
{
    Command::SendFile(String::from_str(recipient), String::from_str(filename), content)
}

/// The line that carries the serialized message `serialized`: the text followed
/// by a newline.
pub fn frame_line(serialized: &str) -> (line: String)
    ensures
        line@ == serialized@.push('\n'),
{
    let mut line = String::from_str(serialized);
    line.append("\n");
    proof {
        reveal_strlit("\n");
        assert(line@ =~= serialized@.push('\n'));
    }
    line
}

/// The serialized message carried by a line read from a stream, where `n_read`
/// is the number of bytes the read took: nothing at the end of the stream (a
/// read of no bytes), otherwise the line without surrounding whitespace.
pub fn line_payload(n_read: usize, line: &str) -> (r: Option<String>)
    ensures
        n_read == 0 ==> r is None,
        n_read != 0 ==> (r matches Some(t) && t@ == trim_ws(line@)),
{
    if n_read == 0 {
        None
    } else {
        Some(trim(line))
    }
}

/// How a received line is read, given its parse as a command and its parse as a
/// server response: a command where it parses as one, else a server response
/// where it parses as one, else nothing (an invalid message).
pub fn classify_message(as_command: Option<Command>, as_response: Option<ServerResponse>) -> (r:
    Option<Result<Command, ServerResponse>>)
    ensures
        as_command matches Some(c) ==> r == Some(Ok::<Command, ServerResponse>(c)),
        as_command is None ==> (as_response matches Some(s) ==> r == Some(
            Err::<Command, ServerResponse>(s),
        )),
        as_command is None && as_response is None ==> r is None,
{
    match as_command {
        Some(c) => Some(Ok(c)),
        None => match as_response {
            Some(s) => Some(Err(s)),
            None => None,
        },
    }
}

/// A text with no whitespace at either end.
pub open spec fn no_outer_ws(t: Seq<char>) -> bool {
    t.len() > 0 ==> !is_ws(t[0]) && !is_ws(t.last())
}

/// Reading back a framed line: for a serialized message with no whitespace at
/// either end, the payload of the line `frame_line` makes of it is the message
/// itself.
pub proof fn lemma_frame_then_read(t: Seq<char>)
    requires
        no_outer_ws(t),
    ensures
        trim_ws(t.push('\n')) == t,
{
    let line = t.push('\n');
    assert(is_ws('\n'));
    if t.len() == 0 {
        assert(line.drop_first() =~= t);
        assert(trim_ws(t) == t);
    } else {
        assert(line[0] == t[0]);
        assert(line.last() == '\n');
        assert(line.drop_last() =~= t);
        assert(trim_ws(t) == t);
    }
}

} // verus!
