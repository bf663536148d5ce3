//! The decisions of the chat client: what a line typed by the user asks for, and
//! how a message from the server is shown.
//!
//! The user types `/Scream/<message>/`, `/Whisper/<recipient>/<message>/`,
//! `/SendFile/<recipient>/<filename>/`, `/ListUsers/`, or `quit` (in any case).
use vstd::prelude::*;
use crate::protocol::{Command, CommandView, ServerResponse};
use crate::text::{
    ascii_fold, concat3, eq_ignore_ascii_case, eq_ignoring_ascii_case, is_ws, join_texts,
    join_with, lemma_split_append, lemma_trim_drops_trailing_ws, same_text, split_on, split_text, texts, trim, trim_ws,
};

verus! {

/// What a line typed by the user asks for.
#[derive(Debug, Clone, PartialEq)]
pub enum ClientAction {
    /// Leave the chat: tell the server and stop.
    Quit,
    /// Send a command to the server.
    Send(Command),
    /// Send the file `filename` (second field) to `recipient` (first field).
    SendFile(String, String),
    /// Show this notice to the user and send nothing.
    Notice(String),
}

/// What a line typed by the user asks for, as a value.
pub enum ClientActionView {
    Quit,
    Send(CommandView),
    SendFile(Seq<char>, Seq<char>),
    Notice(Seq<char>),
}

impl View for ClientAction {
    type V = ClientActionView;

    open spec fn view(&self) -> ClientActionView {
        match self {
            ClientAction::Quit => ClientActionView::Quit,
            ClientAction::Send(c) => ClientActionView::Send(c@),
            ClientAction::SendFile(r, f) => ClientActionView::SendFile(r@, f@),
            ClientAction::Notice(t) => ClientActionView::Notice(t@),
        }
    }
}

/// The pieces of the typed line, after trimming, between slashes.
pub open spec fn input_parts(line: Seq<char>) -> Seq<Seq<char>> {
    split_on(trim_ws(line), '/')
}

/// The typed line, trimmed, is `quit` in some mix of cases.
pub open spec fn is_quit(line: Seq<char>) -> bool {
    eq_ignoring_ascii_case(trim_ws(line), "quit"@)
}

/// A line the client can act on: a broadcast needs the piece after `Scream`.
pub open spec fn input_defined(line: Seq<char>) -> bool {
    let parts = input_parts(line);
    !is_quit(line) && parts.len() >= 2 && parts[1] == "Scream"@ ==> parts.len() >= 3
}

/// What the typed line `line` asks for.
pub open spec fn input_action(line: Seq<char>) -> ClientActionView {
    let parts = input_parts(line);
    if is_quit(line) {
        ClientActionView::Quit
    } else if parts.len() >= 2 {
        let kind = parts[1];
        if kind == "Scream"@ {
            ClientActionView::Send(CommandView::Scream(parts[2]))
        } else if kind == "Whisper"@ {
            if parts.len() >= 4 {
                ClientActionView::Send(CommandView::Whisper(parts[2], parts[3]))
            } else {
                ClientActionView::Notice("Invalid Whisper command. Use: /Whisper/recipient/message/"@)
            }
        } else if kind == "ListUsers"@ {
            ClientActionView::Send(CommandView::ListUsers)
        } else if kind == "SendFile"@ {
            if parts.len() >= 4 {
                ClientActionView::SendFile(parts[2], parts[3])
            } else {
                ClientActionView::Notice("Invalid SendFile command. Use: /SendFile/recipient/filename"@)
            }
        } else {
            ClientActionView::Notice(
                "Unknown command. Use /Scream/, /Whisper/, /ListUsers/, or /SendFile/"@,
            )
        }
    } else {
        ClientActionView::Notice(
            "Invalid command format. Use: `/Command/Message/`, `/Whisper/<recipient>/Message/`, `/ListUsers/` or `/SendFile/<recipient>/<filename>/`"@,
        )
    }
}

/// The line `/f1/f2/.../fn/` made of the fields `fields`, as the user types a
/// command.
pub open spec fn slashed(fields: Seq<Seq<char>>) -> Seq<char>
    decreases fields.len(),
{
    if fields.len() == 0 {
        seq!['/']
    } else {
        slashed(fields.drop_last()) + fields.last() + seq!['/']
    }
}

/// No field holds a slash.
pub open spec fn no_slashes(fields: Seq<Seq<char>>) -> bool {
    forall|i: int| 0 <= i < fields.len() ==> !(#[trigger] fields[i]).contains('/')
}

/// A slashed line splits back into its fields, between an empty first and an
/// empty last piece.
pub proof fn lemma_split_slashed(fields: Seq<Seq<char>>)
    requires
        no_slashes(fields),
    ensures
        split_on(slashed(fields), '/') == seq![Seq::<char>::empty()] + fields + seq![
            Seq::<char>::empty(),
        ],
    decreases fields.len(),
{
    if fields.len() == 0 {
        let line = seq!['/'];
        assert(line.drop_last() =~= Seq::<char>::empty());
        assert(line.last() == '/');
        assert(split_on(Seq::<char>::empty(), '/') == seq![Seq::<char>::empty()]);
        assert(split_on(line, '/') =~= seq![Seq::<char>::empty(), Seq::<char>::empty()]);
        assert(seq![Seq::<char>::empty()] + fields + seq![Seq::<char>::empty()] =~= seq![
            Seq::<char>::empty(),
            Seq::<char>::empty(),
        ]);
    } else {
        let front = fields.drop_last();
        let f = fields.last();
        assert(no_slashes(front)) by {
            assert forall|i: int| 0 <= i < front.len() implies !(#[trigger] front[i]).contains('/') by {
                assert(front[i] == fields[i]);
            }
        }
        assert(!f.contains('/')) by {
            assert(f == fields[fields.len() - 1]);
        }
        lemma_split_slashed(front);
        let base = slashed(front);
        lemma_split_append(base, f, '/');
        let line = slashed(fields);
        assert(line =~= (base + f).push('/'));
        assert(line.drop_last() =~= base + f);
        assert(line.last() == '/');
        let parts = seq![Seq::<char>::empty()] + front + seq![Seq::<char>::empty()];
        assert(parts.last() + f =~= f);
        assert(parts.update(parts.len() - 1, f).push(Seq::<char>::empty()) =~= seq![
            Seq::<char>::empty(),
        ] + fields + seq![Seq::<char>::empty()]);
    }
}

/// A slashed line starts and ends with a slash.
proof fn lemma_slashed_ends(fields: Seq<Seq<char>>)
    ensures
        slashed(fields).len() >= 1,
        slashed(fields)[0] == '/',
        slashed(fields).last() == '/',
    decreases fields.len(),
{
    if fields.len() > 0 {
        lemma_slashed_ends(fields.drop_last());
    }
}

/// The pieces of a typed slashed line are its fields, with empty pieces around.
proof fn lemma_slashed_parts(fields: Seq<Seq<char>>)
    requires
        no_slashes(fields),
    ensures
        !is_quit(slashed(fields)),
        input_parts(slashed(fields)) == seq![Seq::<char>::empty()] + fields + seq![
            Seq::<char>::empty(),
        ],
{
    let line = slashed(fields);
    lemma_slashed_ends(fields);
    assert(!is_ws('/'));
    if line.len() == 1 {
        assert(line.drop_first() =~= Seq::<char>::empty());
        assert(trim_ws(line) == line) by {
            assert(!is_ws(line[0]));
            assert(!is_ws(line.last()));
        }
    } else {
        assert(trim_ws(line) == line);
    }
    lemma_split_slashed(fields);
    reveal_strlit("quit");
    assert(ascii_fold(line[0]) != ascii_fold("quit"@[0]));
}

/// A line typed as a command word and then fields, none of them holding a slash,
/// is no `quit`, and its pieces are the word and the fields between empty ends.
proof fn lemma_typed_fields(word: Seq<char>, rest: Seq<Seq<char>>)
    requires
        !word.contains('/'),
        no_slashes(rest),
    ensures
        !is_quit(slashed(seq![word] + rest)),
        input_parts(slashed(seq![word] + rest)) == seq![Seq::<char>::empty(), word] + rest + seq![
            Seq::<char>::empty(),
        ],
{
    let fields = seq![word] + rest;
    assert forall|i: int| 0 <= i < fields.len() implies !(#[trigger] fields[i]).contains('/') by {
        if i > 0 {
            assert(fields[i] == rest[i - 1]);
        }
    }
    lemma_slashed_parts(fields);
    assert(seq![Seq::<char>::empty()] + fields + seq![Seq::<char>::empty()] =~= seq![
        Seq::<char>::empty(),
        word,
    ] + rest + seq![Seq::<char>::empty()]);
}

/// A typed `/Scream/<message>/` broadcasts the message.
pub proof fn lemma_typed_scream(message: Seq<char>)
    requires
        !message.contains('/'),
    ensures
        input_defined(slashed(seq!["Scream"@, message])),
        input_action(slashed(seq!["Scream"@, message])) == ClientActionView::Send(
            CommandView::Scream(message),
        ),
{
    reveal_strlit("Scream");
    assert(!"Scream"@.contains('/'));
    assert(seq!["Scream"@] + seq![message] =~= seq!["Scream"@, message]);
    lemma_typed_fields("Scream"@, seq![message]);
}

/// A typed `/Whisper/<recipient>/<message>/` whispers the message to the recipient.
pub proof fn lemma_typed_whisper(recipient: Seq<char>, message: Seq<char>)
    requires
        !recipient.contains('/'),
        !message.contains('/'),
    ensures
        input_defined(slashed(seq!["Whisper"@, recipient, message])),
        input_action(slashed(seq!["Whisper"@, recipient, message])) == ClientActionView::Send(
            CommandView::Whisper(recipient, message),
        ),
{
    reveal_strlit("Whisper");
    reveal_strlit("Scream");
    assert(!"Whisper"@.contains('/'));
    assert(seq!["Whisper"@] + seq![recipient, message] =~= seq!["Whisper"@, recipient, message]);
    lemma_typed_fields("Whisper"@, seq![recipient, message]);
    assert("Whisper"@ != "Scream"@) by {
        assert("Whisper"@[0] != "Scream"@[0]);
    }
}

/// A typed `/SendFile/<recipient>/<filename>/` sends the file to the recipient.
pub proof fn lemma_typed_send_file(recipient: Seq<char>, filename: Seq<char>)
    requires
        !recipient.contains('/'),
        !filename.contains('/'),
    ensures
        input_defined(slashed(seq!["SendFile"@, recipient, filename])),
        input_action(slashed(seq!["SendFile"@, recipient, filename])) == ClientActionView::SendFile(
            recipient,
            filename,
        ),
{
    reveal_strlit("SendFile");
    reveal_strlit("Scream");
    reveal_strlit("Whisper");
    reveal_strlit("ListUsers");
    assert(!"SendFile"@.contains('/'));
    assert(seq!["SendFile"@] + seq![recipient, filename] =~= seq!["SendFile"@, recipient, filename]);
    lemma_typed_fields("SendFile"@, seq![recipient, filename]);
    assert("SendFile"@.len() != "Scream"@.len());
    assert("SendFile"@.len() != "Whisper"@.len());
    assert("SendFile"@.len() != "ListUsers"@.len());
}

/// A typed `/ListUsers/` asks for the list of users.
pub proof fn lemma_typed_list_users()
    ensures
        input_defined(slashed(seq!["ListUsers"@])),
        input_action(slashed(seq!["ListUsers"@])) == ClientActionView::Send(CommandView::ListUsers),
{
    reveal_strlit("Scream");
    reveal_strlit("Whisper");
    reveal_strlit("ListUsers");
    assert(!"ListUsers"@.contains('/'));
    assert(seq!["ListUsers"@] + Seq::<Seq<char>>::empty() =~= seq!["ListUsers"@]);
    lemma_typed_fields("ListUsers"@, Seq::<Seq<char>>::empty());
    assert("ListUsers"@.len() != "Scream"@.len());
    assert("ListUsers"@.len() != "Whisper"@.len());
}

/// Whether the client can act on the typed line `line`: a broadcast needs the
/// piece after `Scream`.
pub fn input_is_defined(line: &str) -> (r: bool)
    ensures
        r == input_defined(line@),
{
    let input = trim(line);
    if eq_ignore_ascii_case(input.as_str(), "quit") {
        return true;
    }
    let parts = split_text(input.as_str(), '/');
    assert(texts(parts@) == input_parts(line@));
    if parts.len() == 2 {
        assert(parts@[1]@ == input_parts(line@)[1]);
        !same_text(parts[1].as_str(), "Scream")
    } else {
        true
    }
}

/// The registration the client sends for the name typed at the prompt: the
/// line without surrounding whitespace.
pub fn registration_command(line: &str) -> (c: Command)
    ensures
        c@ == CommandView::Register(trim_ws(line@)),
{
    Command::Register(trim(line))
}

/// A typed line whose pieces (after trimming, between slashes) number at least
/// four and whose second piece is `SendFile` sends the file named by the fourth
/// piece to the recipient named by the third; anything after the fourth piece
/// is ignored.
pub proof fn lemma_send_file_pieces(line: Seq<char>)
    requires
        !is_quit(line),
        split_on(trim_ws(line), '/').len() >= 4,
        split_on(trim_ws(line), '/')[1] == "SendFile"@,
    ensures
        input_defined(line),
        input_action(line) == ClientActionView::SendFile(
            split_on(trim_ws(line), '/')[2],
            split_on(trim_ws(line), '/')[3],
        ),
{
    reveal_strlit("SendFile");
    reveal_strlit("Scream");
    reveal_strlit("Whisper");
    reveal_strlit("ListUsers");
    assert("SendFile"@.len() != "Scream"@.len());
    assert("SendFile"@.len() != "Whisper"@.len());
    assert("SendFile"@.len() != "ListUsers"@.len());
}

/// `/SendFile/<recipient>/<filename>` without a closing slash, as the usage
/// notice writes it, and followed by any whitespace such as a line ending, sends
/// the file `filename` to `recipient`.
pub proof fn lemma_typed_send_file_unclosed(recipient: Seq<char>, filename: Seq<char>, ending: Seq<char>)
    requires
        !recipient.contains('/'),
        !filename.contains('/'),
        filename.len() > 0,
        !is_ws(filename.last()),
        forall|i: int| 0 <= i < ending.len() ==> is_ws(#[trigger] ending[i]),
    ensures
        input_defined(slashed(seq!["SendFile"@, recipient]) + filename + ending),
        input_action(slashed(seq!["SendFile"@, recipient]) + filename + ending)
            == ClientActionView::SendFile(recipient, filename),
{
    reveal_strlit("SendFile");
    let fields = seq!["SendFile"@, recipient];
    assert(!"SendFile"@.contains('/'));
    assert forall|i: int| 0 <= i < fields.len() implies !(#[trigger] fields[i]).contains('/') by {}
    let base = slashed(fields);
    let typed = base + filename;
    let line = typed + ending;
    lemma_slashed_ends(fields);
    assert(typed[0] == '/');
    assert(typed.last() == filename.last());
    assert(!is_ws('/'));
    lemma_trim_drops_trailing_ws(typed, ending);
    lemma_split_slashed(fields);
    lemma_split_append(base, filename, '/');
    let parts = split_on(typed, '/');
    let before = seq![Seq::<char>::empty()] + fields + seq![Seq::<char>::empty()];
    assert(parts == before.update(before.len() - 1, before.last() + filename));
    assert(before.last() + filename =~= filename);
    assert(parts[1] == "SendFile"@);
    assert(parts[2] == recipient);
    assert(parts[3] == filename);
    assert(!is_quit(line)) by {
        reveal_strlit("quit");
        assert(trim_ws(line)[0] == '/');
        assert(ascii_fold(trim_ws(line)[0]) != ascii_fold("quit"@[0]));
    }
    lemma_send_file_pieces(line);
}

/// `v` shows a text made of `prefix` followed by the whole of `body`.
pub open spec fn shows(v: IncomingView, prefix: Seq<char>, body: Seq<char>) -> bool {
    &&& v is Show
    &&& v->Show_0.len() == prefix.len() + body.len()
    &&& v->Show_0.take(prefix.len() as int) == prefix
    &&& v->Show_0.skip(prefix.len() as int) == body
}

/// Every message from the server that carries a text is shown whole: a server
/// notice as "\nServer: " and the full notice, a broadcast as "\nBroadcast: " and
/// the full text, and the file notices with their full file name or error.
pub proof fn lemma_messages_shown_whole(text: String)
    ensures
        shows(incoming_view(Err(ServerResponse::Message(text))), "\nServer: "@, text@),
        shows(incoming_view(Ok(Command::Scream(text))), "\nBroadcast: "@, text@),
        shows(
            incoming_view(Err(ServerResponse::FileTransferStarted(text))),
            "\nReceiving file: "@,
            text@,
        ),
        shows(
            incoming_view(Err(ServerResponse::FileTransferComplete(text))),
            "\nFile received: "@,
            text@,
        ),
        shows(
            incoming_view(Err(ServerResponse::FileTransferFailed(text))),
            "\nFile transfer failed: "@,
            text@,
        ),
{
    assert(("\nServer: "@ + text@).take("\nServer: "@.len() as int) =~= "\nServer: "@);
    assert(("\nServer: "@ + text@).skip("\nServer: "@.len() as int) =~= text@);
    assert(("\nBroadcast: "@ + text@).take("\nBroadcast: "@.len() as int) =~= "\nBroadcast: "@);
    assert(("\nBroadcast: "@ + text@).skip("\nBroadcast: "@.len() as int) =~= text@);
    assert(("\nReceiving file: "@ + text@).take("\nReceiving file: "@.len() as int)
        =~= "\nReceiving file: "@);
    assert(("\nReceiving file: "@ + text@).skip("\nReceiving file: "@.len() as int) =~= text@);
    assert(("\nFile received: "@ + text@).take("\nFile received: "@.len() as int)
        =~= "\nFile received: "@);
    assert(("\nFile received: "@ + text@).skip("\nFile received: "@.len() as int) =~= text@);
    assert(("\nFile transfer failed: "@ + text@).take("\nFile transfer failed: "@.len() as int)
        =~= "\nFile transfer failed: "@);
    assert(("\nFile transfer failed: "@ + text@).skip("\nFile transfer failed: "@.len() as int)
        =~= text@);
}

/// A name typed at the prompt and ended with "\r\n" or "\n" (or any other
/// whitespace) registers the name alone; likewise "quit" so ended quits.
pub proof fn lemma_line_endings_are_dropped(name: Seq<char>, ending: Seq<char>)
    requires
        name.len() > 0,
        !is_ws(name[0]),
        !is_ws(name.last()),
        forall|i: int| 0 <= i < ending.len() ==> is_ws(#[trigger] ending[i]),
    ensures
        trim_ws(name + ending) == name,
        name == "quit"@ ==> is_quit(name + ending),
{
    lemma_trim_drops_trailing_ws(name, ending);
    if name == "quit"@ {
        assert(eq_ignoring_ascii_case(name, "quit"@));
    }
}

/// What the line `line` typed by the user asks for.
pub fn parse_input(line: &str) -> (r: ClientAction)
    requires
        input_defined(line@),
    ensures
        r@ == input_action(line@),
{
    let input = trim(line);
    if eq_ignore_ascii_case(input.as_str(), "quit") {
        return ClientAction::Quit;
    }
    let parts = split_text(input.as_str(), '/');
    assert(texts(parts@) == input_parts(line@));
    if parts.len() >= 2 {
        assert(parts@[1]@ == input_parts(line@)[1]);
        let kind = parts[1].as_str();
        if same_text(kind, "Scream") {
            assert(parts@[2]@ == input_parts(line@)[2]);
            ClientAction::Send(Command::Scream(parts[2].clone()))
        } else if same_text(kind, "Whisper") {
            if parts.len() >= 4 {
                assert(parts@[2]@ == input_parts(line@)[2]);
                assert(parts@[3]@ == input_parts(line@)[3]);
                ClientAction::Send(Command::Whisper(parts[2].clone(), parts[3].clone()))
            } else {
                ClientAction::Notice(
                    String::from_str("Invalid Whisper command. Use: /Whisper/recipient/message/"),
                )
            }
        } else if same_text(kind, "ListUsers") {
            ClientAction::Send(Command::ListUsers)
        } else if same_text(kind, "SendFile") {
            if parts.len() >= 4 {
                assert(parts@[2]@ == input_parts(line@)[2]);
                assert(parts@[3]@ == input_parts(line@)[3]);
                ClientAction::SendFile(parts[2].clone(), parts[3].clone())
            } else {
                ClientAction::Notice(
                    String::from_str("Invalid SendFile command. Use: /SendFile/recipient/filename"),
                )
            }
        } else {
            ClientAction::Notice(
                String::from_str(
                    "Unknown command. Use /Scream/, /Whisper/, /ListUsers/, or /SendFile/",
                ),
            )
        }
    } else {
        ClientAction::Notice(
            String::from_str(
                "Invalid command format. Use: `/Command/Message/`, `/Whisper/<recipient>/Message/`, `/ListUsers/` or `/SendFile/<recipient>/<filename>/`",
            ),
        )
    }
}

/// What the client does with a message from the server.
#[derive(Debug, Clone, PartialEq)]
pub enum Incoming {
    /// Show this text to the user.
    Show(String),
    /// Save the file (sender, file name, content).
    SaveFile(String, String, Vec<u8>),
    /// Nothing to show.
    Ignore,
}

/// What the client does with a message from the server, as a value.
pub enum IncomingView {
    Show(Seq<char>),
    SaveFile(Seq<char>, Seq<char>, Seq<u8>),
    Ignore,
}

impl View for Incoming {
    type V = IncomingView;

    open spec fn view(&self) -> IncomingView {
        match self {
            Incoming::Show(t) => IncomingView::Show(t@),
            Incoming::SaveFile(s, f, c) => IncomingView::SaveFile(s@, f@, c@),
            Incoming::Ignore => IncomingView::Ignore,
        }
    }
}

/// How the client treats the message `m`: a command (`Ok`) or a server response
/// (`Err`).
pub open spec fn incoming_view(m: Result<Command, ServerResponse>) -> IncomingView {
    match m {
        Ok(Command::Scream(msg)) => IncomingView::Show("\nBroadcast: "@ + msg@),
        Ok(Command::Whisper(from, msg)) => IncomingView::Show(
            "\nWhisper from "@ + from@ + ": "@ + msg@,
        ),
        Ok(Command::SendFile(sender, filename, content)) => IncomingView::SaveFile(
            sender@,
            filename@,
            content@,
        ),
        Ok(_) => IncomingView::Ignore,
        Err(ServerResponse::RegistrationSuccessful) => IncomingView::Show(
            "\nRegistration successful"@,
        ),
        Err(ServerResponse::Message(msg)) => IncomingView::Show("\nServer: "@ + msg@),
        Err(ServerResponse::FileTransferStarted(f)) => IncomingView::Show("\nReceiving file: "@ + f@),
        Err(ServerResponse::FileTransferComplete(f)) => IncomingView::Show("\nFile received: "@ + f@),
        Err(ServerResponse::FileTransferFailed(e)) => IncomingView::Show(
            "\nFile transfer failed: "@ + e@,
        ),
        Err(ServerResponse::UserList(users)) => IncomingView::Show(
            "\nOnline users: "@ + join_with(texts(users@), ", "@),
        ),
    }
}

/// How the client treats the message `m` from the server.
pub fn describe_message(m: Result<Command, ServerResponse>) -> (r: Incoming)
    ensures
        r@ == incoming_view(m),
{
    match m {
        Ok(Command::Scream(msg)) => {
            let mut t = String::from_str("\nBroadcast: ");
            t.append(msg.as_str());
            Incoming::Show(t)
        },
        Ok(Command::Whisper(from, msg)) => {
            let mut t = concat3("\nWhisper from ", from.as_str(), ": ");
            t.append(msg.as_str());
            Incoming::Show(t)
        },
        Ok(Command::SendFile(sender, filename, content)) => Incoming::SaveFile(
            sender,
            filename,
            content,
        ),
        Ok(_) => Incoming::Ignore,
        Err(ServerResponse::RegistrationSuccessful) => Incoming::Show(
            String::from_str("\nRegistration successful"),
        ),
        Err(ServerResponse::Message(msg)) => {
            let mut t = String::from_str("\nServer: ");
            t.append(msg.as_str());
            Incoming::Show(t)
        },
        Err(ServerResponse::FileTransferStarted(f)) => {
            let mut t = String::from_str("\nReceiving file: ");
            t.append(f.as_str());
            Incoming::Show(t)
        },
        Err(ServerResponse::FileTransferComplete(f)) => {
            let mut t = String::from_str("\nFile received: ");
            t.append(f.as_str());
            Incoming::Show(t)
        },
        Err(ServerResponse::FileTransferFailed(e)) => {
            let mut t = String::from_str("\nFile transfer failed: ");
            t.append(e.as_str());
            Incoming::Show(t)
        },
        Err(ServerResponse::UserList(users)) => {
            let mut t = String::from_str("\nOnline users: ");
            let joined = join_texts(&users, ", ");
            t.append(joined.as_str());
            Incoming::Show(t)
        },
    }
}

} // verus!
