//! What one connection's read loop decides: which command the peer sent,
//! how that changes the registry, and what goes back to the peer.

use vstd::prelude::*;
use crate::registry::{ConnState, ConnectionRegistry};

verus! {

/// A command read from a peer, after decoding and trimming.
pub enum Command {
    /// `SEND_DATA`: start streaming to this connection.
    SendData,
    /// `STOP`: stop streaming to this connection.
    Stop,
    /// Anything else, as received.
    Unknown { text: String },
}

/// What the read loop does after one read.
pub enum SessionStep {
    /// Keep reading.
    Continue,
    /// Write `text` to the peer, then keep reading.
    Reply { text: String },
    /// The connection is gone and was removed from the registry: stop reading.
    Close,
}

/// The text that `String::from_utf8_lossy` makes of some bytes.
pub uninterp spec fn lossy_text(b: Seq<u8>) -> Seq<char>;

/// The text that `str::trim` leaves of a text.
pub uninterp spec fn trimmed(s: Seq<char>) -> Seq<char>;

/// Relies on `String::from_utf8_lossy`: decodes bytes as UTF-8, with each
/// invalid sequence replaced; the result depends on the bytes alone.
#[verifier::external_body]
fn decode_lossy(b: &[u8]) -> (r: String)
    ensures
        r@ == lossy_text(b@),
{
    String::from_utf8_lossy(b).into_owned()
}

/// Relies on `str::trim`: drops leading and trailing whitespace; the result
/// depends on the text alone.
#[verifier::external_body]
fn trim_text(s: &str) -> (r: String)
    ensures
        r@ == trimmed(s@),
{
    s.trim().to_owned()
}

/// Whether `c` is the command that the (decoded, trimmed) text `t` stands for.
pub open spec fn command_for(c: Command, t: Seq<char>) -> bool {
    match c {
        Command::SendData => t == "SEND_DATA"@,
        Command::Stop => t == "STOP"@,
        Command::Unknown { text } => text@ == t && t != "SEND_DATA"@ && t != "STOP"@,
    }
}

/// How a command from connection `id` changes the registry's view.
pub open spec fn command_effect(m: Map<usize, ConnState>, id: usize, c: Command) -> Map<
    usize,
    ConnState,
> {
    match c {
        Command::SendData => if m.contains_key(id) {
            m.insert(id, ConnState { ready: true, connected: m[id].connected })
        } else {
            m
        },
        Command::Stop => if m.contains_key(id) {
            m.insert(id, ConnState { ready: false, connected: m[id].connected })
        } else {
            m
        },
        Command::Unknown { .. } => m,
    }
}

/// The line sent back for text that is no command.
pub open spec fn unknown_reply(t: Seq<char>) -> Seq<char> {
    "Unknown command: '"@ + t + "'\n"@
}

/// Recognizes the two commands in text that has been decoded and trimmed.
pub fn classify_command(text: &str) -> (r: Command)
    ensures
        command_for(r, text@),
{
    let owned = text.to_owned();
    let send = "SEND_DATA".to_owned();
    let stop = "STOP".to_owned();
    if owned == send {
        Command::SendData
    } else if owned == stop {
        Command::Stop
    } else {
        Command::Unknown { text: owned }
    }
}

/// Reads a command from the bytes of one read: decoded as UTF-8 (invalid
/// sequences replaced), surrounding whitespace trimmed, then recognized.
pub fn parse_command(bytes: &[u8]) -> (r: Command)
    ensures
        command_for(r, trimmed(lossy_text(bytes@))),
{
    let decoded = decode_lossy(bytes);
    let text = trim_text(decoded.as_str());
    classify_command(text.as_str())
}

/// Applies a command from connection `id` to the registry, and gives the
/// line to send back, if any. Both commands may be repeated freely.
pub fn handle_command<W>(registry: &mut ConnectionRegistry<W>, id: usize, command: &Command) -> (r:
    Option<String>)
    requires
        old(registry).wf(),
    ensures
        final(registry).wf(),
        final(registry).next_id() == old(registry).next_id(),
        final(registry)@ == command_effect(old(registry)@, id, *command),
        match *command {
            Command::Unknown { text } => r matches Some(reply) && reply@ == unknown_reply(text@),
            _ => r is None,
        },
{
    match command {
        Command::SendData => {
            registry.mark_ready(id);
            None
        },
        Command::Stop => {
            registry.mark_not_ready(id);
            None
        },
        Command::Unknown { text } => {
            let mut reply = String::from_str("Unknown command: '");
            reply.append(text.as_str());
            reply.append("'\n");
            Some(reply)
        },
    }
}

/// One step of a connection's read loop. `received` is what one read gave:
/// `None` for a failed read, an empty slice for the end of the stream. Both
/// remove the connection from the registry and end the loop; anything else
/// is a command.
pub fn handle_read<W>(registry: &mut ConnectionRegistry<W>, id: usize, received: Option<&[u8]>) -> (r:
    SessionStep)
    requires
        old(registry).wf(),
    ensures
        final(registry).wf(),
        final(registry).next_id() == old(registry).next_id(),
        match received {
            None => r is Close && final(registry)@ == old(registry)@.remove(id),
            Some(b) => if b@.len() == 0 {
                r is Close && final(registry)@ == old(registry)@.remove(id)
            } else {
                exists|c: Command|
                    command_for(c, trimmed(lossy_text(b@))) && final(registry)@ == command_effect(
                        old(registry)@,
                        id,
                        c,
                    ) && match c {
                        Command::Unknown { text } => r matches SessionStep::Reply { text: reply }
                            && reply@ == unknown_reply(text@),
                        _ => r is Continue,
                    }
            },
        },
{
    match received {
        None => {
            registry.remove(id);
            SessionStep::Close
        },
        Some(bytes) => {
            if bytes.len() == 0 {
                registry.remove(id);
                SessionStep::Close
            } else {
                let command = parse_command(bytes);
                match handle_command(registry, id, &command) {
                    Some(text) => SessionStep::Reply { text },
                    None => SessionStep::Continue,
                }
            }
        },
    }
}

/// Repeating `SEND_DATA` leaves a connection as one `SEND_DATA` does, ready;
/// repeating `STOP` leaves it as one `STOP` does, not ready.
pub proof fn lemma_commands_idempotent(m: Map<usize, ConnState>, id: usize)
    requires
        m.contains_key(id),
    ensures
        command_effect(command_effect(m, id, Command::SendData), id, Command::SendData)
            == command_effect(m, id, Command::SendData),
        command_effect(command_effect(m, id, Command::SendData), id, Command::SendData)[id].ready,
        command_effect(command_effect(m, id, Command::Stop), id, Command::Stop) == command_effect(
            m,
            id,
            Command::Stop,
        ),
        !command_effect(command_effect(m, id, Command::Stop), id, Command::Stop)[id].ready,
{
    let once = command_effect(m, id, Command::SendData);
    assert(command_effect(once, id, Command::SendData) =~= once);
    let stopped = command_effect(m, id, Command::Stop);
    assert(command_effect(stopped, id, Command::Stop) =~= stopped);
}

} // verus!
