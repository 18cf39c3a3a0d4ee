//! The decisions of the datagram receive loop: which bytes of the receive
//! buffer belong to a message, how the message is decoded, what is logged,
//! and when the loop terminates.

use crate::config::Config;
use vstd::prelude::*;
use vstd::string::StrSliceExecFns;
use vstd::string::StringExecFns;
use vstd::utf8::decode_utf8;
use vstd::utf8::valid_utf8;

verus! {

/// Capacity of the receive buffer: a datagram longer than this is truncated
/// to its first `BUFFER_SIZE_IN` bytes.
pub const BUFFER_SIZE_IN: usize = 1024;

/// A reason the server cannot be started from a configuration.
#[derive(Debug, PartialEq, Eq, Structural, Clone, Copy)]
pub enum ConfigError {
    /// The configuration has no `ip` key.
    MissingIp,
    /// The configuration has no `port` key.
    MissingPort,
}

/// What one receive-loop iteration observed.
pub enum LoopEvent {
    /// A datagram arrived: the receive buffer and the byte count the socket
    /// reported.
    Datagram { buffer: Vec<u8>, len: usize },
    /// The socket read failed.
    ReadError,
}

/// What the loop does with the iteration's event.
pub enum LoopAction {
    /// Log the sender and the message text, then keep listening.
    LogMessage { text: String },
    /// The bytes were not valid UTF-8: warn and keep listening.
    WarnInvalid { bytes: Vec<u8> },
    /// The message was the sentinel `exit`: log it and shut down.
    LogExit { text: String },
    /// The read failed: report it and shut down.
    StopOnError,
}

/// The state of the receive loop after an event is handled.
#[derive(Debug, PartialEq, Eq, Structural, Clone, Copy)]
pub enum LoopState {
    /// The loop waits for the next datagram.
    Listening,
    /// The loop has ended; no further datagram is processed.
    Terminated,
}

/// The bytes of a received message: the first `len` bytes of the buffer, and
/// never the stale bytes beyond the reported length.
pub open spec fn received_bytes(buffer: Seq<u8>, len: int) -> Seq<u8> {
    if len <= buffer.len() {
        buffer.take(len)
    } else {
        buffer
    }
}

/// A received message never outgrows the receive buffer: a datagram longer
/// than the buffer is truncated to the buffer's bytes, with no error raised,
/// and a shorter one is taken exactly to its reported length.
pub proof fn lemma_message_bounded(buffer: Seq<u8>, len: int)
    requires
        0 <= len,
    ensures
        received_bytes(buffer, len).len() <= buffer.len(),
        len <= buffer.len() ==> received_bytes(buffer, len) == buffer.take(len),
{
}

/// Copies the received message out of the buffer: exactly the first `len`
/// bytes, capped at the buffer's length.
pub fn extract_message(buffer: &Vec<u8>, len: usize) -> (r: Vec<u8>)
    ensures
        r@ == received_bytes(buffer@, len as int),
{
    let n = if len <= buffer.len() {
        len
    } else {
        buffer.len()
    };
    let mut out: Vec<u8> = Vec::new();
    let mut i: usize = 0;
    while i < n
        invariant
            n <= buffer@.len(),
            i <= n,
            out@ == buffer@.take(i as int),
        decreases n - i,
    {
        proof {
            assert(buffer@.take(i as int + 1) =~= buffer@.take(i as int).push(
                buffer@[i as int],
            ));
        }
        out.push(buffer[i]);
        i = i + 1;
    }
    proof {
        assert(out@ =~= received_bytes(buffer@, len as int));
    }
    out
}

/// Relies on `String::from_utf8`: the decoded string exactly when the bytes
/// are a valid UTF-8 encoding, and nothing otherwise.
#[verifier::external_body]
fn bytes_to_string(bytes: Vec<u8>) -> (r: Option<String>)
    ensures
        match r {
            Some(s) => valid_utf8(bytes@) && s@ == decode_utf8(bytes@),
            None => !valid_utf8(bytes@),
        },
{
    String::from_utf8(bytes).ok()
}

/// Whether the message text is the shutdown sentinel, the exact string
/// `exit`.
pub fn is_exit_message(s: &str) -> (r: bool)
    ensures
        r == (s@ == "exit"@),
{
    proof {
        reveal_strlit("exit");
    }
    let n = s.unicode_len();
    if n != 4 {
        return false;
    }
    let r = s.get_char(0) == 'e' && s.get_char(1) == 'x' && s.get_char(2) == 'i'
        && s.get_char(3) == 't';
    proof {
        if r {
            assert(s@ =~= "exit"@);
        }
    }
    r
}

/// Handles one receive-loop event, as the loop does while it listens: a
/// failed read stops the loop; a datagram is truncated to the reported
/// length, decoded as UTF-8 (a warning when that fails), logged, and matched
/// against the sentinel `exit`, which terminates the loop.
pub fn handle_event(event: LoopEvent) -> (r: (LoopAction, LoopState))
    ensures
        match event {
            LoopEvent::ReadError => r == (LoopAction::StopOnError, LoopState::Terminated),
            LoopEvent::Datagram { buffer, len } => {
                let msg = received_bytes(buffer@, len as int);
                if !valid_utf8(msg) {
                    &&& r.1 == LoopState::Listening
                    &&& r.0 matches LoopAction::WarnInvalid { bytes } && bytes@ == msg
                } else if decode_utf8(msg) == "exit"@ {
                    &&& r.1 == LoopState::Terminated
                    &&& r.0 matches LoopAction::LogExit { text } && text@ == decode_utf8(msg)
                } else {
                    &&& r.1 == LoopState::Listening
                    &&& r.0 matches LoopAction::LogMessage { text } && text@ == decode_utf8(msg)
                }
            },
        },
{
    match event {
        LoopEvent::ReadError => (LoopAction::StopOnError, LoopState::Terminated),
        LoopEvent::Datagram { buffer, len } => {
            let msg = extract_message(&buffer, len);
            match bytes_to_string(msg) {
                None => {
                    let bytes = extract_message(&buffer, len);
                    (LoopAction::WarnInvalid { bytes }, LoopState::Listening)
                },
                Some(text) => {
                    if is_exit_message(text.as_str()) {
                        (LoopAction::LogExit { text }, LoopState::Terminated)
                    } else {
                        (LoopAction::LogMessage { text }, LoopState::Listening)
                    }
                },
            }
        },
    }
}

/// The address the server binds to, `ip:port` from the two required
/// configuration keys, or the error naming the first missing one: `ip` is
/// checked before `port`, and without both no socket is created.
pub fn bind_address(cfg: &Config) -> (r: Result<String, ConfigError>)
    ensures
        !cfg@.contains_key("ip"@) ==> r == Err::<String, ConfigError>(ConfigError::MissingIp),
        cfg@.contains_key("ip"@) && !cfg@.contains_key("port"@) ==> r == Err::<
            String,
            ConfigError,
        >(ConfigError::MissingPort),
        cfg@.contains_key("ip"@) && cfg@.contains_key("port"@) ==> (r matches Ok(s) && s@
            == cfg@["ip"@] + ":"@ + cfg@["port"@]),
{
    let ip = match cfg.get("ip") {
        Some(v) => v,
        None => {
            return Err(ConfigError::MissingIp);
        },
    };
    let port = match cfg.get("port") {
        Some(v) => v,
        None => {
            return Err(ConfigError::MissingPort);
        },
    };
    let mut addr = ip.clone();
    addr.append(":");
    addr.append(port.as_str());
    Ok(addr)
}

/// The log line for a received message: the sender's address and port, an
/// arrow, and the message text.
pub fn format_log_line(ip: &str, port: &str, text: &str) -> (r: String)
    ensures
        r@ == ip@ + ":"@ + port@ + " --> SERV | "@ + text@,
{
    let mut line = ip.to_owned();
    line.append(":");
    line.append(port);
    line.append(" --> SERV | ");
    line.append(text);
    line
}

/// The diagnostic line for a datagram that is not valid UTF-8: the sender's
/// address and port, a warning marker, and the decode error's text.
pub fn format_warn_line(ip: &str, port: &str, err_text: &str) -> (r: String)
    ensures
        r@ == ip@ + ":"@ + port@ + " ->! SERV | Err: Invalid message! - "@ + err_text@,
{
    let mut line = ip.to_owned();
    line.append(":");
    line.append(port);
    line.append(" ->! SERV | Err: Invalid message! - ");
    line.append(err_text);
    line
}

} // verus!
