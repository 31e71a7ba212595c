//! The host side of the guest-agent connection: the Firecracker vsock
//! handshake and the interpretation of the guest's replies.
use vstd::prelude::*;
use crate::encoding::{b64_decode, b64_encode, base64_decoding, base64_encoding, decode_error_text, lossy_text, utf8_lossy};
use crate::error::{concat, AgentBoxError};
use crate::sandbox::ExecEvent;
use crate::text::{append_decimal, chars_of, decimal};

verus! {

/// Client for the guest agent of one VM: the host-side vsock socket and the
/// guest port the agent listens on.
#[derive(Debug)]
pub struct VsockClient {
    pub uds_path: String,
    pub port: u32,
}

impl VsockClient {
    /// A client for the agent on `port` behind the socket `uds_path`.
    pub fn new(uds_path: String, port: u32) -> (c: Self)
        ensures
            c.uds_path == uds_path,
            c.port == port,
    {
        VsockClient { uds_path, port }
    }

    /// The host-side socket path.
    pub fn uds_path(&self) -> (p: &String)
        ensures
            p == &self.uds_path,
    {
        &self.uds_path
    }

    /// The guest port.
    pub fn port(&self) -> (p: u32)
        ensures
            p == self.port,
    {
        self.port
    }

    /// The handshake line sent on connect: `CONNECT <port>\n`.
    pub fn connect_line(&self) -> (line: String)
        ensures
            line@ == "CONNECT "@ + decimal(self.port as nat) + "\n"@,
    {
        let mut line = "CONNECT ".to_owned();
        append_decimal(&mut line, self.port as u64);
        line.append("\n");
        line
    }
}

/// Whether a text starts with `OK`.
pub open spec fn starts_with_ok(t: Seq<char>) -> bool {
    t.len() >= 2 && t[0] == 'O' && t[1] == 'K'
}

/// The handshake verdict for the decoded reply line: accepted when it starts
/// with `OK`, refused otherwise with the reply quoted in the message.
pub fn handshake_verdict(reply: &str) -> (r: Result<(), AgentBoxError>)
    ensures
        r is Ok <==> starts_with_ok(reply@),
        r is Err ==> (r matches Err(AgentBoxError::VsockConnection(m)) && m@ == "vsock CONNECT failed: "@
            + reply@),
{
    let cs = chars_of(reply);
    if cs.len() >= 2 && cs[0] == 'O' && cs[1] == 'K' {
        Ok(())
    } else {
        Err(AgentBoxError::VsockConnection(concat("vsock CONNECT failed: ", reply)))
    }
}

/// Checks the raw reply line of the handshake (decoded lossily as UTF-8).
pub fn check_handshake(reply: &[u8]) -> (r: Result<(), AgentBoxError>)
    ensures
        r is Ok <==> starts_with_ok(utf8_lossy(reply@)),
        r is Err ==> (r matches Err(AgentBoxError::VsockConnection(m)) && m@ == "vsock CONNECT failed: "@
            + utf8_lossy(reply@)),
{
    let text = lossy_text(reply);
    handshake_verdict(text.as_str())
}

/// The error a guest reply carries: a string `error` field makes the request
/// fail with that message.
pub fn reply_error(error: Option<String>) -> (r: Option<AgentBoxError>)
    ensures
        match error {
            Some(m) => r matches Some(AgentBoxError::ExecFailed(x)) && x@ == m@,
            None => r is None,
        },
{
    match error {
        Some(m) => Some(AgentBoxError::ExecFailed(m)),
        None => None,
    }
}

/// The bytes of a file the guest sent: its `content` field (empty when
/// missing) decoded from base64; a decoding failure is a file error.
pub fn file_content(content: Option<String>) -> (r: Result<Vec<u8>, AgentBoxError>)
    ensures
        match base64_decoding(
            match content {
                Some(c) => c@,
                None => Seq::<char>::empty(),
            },
        ) {
            Some(b) => r matches Ok(v) && v@ == b,
            None => r matches Err(AgentBoxError::FileOp(_)),
        },
{
    let text = match content {
        Some(c) => c,
        None => String::new(),
    };
    match b64_decode(text.as_str()) {
        Ok(v) => Ok(v),
        Err(e) => Err(AgentBoxError::FileOp(decode_error_text(&e))),
    }
}

/// The `path` and `content` parameters of a `write_file` request: the path
/// as given and the bytes base64-encoded (decoding gives them back).
pub fn write_file_params(path: &str, data: &[u8]) -> (p: (String, String))
    ensures
        p.0@ == path@,
        p.1@ == base64_encoding(data@),
        base64_decoding(p.1@) == Some(data@),
{
    (path.to_owned(), b64_encode(data))
}

/// The `data` parameter of a `stdin` message: the bytes base64-encoded
/// (decoding gives them back).
pub fn stdin_data(data: &[u8]) -> (s: String)
    ensures
        s@ == base64_encoding(data@),
        base64_decoding(s@) == Some(data@),
{
    b64_encode(data)
}

/// Law: a file written through the agent and read back gives the host the
/// bytes it wrote. Each premise is the `ensures` of one step, for the value
/// that step returned: `sent` is the content `write_file_params` made of
/// `data`; `stored` is what `write_plan` accepted from a request whose
/// content is `sent`; `reply` is `read_content` of `stored`; and `back` is
/// what `file_content` returned for `reply`. The file system between the
/// write and the read is taken to keep the bytes.
pub proof fn law_write_then_read(
    data: Seq<u8>,
    sent: Seq<char>,
    stored: Seq<u8>,
    reply: Seq<char>,
    back: Seq<u8>,
)
    requires
        sent == base64_encoding(data),
        base64_decoding(sent) == Some(data),
        base64_decoding(sent) == Some(stored),
        reply == base64_encoding(stored),
        base64_decoding(reply) == Some(stored),
        base64_decoding(reply) matches Some(b) && back == b,
    ensures
        stored == data,
        back == data,
        reply == sent,
{
}

/// Hands out request identifiers, counting up from 1 (and wrapping after
/// the largest `u64`); one counter is shared by every connection to every
/// guest.
pub struct RequestIds {
    pub next: u64,
}

/// The identifier handed out after `n`.
pub open spec fn following_id(n: u64) -> u64 {
    if n == u64::MAX {
        0
    } else {
        (n + 1) as u64
    }
}

impl RequestIds {
    /// A counter whose first identifier is 1.
    pub fn new() -> (r: Self)
        ensures
            r.next == 1,
    {
        RequestIds { next: 1 }
    }

    /// Hands out the next identifier and moves past it.
    pub fn next_id(&mut self) -> (id: u64)
        ensures
            id == old(self).next,
            final(self).next == following_id(old(self).next),
    {
        let id = self.next;
        self.next = if self.next == u64::MAX {
            0
        } else {
            self.next + 1
        };
        id
    }
}

/// A ping succeeded when the reply's `status` is the string `ok`.
pub fn ping_succeeded(status: Option<&str>) -> (b: bool)
    ensures
        b == (match status {
            Some(s) => s@ == seq!['o', 'k'],
            None => false,
        }),
{
    match status {
        Some(s) => {
            let cs = chars_of(s);
            let b = cs.len() == 2 && cs[0] == 'o' && cs[1] == 'k';
            if cs.len() == 2 {
                assert(b ==> cs@ =~= seq!['o', 'k']);
            }
            b
        },
        None => false,
    }
}

/// The fields of one message of a streamed command, as read from its JSON.
pub struct StreamFields {
    /// `stream`, when it is a string.
    pub stream: Option<String>,
    /// `data`, when it is a string.
    pub data: Option<String>,
    /// Whether a `result` field is present.
    pub has_result: bool,
    /// `result.exit_code`, when it is an integer.
    pub exit_code: Option<i64>,
    /// `error`, when it is a string.
    pub error: Option<String>,
}

/// What the reader of a streamed command does with one message.
#[derive(Debug)]
pub enum StreamStep {
    /// Forward the event and keep reading.
    Event(ExecEvent),
    /// Forward the event and stop.
    Finish(ExecEvent),
    /// Ignore the message.
    Skip,
}

/// The bytes a `data` field stands for: its base64 decoding, or nothing when
/// it is missing or does not decode.
pub open spec fn stream_data(data: Option<String>) -> Seq<u8> {
    let text = match data {
        Some(d) => d@,
        None => Seq::<char>::empty(),
    };
    match base64_decoding(text) {
        Some(b) => b,
        None => Seq::empty(),
    }
}

/// Classifies one streamed message: output on `stdout`/`stderr` is forwarded
/// (other streams are ignored); a `result` ends the stream with its exit code
/// (-1 when missing, truncated to 32 bits); a string `error` ends it with that
/// error; anything else is ignored.
pub fn stream_step(f: StreamFields) -> (r: StreamStep)
    ensures
        match f.stream {
            Some(s) => if s@ == "stdout"@ {
                r matches StreamStep::Event(ExecEvent::Stdout(b)) && b@ == stream_data(f.data)
            } else if s@ == "stderr"@ {
                r matches StreamStep::Event(ExecEvent::Stderr(b)) && b@ == stream_data(f.data)
            } else {
                r is Skip
            },
            None => if f.has_result {
                r matches StreamStep::Finish(ExecEvent::Exit(c)) && c == (match f.exit_code {
                    Some(x) => x as i32,
                    None => -1i32,
                })
            } else {
                match f.error {
                    Some(m) => r matches StreamStep::Finish(ExecEvent::Error(x)) && x@ == m@,
                    None => r is Skip,
                }
            },
        },
{
    match f.stream {
        Some(s) => {
            let is_out = crate::text::str_eq(s.as_str(), "stdout");
            let is_err = crate::text::str_eq(s.as_str(), "stderr");
            if !is_out && !is_err {
                return StreamStep::Skip;
            }
            let data = match f.data {
                Some(d) => d,
                None => String::new(),
            };
            let decoded = match b64_decode(data.as_str()) {
                Ok(v) => v,
                Err(_) => Vec::new(),
            };
            if is_out {
                StreamStep::Event(ExecEvent::Stdout(decoded))
            } else {
                StreamStep::Event(ExecEvent::Stderr(decoded))
            }
        },
        None => {
            if f.has_result {
                let code = match f.exit_code {
                    Some(x) => x as i32,
                    None => -1,
                };
                StreamStep::Finish(ExecEvent::Exit(code))
            } else {
                match f.error {
                    Some(m) => StreamStep::Finish(ExecEvent::Error(m)),
                    None => StreamStep::Skip,
                }
            }
        },
    }
}

} // verus!
