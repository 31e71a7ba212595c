//! The guest agent's decisions: which handler a request goes to, what each
//! handler takes from its parameters, and which paths it may touch. Reading
//! requests, running processes and touching files happen around these.
use vstd::prelude::*;
use crate::encoding::{b64_decode, b64_encode, base64_decoding, base64_encoding, lossy_text, utf8_lossy};
use crate::error::concat;
use crate::paths::{
    components, has_prefix, law_validated_path_is_contained, same_path, text_result, validate_path,
    validate_path_result,
};
use crate::sandbox::ExecResult;
use crate::text::{append_decimal, decimal, str_eq};

verus! {

/// The parameters of a guest request as the handlers read them: a field is
/// present only where the request's JSON held a value of the expected type
/// (a string, or for `timeout` and `port` a non-negative integer).
#[derive(Debug, Clone)]
pub struct GuestParams {
    pub path: Option<String>,
    pub content: Option<String>,
    pub command: Option<String>,
    pub timeout: Option<u64>,
    pub port: Option<u64>,
}

/// The handler a request method selects.
#[derive(Debug, Clone, Copy, PartialEq, Eq, Structural)]
pub enum GuestMethod {
    Ping,
    Exec,
    ExecStream,
    ReadFile,
    WriteFile,
    ListFiles,
    Unknown,
}

/// The handler for the method called `name`.
pub open spec fn method_named(name: Seq<char>) -> GuestMethod {
    if name == "ping"@ {
        GuestMethod::Ping
    } else if name == "exec"@ {
        GuestMethod::Exec
    } else if name == "exec_stream"@ {
        GuestMethod::ExecStream
    } else if name == "read_file"@ {
        GuestMethod::ReadFile
    } else if name == "write_file"@ {
        GuestMethod::WriteFile
    } else if name == "list_files"@ {
        GuestMethod::ListFiles
    } else {
        GuestMethod::Unknown
    }
}

/// Selects the handler for a request method.
pub fn guest_method(name: &str) -> (m: GuestMethod)
    ensures
        m == method_named(name@),
{
    if str_eq(name, "ping") {
        GuestMethod::Ping
    } else if str_eq(name, "exec") {
        GuestMethod::Exec
    } else if str_eq(name, "exec_stream") {
        GuestMethod::ExecStream
    } else if str_eq(name, "read_file") {
        GuestMethod::ReadFile
    } else if str_eq(name, "write_file") {
        GuestMethod::WriteFile
    } else if str_eq(name, "list_files") {
        GuestMethod::ListFiles
    } else {
        GuestMethod::Unknown
    }
}

/// The error answered for a method the agent does not know.
pub fn unknown_method_message(name: &str) -> (s: String)
    ensures
        s@ == "Unknown method: "@ + name@,
{
    concat("Unknown method: ", name)
}

/// Seconds a command may run when the request does not say.
pub const GUEST_EXEC_TIMEOUT_SECS: u64 = 30;

/// The `path` parameter, if the request has one.
pub open spec fn path_param(params: Option<GuestParams>) -> Option<Seq<char>> {
    match params {
        Some(p) => match p.path {
            Some(s) => Some(s@),
            None => None,
        },
        None => None,
    }
}

/// The `command` parameter, if the request has one.
pub open spec fn command_param(params: Option<GuestParams>) -> Option<Seq<char>> {
    match params {
        Some(p) => match p.command {
            Some(s) => Some(s@),
            None => None,
        },
        None => None,
    }
}

/// The command and time limit of an `exec` request: the parameters must be
/// there and hold a string `command`; the limit defaults to 30 seconds.
pub fn exec_params(params: &Option<GuestParams>) -> (r: Result<(String, u64), String>)
    ensures
        match params {
            None => r matches Err(e) && e@ == "Missing params"@,
            Some(p) => match p.command {
                None => r matches Err(e) && e@ == "Missing 'command' parameter"@,
                Some(c) => r matches Ok(v) && v.0@ == c@ && v.1 == (match p.timeout {
                    Some(t) => t,
                    None => GUEST_EXEC_TIMEOUT_SECS,
                }),
            },
        },
{
    match params {
        None => Err("Missing params".to_owned()),
        Some(p) => match &p.command {
            None => Err("Missing 'command' parameter".to_owned()),
            Some(c) => {
                let t = match p.timeout {
                    Some(t) => t,
                    None => GUEST_EXEC_TIMEOUT_SECS,
                };
                Ok((c.clone(), t))
            },
        },
    }
}

/// The command of an `exec_stream` request.
pub fn stream_command(params: &Option<GuestParams>) -> (r: Result<String, String>)
    ensures
        match command_param(*params) {
            None => r matches Err(e) && e@ == "Missing 'command' parameter"@,
            Some(c) => r matches Ok(s) && s@ == c,
        },
{
    match params {
        Some(p) => match &p.command {
            Some(c) => Ok(c.clone()),
            None => Err("Missing 'command' parameter".to_owned()),
        },
        None => Err("Missing 'command' parameter".to_owned()),
    }
}

/// The file a `read_file` or `mkdir` request names, checked against the
/// workspace `base`.
pub fn file_target(params: &Option<GuestParams>, base: &str) -> (r: Result<String, String>)
    ensures
        match path_param(*params) {
            None => r matches Err(e) && e@ == "Missing 'path' parameter"@,
            Some(p) => text_result(r) == validate_path_result(p, base@),
        },
{
    match params {
        Some(p) => match &p.path {
            Some(path) => validate_path(path.as_str(), base),
            None => Err("Missing 'path' parameter".to_owned()),
        },
        None => Err("Missing 'path' parameter".to_owned()),
    }
}

/// The directory a `list_files` request names (`/workspace` when it names
/// none), checked against the workspace `base`.
pub fn list_target(params: &Option<GuestParams>, base: &str) -> (r: Result<String, String>)
    ensures
        text_result(r) == validate_path_result(
            match path_param(*params) {
                Some(p) => p,
                None => "/workspace"@,
            },
            base@,
        ),
{
    match params {
        Some(p) => match &p.path {
            Some(path) => validate_path(path.as_str(), base),
            None => validate_path("/workspace", base),
        },
        None => validate_path("/workspace", base),
    }
}

/// What a `delete` request may remove: the checked path, never the
/// workspace root itself (compared component by component).
pub open spec fn delete_result(path: Seq<char>, base: Seq<char>) -> Result<Seq<char>, Seq<char>> {
    match validate_path_result(path, base) {
        Err(e) => Err(e),
        Ok(v) => if components(v) == components(base) {
            Err("Cannot delete workspace root"@)
        } else {
            Ok(v)
        },
    }
}

/// The entry a delete request names, checked against the workspace `base`.
pub fn delete_target(params: &Option<GuestParams>, base: &str) -> (r: Result<String, String>)
    ensures
        match path_param(*params) {
            None => r matches Err(e) && e@ == "Missing 'path' parameter"@,
            Some(p) => text_result(r) == delete_result(p, base@),
        },
{
    let validated = file_target(params, base);
    match validated {
        Err(e) => Err(e),
        Ok(v) => if same_path(v.as_str(), base) {
            Err("Cannot delete workspace root".to_owned())
        } else {
            Ok(v)
        },
    }
}

/// Law: what a delete may remove lies strictly under the workspace: its
/// components extend those of the workspace and differ from them.
pub proof fn law_delete_stays_strictly_inside(path: Seq<char>, base: Seq<char>)
    ensures
        delete_result(path, base) matches Ok(v) ==> has_prefix(components(v), components(base))
            && components(v) != components(base),
{
    law_validated_path_is_contained(path, base);
}

/// The checked destination and decoded bytes of a `write_file` request.
pub fn write_plan(params: &Option<GuestParams>, base: &str) -> (r: Result<(String, Vec<u8>), String>)
    ensures
        match params {
            None => r matches Err(e) && e@ == "Missing params"@,
            Some(p) => match (p.path, p.content) {
                (None, _) => r matches Err(e) && e@ == "Missing 'path' parameter"@,
                (Some(_), None) => r matches Err(e) && e@ == "Missing 'content' parameter"@,
                (Some(path), Some(content)) => match base64_decoding(content@) {
                    None => r matches Err(e) && "Invalid base64 content: "@.is_prefix_of(e@),
                    Some(bytes) => match validate_path_result(path@, base@) {
                        Err(m) => r matches Err(e) && e@ == m,
                        Ok(v) => r matches Ok(w) && w.0@ == v && w.1@ == bytes,
                    },
                },
            },
        },
{
    let p = match params {
        None => return Err("Missing params".to_owned()),
        Some(p) => p,
    };
    let path = match &p.path {
        None => return Err("Missing 'path' parameter".to_owned()),
        Some(s) => s,
    };
    let content = match &p.content {
        None => return Err("Missing 'content' parameter".to_owned()),
        Some(s) => s,
    };
    let decoded = match b64_decode(content.as_str()) {
        Ok(d) => d,
        Err(e) => {
            let text = crate::encoding::decode_error_text(&e);
            let msg = concat("Invalid base64 content: ", text.as_str());
            proof {
                assert("Invalid base64 content: "@.is_prefix_of(msg@)) by {
                    assert(msg@.subrange(0, "Invalid base64 content: "@.len() as int)
                        =~= "Invalid base64 content: "@);
                }
            }
            return Err(msg);
        },
    };
    match validate_path(path.as_str(), base) {
        Err(e) => Err(e),
        Ok(v) => Ok((v, decoded)),
    }
}

/// The `content` a `read_file` reply carries for the file's bytes: their
/// base64 encoding, which decodes back to exactly those bytes.
pub fn read_content(content: &[u8]) -> (c: String)
    ensures
        c@ == base64_encoding(content@),
        base64_decoding(c@) == Some(content@),
{
    b64_encode(content)
}

/// The guest port of a port-forward request, cut to 16 bits as the agent
/// does.
pub fn forward_port(params: &Option<GuestParams>) -> (r: Result<u16, String>)
    ensures
        match params {
            Some(p) => match p.port {
                Some(v) => r == Ok::<u16, String>(v as u16),
                None => r matches Err(e) && e@ == "Missing 'port' parameter"@,
            },
            None => r matches Err(e) && e@ == "Missing 'port' parameter"@,
        },
{
    match params {
        Some(p) => match p.port {
            Some(v) => Ok(v as u16),
            None => Err("Missing 'port' parameter".to_owned()),
        },
        None => Err("Missing 'port' parameter".to_owned()),
    }
}

/// The error answered when nothing listens on the forwarded guest port.
pub fn connect_failure_message(port: u16) -> (s: String)
    ensures
        s@ == "Failed to connect to guest port "@ + decimal(port as nat),
{
    let mut s = "Failed to connect to guest port ".to_owned();
    append_decimal(&mut s, port as u64);
    s
}

/// The exit code reported for a process: its code, or -1 when it has none
/// (killed by a signal) or could not be waited for.
pub fn exit_code_of(code: Option<i32>) -> (c: i32)
    ensures
        c == (match code {
            Some(v) => v,
            None => -1i32,
        }),
{
    match code {
        Some(v) => v,
        None => -1,
    }
}

/// The result of a finished command from its captured output, each stream
/// read as UTF-8 with invalid sequences replaced.
pub fn exec_outcome(stdout: &[u8], stderr: &[u8], code: Option<i32>) -> (r: ExecResult)
    ensures
        r.stdout@ == utf8_lossy(stdout@),
        r.stderr@ == utf8_lossy(stderr@),
        r.exit_code == (match code {
            Some(v) => v,
            None => -1i32,
        }),
{
    ExecResult { stdout: lossy_text(stdout), stderr: lossy_text(stderr), exit_code: exit_code_of(code) }
}

/// How a command run by `exec` ended, as the agent saw it.
#[derive(Debug)]
pub enum ExecEnd {
    /// Its output was read to the end and it exited within the deadline;
    /// `code` is `None` when a signal ended it.
    Finished { stdout: Vec<u8>, stderr: Vec<u8>, code: Option<i32> },
    /// Reading its output or waiting for it failed, with this error text.
    Failed(String),
    /// The deadline passed first.
    TimedOut,
}

/// What the agent does once an `exec` command has ended: the reply it sends
/// and whether the child process must be killed.
#[derive(Debug)]
pub struct ExecDecision {
    pub reply: Result<ExecResult, String>,
    pub kill_child: bool,
}

/// The reply to `exec` for each way the command can end. A command that
/// outlives its deadline is answered "command timed out" and its process is
/// killed; one whose output could not be read is a process error; one that
/// finished reports its output and exit code.
pub fn exec_decision(end: ExecEnd) -> (d: ExecDecision)
    ensures
        match end {
            ExecEnd::Finished { stdout, stderr, code } => d.reply matches Ok(r) && r.stdout@
                == utf8_lossy(stdout@) && r.stderr@ == utf8_lossy(stderr@) && r.exit_code == (
            match code {
                Some(v) => v,
                None => -1i32,
            }) && !d.kill_child,
            ExecEnd::Failed(e) => d.reply matches Err(m) && m@ == "Process error: "@ + e@
                && !d.kill_child,
            ExecEnd::TimedOut => d.reply matches Err(m) && m@ == "command timed out"@
                && d.kill_child,
        },
{
    match end {
        ExecEnd::Finished { stdout, stderr, code } => ExecDecision {
            reply: Ok(exec_outcome(stdout.as_slice(), stderr.as_slice(), code)),
            kill_child: false,
        },
        ExecEnd::Failed(e) => ExecDecision {
            reply: Err(concat("Process error: ", e.as_str())),
            kill_child: false,
        },
        ExecEnd::TimedOut => ExecDecision {
            reply: Err("command timed out".to_owned()),
            kill_child: true,
        },
    }
}

/// The output stream a chunk of a streamed command came from.
#[derive(Debug, Clone, Copy, PartialEq, Eq, Structural)]
pub enum OutputStream {
    Stdout,
    Stderr,
}

/// The wire name of an output stream.
pub open spec fn stream_name(s: OutputStream) -> Seq<char> {
    match s {
        OutputStream::Stdout => "stdout"@,
        OutputStream::Stderr => "stderr"@,
    }
}

/// One chunk of a streamed command's output, base64-encoded.
#[derive(Debug, Clone)]
pub struct StreamMessage {
    pub id: u64,
    pub stream: String,
    pub data: String,
}

impl StreamMessage {
    /// The message that carries `bytes` read from `stream` for request `id`.
    pub fn chunk(id: u64, stream: OutputStream, bytes: &[u8]) -> (m: Self)
        ensures
            m.id == id,
            m.stream@ == stream_name(stream),
            m.data@ == base64_encoding(bytes@),
            base64_decoding(m.data@) == Some(bytes@),
    {
        let name = match stream {
            OutputStream::Stdout => "stdout".to_owned(),
            OutputStream::Stderr => "stderr".to_owned(),
        };
        StreamMessage { id, stream: name, data: b64_encode(bytes) }
    }
}

/// The most bytes one read of a command's output pipe takes, and so the most
/// output one streamed chunk carries.
pub const STREAM_READ_BYTES: usize = 4096;

/// What the `data` fields of `messages` decode to, one after another; `None`
/// if one of them does not decode.
pub open spec fn decoded_data(messages: Seq<StreamMessage>) -> Option<Seq<u8>>
    decreases messages.len(),
{
    if messages.len() == 0 {
        Some(Seq::empty())
    } else {
        match (decoded_data(messages.drop_last()), base64_decoding(messages.last().data@)) {
            (Some(a), Some(b)) => Some(a + b),
            _ => None,
        }
    }
}

/// The reads of a pipe put together in order.
pub open spec fn joined(reads: Seq<Seq<u8>>) -> Seq<u8>
    decreases reads.len(),
{
    if reads.len() == 0 {
        Seq::empty()
    } else {
        joined(reads.drop_last()) + reads.last()
    }
}

/// Law: the chunks of a streamed command rebuild its output. When each of
/// `messages` is what `StreamMessage::chunk` gives for request `id`, stream
/// `stream` and the read at the same place in `reads` (each read at most
/// `STREAM_READ_BYTES` long), every message carries `id` and the stream's
/// name, decodes to at most `STREAM_READ_BYTES` bytes, and the messages'
/// data decoded in order is everything that was read.
pub proof fn law_stream_chunks_rebuild_output(
    id: u64,
    stream: OutputStream,
    reads: Seq<Seq<u8>>,
    messages: Seq<StreamMessage>,
)
    requires
        messages.len() == reads.len(),
        forall|i: int| 0 <= i < reads.len() ==> #[trigger] reads[i].len() <= STREAM_READ_BYTES,
        forall|i: int|
            0 <= i < messages.len() ==> {
                let m = #[trigger] messages[i];
                &&& m.id == id
                &&& m.stream@ == stream_name(stream)
                &&& m.data@ == base64_encoding(reads[i])
                &&& base64_decoding(m.data@) == Some(reads[i])
            },
    ensures
        decoded_data(messages) == Some(joined(reads)),
        forall|i: int|
            0 <= i < messages.len() ==> {
                let m = #[trigger] messages[i];
                &&& m.id == id
                &&& m.stream@ == stream_name(stream)
                &&& base64_decoding(m.data@) matches Some(b) && b.len() <= STREAM_READ_BYTES
            },
    decreases messages.len(),
{
    if messages.len() > 0 {
        let n = messages.len() - 1;
        assert forall|i: int| 0 <= i < n implies #[trigger] reads.drop_last()[i].len()
            <= STREAM_READ_BYTES by {
            assert(reads.drop_last()[i] == reads[i]);
        }
        assert forall|i: int| 0 <= i < n implies {
            let m = #[trigger] messages.drop_last()[i];
            &&& m.id == id
            &&& m.stream@ == stream_name(stream)
            &&& m.data@ == base64_encoding(reads.drop_last()[i])
            &&& base64_decoding(m.data@) == Some(reads.drop_last()[i])
        } by {
            assert(messages.drop_last()[i] == messages[i]);
            assert(reads.drop_last()[i] == reads[i]);
        }
        law_stream_chunks_rebuild_output(id, stream, reads.drop_last(), messages.drop_last());
        assert(messages.last() == messages[n]);
        assert(reads.last() == reads[n]);
        assert forall|i: int| 0 <= i < messages.len() implies {
            let m = #[trigger] messages[i];
            &&& m.id == id
            &&& m.stream@ == stream_name(stream)
            &&& base64_decoding(m.data@) matches Some(b) && b.len() <= STREAM_READ_BYTES
        } by {
            assert(reads[i].len() <= STREAM_READ_BYTES);
        }
    }
}

/// How the agent was asked to run: the port it listens on and whether it
/// uses TCP (for development) instead of vsock.
#[derive(Debug, Clone, Copy, PartialEq, Eq, Structural)]
pub struct GuestArgs {
    pub port: u16,
    pub tcp: bool,
}

/// Why the agent's arguments were refused.
#[derive(Debug, Clone)]
pub enum GuestArgError {
    /// An argument that is neither `--port` nor `--tcp`.
    Unknown(String),
    /// A `--port` value that is not a number from 0 to 65535.
    InvalidPort(String),
}

/// Whether `c` is an ASCII decimal digit.
pub open spec fn is_digit(c: char) -> bool {
    '0' <= c <= '9'
}

/// The number written by the decimal digits `d`.
pub open spec fn digits_value(d: Seq<char>) -> nat
    decreases d.len(),
{
    if d.len() == 0 {
        0
    } else {
        digits_value(d.drop_last()) * 10 + ((d.last() as nat) - ('0' as nat)) as nat
    }
}

/// Whether every character of `d` is a decimal digit.
pub open spec fn all_digits(d: Seq<char>) -> bool {
    forall|i: int| 0 <= i < d.len() ==> is_digit(#[trigger] d[i])
}

/// `s` without one leading `+`.
pub open spec fn unsigned_part(s: Seq<char>) -> Seq<char> {
    if s.len() > 0 && s[0] == '+' {
        s.skip(1)
    } else {
        s
    }
}

/// What `str::parse::<u16>` accepts: an optional `+`, then one or more
/// decimal digits whose value is at most 65535.
pub open spec fn parsed_u16(s: Seq<char>) -> Option<u16> {
    let d = unsigned_part(s);
    if d.len() > 0 && all_digits(d) && digits_value(d) <= 65535 {
        Some(digits_value(d) as u16)
    } else {
        None
    }
}

/// Parses a port number as `str::parse::<u16>` does.
pub fn parse_port(s: &str) -> (r: Option<u16>)
    ensures
        r == parsed_u16(s@),
{
    let cs = crate::text::chars_of(s);
    let start: usize = if cs.len() > 0 && cs[0] == '+' {
        1
    } else {
        0
    };
    let ghost d = unsigned_part(s@);
    assert(d =~= cs@.skip(start as int));
    if start >= cs.len() {
        return None;
    }
    let mut value: u32 = 0;
    let mut i = start;
    while i < cs.len()
        invariant
            start <= i <= cs.len(),
            cs@ == s@,
            d == cs@.skip(start as int),
            d == unsigned_part(s@),
            forall|k: int| 0 <= k < i - start ==> is_digit(#[trigger] d[k]),
            value == digits_value(d.take(i - start)),
            value <= 65535,
        decreases cs.len() - i,
    {
        let c = cs[i];
        assert(d[i - start] == cs@[i as int]);
        if !('0' <= c && c <= '9') {
            assert(!is_digit(d[i - start]));
            assert(!all_digits(d));
            return None;
        }
        let digit = (c as u32) - ('0' as u32);
        assert(d.take(i - start + 1).drop_last() =~= d.take(i - start));
        assert(d.take(i - start + 1).last() == c);
        let next = value * 10 + digit;
        assert(digits_value(d.take(i - start + 1)) == value * 10 + digit);
        if next > 65535 {
            proof {
                if all_digits(d) {
                    lemma_digits_value_grows(d, i - start + 1);
                }
            }
            return None;
        }
        value = next;
        i += 1;
    }
    assert(d.take(i - start) =~= d);
    Some(value as u16)
}

proof fn lemma_digits_value_grows(d: Seq<char>, n: int)
    requires
        0 <= n <= d.len(),
        all_digits(d),
    ensures
        digits_value(d.take(n)) <= digits_value(d),
    decreases d.len() - n,
{
    if n < d.len() {
        lemma_digits_value_grows(d, n + 1);
        assert(d.take(n + 1).drop_last() =~= d.take(n));
    } else {
        assert(d.take(n) =~= d);
    }
}

/// The agent's arguments read left to right from position `i`, with the
/// port and mode found so far: `--port <n>` sets the port (a trailing
/// `--port` without a value is ignored), `--tcp` selects TCP, anything else
/// is refused. An error is `(true, arg)` for an unknown argument and
/// `(false, value)` for a port that does not parse.
pub open spec fn scan_guest_args(args: Seq<Seq<char>>, i: int, port: u16, tcp: bool) -> Result<
    (u16, bool),
    (bool, Seq<char>),
>
    decreases args.len() - i,
{
    if i < 0 || i >= args.len() {
        Ok((port, tcp))
    } else if args[i] == "--port"@ {
        if i + 1 < args.len() {
            match parsed_u16(args[i + 1]) {
                Some(p) => scan_guest_args(args, i + 2, p, tcp),
                None => Err((false, args[i + 1])),
            }
        } else {
            Ok((port, tcp))
        }
    } else if args[i] == "--tcp"@ {
        scan_guest_args(args, i + 1, port, true)
    } else {
        Err((true, args[i]))
    }
}

proof fn lemma_scan_shift(a: Seq<char>, rest: Seq<Seq<char>>, j: int, port: u16, tcp: bool)
    requires
        0 <= j,
    ensures
        scan_guest_args(seq![a] + rest, j + 1, port, tcp) == scan_guest_args(rest, j, port, tcp),
    decreases rest.len() - j,
{
    let all = seq![a] + rest;
    if j < rest.len() {
        assert(all[j + 1] == rest[j]);
        if j + 1 < rest.len() {
            assert(all[j + 2] == rest[j + 1]);
        }
        if rest[j] == "--port"@ {
            if j + 1 < rest.len() {
                if parsed_u16(rest[j + 1]) is Some {
                    lemma_scan_shift(a, rest, j + 2, parsed_u16(rest[j + 1])->0, tcp);
                }
            }
        } else if rest[j] == "--tcp"@ {
            lemma_scan_shift(a, rest, j + 1, port, true);
        }
    }
}

/// Law: `--tcp` takes no value. Arguments that start with `--tcp` read as the
/// rest of them with TCP selected; in particular `--tcp --port <n>`, for any
/// `n` that parses as a port, asks for TCP on that port.
pub proof fn law_tcp_takes_no_value(rest: Seq<Seq<char>>, port: u16, tcp: bool, n: Seq<char>)
    ensures
        scan_guest_args(seq!["--tcp"@] + rest, 0, port, tcp) == scan_guest_args(rest, 0, port, true),
        parsed_u16(n) matches Some(p) ==> scan_guest_args(
            seq!["--tcp"@, "--port"@, n],
            0,
            port,
            tcp,
        ) == Ok::<(u16, bool), (bool, Seq<char>)>((p, true)),
{
    reveal_strlit("--tcp");
    reveal_strlit("--port");
    assert("--tcp"@ != "--port"@) by {
        assert("--tcp"@[2] != "--port"@[2]);
    }
    let all = seq!["--tcp"@] + rest;
    assert(all[0] == "--tcp"@);
    lemma_scan_shift("--tcp"@, rest, 0, port, true);
    let args = seq!["--tcp"@, "--port"@, n];
    assert(args[0] == "--tcp"@);
    assert(args[1] == "--port"@);
    assert(args[2] == n);
    if parsed_u16(n) is Some {
        let p = parsed_u16(n)->0;
        assert(scan_guest_args(args, 3, p, true) == Ok::<(u16, bool), (bool, Seq<char>)>((p, true)));
        assert(scan_guest_args(args, 1, port, true) == scan_guest_args(args, 3, p, true));
        assert(scan_guest_args(args, 0, port, tcp) == scan_guest_args(args, 1, port, true));
    }
}

/// The views of a list of arguments.
pub open spec fn arg_views(args: Seq<String>) -> Seq<Seq<char>> {
    args.map_values(|a: String| a@)
}

/// The agent's settings from its arguments (the program name excluded),
/// starting from port 5000 over vsock.
pub fn guest_agent_args(args: &Vec<String>) -> (r: Result<GuestArgs, GuestArgError>)
    ensures
        match (r, scan_guest_args(arg_views(args@), 0, 5000, false)) {
            (Ok(a), Ok(v)) => a.port == v.0 && a.tcp == v.1,
            (Err(GuestArgError::Unknown(x)), Err(e)) => e.0 && x@ == e.1,
            (Err(GuestArgError::InvalidPort(x)), Err(e)) => !e.0 && x@ == e.1,
            _ => false,
        },
{
    let ghost views = arg_views(args@);
    let mut port: u16 = 5000;
    let mut tcp = false;
    let mut i: usize = 0;
    while i < args.len()
        invariant
            i <= args@.len(),
            views == arg_views(args@),
            scan_guest_args(views, i as int, port, tcp) == scan_guest_args(views, 0, 5000, false),
        decreases args@.len() - i,
    {
        let a = args[i].as_str();
        assert(views[i as int] == a@);
        if crate::text::str_eq(a, "--port") {
            if i + 1 < args.len() {
                assert(views[i + 1] == args@[i + 1]@);
                match parse_port(args[i + 1].as_str()) {
                    Some(p) => port = p,
                    None => return Err(GuestArgError::InvalidPort(args[i + 1].clone())),
                }
                i += 2;
            } else {
                i += 1;
                assert(scan_guest_args(views, i as int, port, tcp) == Ok::<(u16, bool), (bool, Seq<char>)>((port, tcp)));
            }
        } else if crate::text::str_eq(a, "--tcp") {
            tcp = true;
            i += 1;
        } else {
            return Err(GuestArgError::Unknown(args[i].clone()));
        }
    }
    Ok(GuestArgs { port, tcp })
}

} // verus!
