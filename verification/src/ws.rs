//! The interactive command session behind the WebSocket endpoint, as a state
//! machine: the socket loop hands each event to `WsSession::step` and carries
//! out the action it gets back.
use vstd::prelude::*;
use crate::encoding::{b64_decode, b64_encode, base64_decoding, base64_encoding};
use crate::error::{agentbox_error_text, concat, AgentBoxError};
use crate::sandbox::ExecEvent;

verus! {

/// A message from the client.
#[derive(Debug, Clone)]
pub enum ClientMessage {
    Exec { command: String, timeout: Option<u64> },
    Stdin { data: String },
    Signal { signal: i32 },
}

/// A message to the client.
#[derive(Debug, Clone)]
pub enum ServerMessage {
    Ready,
    Stdout { data: String },
    Stderr { data: String },
    Exit { code: i32 },
    Error { message: String },
}

/// What the socket loop observed.
#[derive(Debug)]
pub enum WsEvent {
    /// The running command produced an event.
    Output(ExecEvent),
    /// The running command's deadline passed.
    Deadline,
    /// A client text message that parsed.
    Client(ClientMessage),
    /// A client text message that did not parse, with the parser's message.
    Unparsable(String),
    /// A frame other than text or close.
    OtherFrame,
    /// The client closed the socket or it ended.
    Closed,
    /// The sandbox started the command requested by `StartExec`.
    ExecStarted,
    /// The sandbox refused the command requested by `StartExec`.
    ExecFailed(AgentBoxError),
    /// Delivering a signal failed.
    SignalFailed(AgentBoxError),
}

/// What the socket loop must do next.
#[derive(Debug)]
pub enum WsAction {
    /// Send a message.
    Send(ServerMessage),
    /// Send a message, then drop the command's event stream, stdin and deadline.
    SendAndRelease(ServerMessage),
    /// Kill the command (signal 9), drop its stream, stdin and deadline, then
    /// send a message.
    KillAndSend(ServerMessage),
    /// Start the command on the sandbox; on success arm a deadline this many
    /// seconds away, then report `ExecStarted` or `ExecFailed`.
    StartExec { command: String, timeout_secs: u64 },
    /// Hand bytes to the command's standard input.
    ForwardStdin(Vec<u8>),
    /// Send a signal to the sandbox's processes; report `SignalFailed` on error.
    SendSignal(i32),
    /// Nothing to do.
    Nothing,
    /// Leave the loop.
    Close,
}

/// Seconds an interactive command may run when the client does not say.
pub const WS_EXEC_TIMEOUT_SECS: u64 = 30;

/// Whether an event ends the command.
pub open spec fn is_terminal(e: ExecEvent) -> bool {
    e is Exit || e is Error
}

/// The state of one session: whether a command is running (its event
/// stream, stdin and deadline exist exactly then).
#[derive(Debug, Clone, Copy)]
pub struct WsSession {
    pub running: bool,
}

impl WsSession {
    /// A new session, with no command running; the first thing sent is `Ready`.
    pub fn new() -> (r: (Self, ServerMessage))
        ensures
            !r.0.running,
            r.1 is Ready,
    {
        (WsSession { running: false }, ServerMessage::Ready)
    }

    /// Decides the reaction to one event and updates the session. Command
    /// output and the deadline count only while a command runs; any that
    /// arrive after it ended are ignored.
    pub fn step(&mut self, event: WsEvent) -> (a: WsAction)
        ensures
            match event {
                WsEvent::Output(e) => if old(self).running {
                    &&& final(self).running == !is_terminal(e)
                    &&& match e {
                        ExecEvent::Stdout(b) => a matches WsAction::Send(ServerMessage::Stdout { data })
                            && data@ == base64_encoding(b@),
                        ExecEvent::Stderr(b) => a matches WsAction::Send(ServerMessage::Stderr { data })
                            && data@ == base64_encoding(b@),
                        ExecEvent::Exit(c) => a matches WsAction::SendAndRelease(ServerMessage::Exit { code })
                            && code == c,
                        ExecEvent::Error(m) => a matches WsAction::SendAndRelease(ServerMessage::Error { message })
                            && message@ == m@,
                    }
                } else {
                    !final(self).running && a is Nothing
                },
                WsEvent::Deadline => if old(self).running {
                    &&& !final(self).running
                    &&& a matches WsAction::KillAndSend(ServerMessage::Error { message })
                    &&& message@ == "Command timed out"@
                } else {
                    !final(self).running && a is Nothing
                },
                WsEvent::Client(ClientMessage::Exec { command, timeout }) => {
                    &&& final(self).running == old(self).running
                    &&& if old(self).running {
                        a matches WsAction::Send(ServerMessage::Error { message })
                            && message@ == "A command is already running"@
                    } else {
                        a matches WsAction::StartExec { command: c, timeout_secs } && c@ == command@
                            && timeout_secs == (match timeout {
                            Some(t) => t,
                            None => WS_EXEC_TIMEOUT_SECS,
                        })
                    }
                },
                WsEvent::Client(ClientMessage::Stdin { data }) => {
                    &&& final(self).running == old(self).running
                    &&& if old(self).running && base64_decoding(data@) is Some {
                        a matches WsAction::ForwardStdin(b) && base64_decoding(data@) == Some(b@)
                    } else {
                        a is Nothing
                    }
                },
                WsEvent::Client(ClientMessage::Signal { signal }) => {
                    &&& final(self).running == old(self).running
                    &&& a == WsAction::SendSignal(signal)
                },
                WsEvent::Unparsable(m) => {
                    &&& final(self).running == old(self).running
                    &&& a matches WsAction::Send(ServerMessage::Error { message })
                    &&& message@ == "Invalid message: "@ + m@
                },
                WsEvent::OtherFrame => final(self).running == old(self).running && a is Nothing,
                WsEvent::Closed => final(self).running == old(self).running && a is Close,
                WsEvent::ExecStarted => final(self).running && a is Nothing,
                WsEvent::ExecFailed(e) => {
                    &&& final(self).running == old(self).running
                    &&& a matches WsAction::Send(ServerMessage::Error { message })
                    &&& message@ == agentbox_error_text(e)
                },
                WsEvent::SignalFailed(e) => {
                    &&& final(self).running == old(self).running
                    &&& a matches WsAction::Send(ServerMessage::Error { message })
                    &&& message@ == agentbox_error_text(e)
                },
            },
    {
        match event {
            WsEvent::Output(e) => {
                if !self.running {
                    return WsAction::Nothing;
                }
                match e {
                    ExecEvent::Stdout(b) => WsAction::Send(ServerMessage::Stdout { data: b64_encode(b.as_slice()) }),
                    ExecEvent::Stderr(b) => WsAction::Send(ServerMessage::Stderr { data: b64_encode(b.as_slice()) }),
                    ExecEvent::Exit(code) => {
                        self.running = false;
                        WsAction::SendAndRelease(ServerMessage::Exit { code })
                    },
                    ExecEvent::Error(message) => {
                        self.running = false;
                        WsAction::SendAndRelease(ServerMessage::Error { message })
                    },
                }
            },
            WsEvent::Deadline => {
                if !self.running {
                    return WsAction::Nothing;
                }
                self.running = false;
                WsAction::KillAndSend(ServerMessage::Error { message: "Command timed out".to_owned() })
            },
            WsEvent::Client(m) => match m {
                ClientMessage::Exec { command, timeout } => {
                    if self.running {
                        WsAction::Send(
                            ServerMessage::Error { message: "A command is already running".to_owned() },
                        )
                    } else {
                        let timeout_secs = match timeout {
                            Some(t) => t,
                            None => WS_EXEC_TIMEOUT_SECS,
                        };
                        WsAction::StartExec { command, timeout_secs }
                    }
                },
                ClientMessage::Stdin { data } => {
                    if self.running {
                        match b64_decode(data.as_str()) {
                            Ok(bytes) => WsAction::ForwardStdin(bytes),
                            Err(_) => WsAction::Nothing,
                        }
                    } else {
                        WsAction::Nothing
                    }
                },
                ClientMessage::Signal { signal } => WsAction::SendSignal(signal),
            },
            WsEvent::Unparsable(m) => WsAction::Send(
                ServerMessage::Error { message: concat("Invalid message: ", m.as_str()) },
            ),
            WsEvent::OtherFrame => WsAction::Nothing,
            WsEvent::Closed => WsAction::Close,
            WsEvent::ExecStarted => {
                self.running = true;
                WsAction::Nothing
            },
            WsEvent::ExecFailed(e) => WsAction::Send(ServerMessage::Error { message: e.to_string() }),
            WsEvent::SignalFailed(e) => WsAction::Send(ServerMessage::Error { message: e.to_string() }),
        }
    }
}

} // verus!
