//! Framed IPC sessions: frame sequence numbering and the mutual
//! authentication checks of the handshake.

use crate::security::{channel_key_input, constant_time_eq, derive_channel_key, sha256_digest};
use crate::cli::{append_decimal, decimal_digits};
use crate::text::append_chars;
use vstd::prelude::*;

verus! {

/// The pipe name of an engine session.
pub open spec fn pipe_name_of(session_id: Seq<char>) -> Seq<char> {
    "\\\\.\\pipe\\pigtree-engine-"@ + session_id
}

/// The named-pipe path of the engine session with the given id.
pub fn format_pipe_name(session_id: &str) -> (r: String)
    ensures
        r@ == pipe_name_of(session_id@),
{
    let mut out: Vec<char> = Vec::new();
    append_chars(&mut out, "\\\\.\\pipe\\pigtree-engine-");
    append_chars(&mut out, session_id);
    crate::text::string_from_chars(out.as_slice())
}

/// Which end of a named pipe a stream is.
#[derive(Debug, Clone, Copy, PartialEq, Eq, Structural)]
pub enum PipeRole {
    Server,
    Client,
}

/// A duplex stream with the sequence numbers of the frames sent on it.
pub struct FramedSession<S> {
    stream: S,
    sequence_number: u64,
}

impl<S> FramedSession<S> {
    /// The underlying stream.
    pub closed spec fn stream_view(&self) -> S {
        self.stream
    }

    /// The sequence number of the last frame numbered.
    pub closed spec fn sequence(&self) -> u64 {
        self.sequence_number
    }

    /// A session over `stream` that has numbered no frame yet.
    pub fn new(stream: S) -> (r: Self)
        ensures
            r.stream_view() == stream,
            r.sequence() == 0,
    {
        FramedSession { stream, sequence_number: 0 }
    }

    /// Gives back the underlying stream.
    pub fn into_inner(self) -> (r: S)
        ensures
            r == self.stream_view(),
    {
        self.stream
    }

    /// The underlying stream, for direct reads and writes.
    pub fn stream_mut(&mut self) -> (r: &mut S)
        ensures
            *r == old(self).stream_view(),
            final(self).stream_view() == *final(r),
            final(self).sequence() == old(self).sequence(),
    {
        &mut self.stream
    }

    /// Numbers the next frame: one more than the last.
    pub fn next_seq(&mut self) -> (r: u64)
        requires
            old(self).sequence() < u64::MAX,
        ensures
            r == old(self).sequence() + 1,
            final(self).sequence() == r,
            final(self).stream_view() == old(self).stream_view(),
    {
        self.sequence_number = self.sequence_number + 1;
        self.sequence_number
    }

    /// Numbers the next frame and names the request it carries: the verb,
    /// a hyphen, and the frame's sequence number in decimal.
    pub fn next_request_id(&mut self, verb: &str) -> (r: String)
        requires
            old(self).sequence() < u64::MAX,
        ensures
            final(self).sequence() == old(self).sequence() + 1,
            final(self).stream_view() == old(self).stream_view(),
            r@ == verb@ + "-"@ + decimal_digits(final(self).sequence() as nat),
    {
        let seq = self.next_seq();
        let mut out: Vec<char> = Vec::new();
        append_chars(&mut out, verb);
        append_chars(&mut out, "-");
        append_decimal(&mut out, seq);
        crate::text::string_from_chars(out.as_slice())
    }
}

/// Why the engine refuses a client's handshake.
#[derive(Debug, Clone, Copy, PartialEq, Eq, Structural)]
pub enum HandshakeRejection {
    /// The request did not come on the command channel.
    WrongChannel,
    /// The request did not carry the bootstrap nonce handed to the engine at launch.
    NonceMismatch,
    /// The request names another process than the one connected to the pipe.
    PidMismatch { expected: u32, actual: u32 },
}

/// The engine's verdict on a handshake request: on the command channel,
/// with the launch nonce, from the connected process.
pub open spec fn client_handshake_verdict(
    on_command_channel: bool,
    presented_nonce: Seq<u8>,
    presented_pid: u32,
    bootstrap_nonce: Seq<u8>,
    connected_pid: u32,
) -> Result<(), HandshakeRejection> {
    if !on_command_channel {
        Err(HandshakeRejection::WrongChannel)
    } else if presented_nonce != bootstrap_nonce {
        Err(HandshakeRejection::NonceMismatch)
    } else if presented_pid != connected_pid {
        Err(HandshakeRejection::PidMismatch { expected: connected_pid, actual: presented_pid })
    } else {
        Ok(())
    }
}

impl HandshakeRejection {
    /// The refusal the engine answers with before it closes the session;
    /// a request on the wrong channel gets none.
    pub fn reply_message(&self) -> (r: Option<&'static str>)
        ensures
            match *self {
                HandshakeRejection::WrongChannel => r is None,
                HandshakeRejection::NonceMismatch => r == Some("Invalid bootstrap launch nonce"),
                HandshakeRejection::PidMismatch { .. } => r == Some("Client PID mismatch"),
            },
    {
        match self {
            HandshakeRejection::WrongChannel => None,
            HandshakeRejection::NonceMismatch => Some("Invalid bootstrap launch nonce"),
            HandshakeRejection::PidMismatch { .. } => Some("Client PID mismatch"),
        }
    }
}

/// Checks a client's handshake request (see `client_handshake_verdict`);
/// the nonce is compared in constant time.
pub fn check_client_handshake(
    on_command_channel: bool,
    presented_nonce: &[u8],
    presented_pid: u32,
    bootstrap_nonce: &[u8; 32],
    connected_pid: u32,
) -> (r: Result<(), HandshakeRejection>)
    ensures
        r == client_handshake_verdict(
            on_command_channel,
            presented_nonce@,
            presented_pid,
            bootstrap_nonce@,
            connected_pid,
        ),
{
    if !on_command_channel {
        return Err(HandshakeRejection::WrongChannel);
    }
    if !constant_time_eq(presented_nonce, bootstrap_nonce) {
        return Err(HandshakeRejection::NonceMismatch);
    }
    if presented_pid != connected_pid {
        return Err(HandshakeRejection::PidMismatch { expected: connected_pid, actual: presented_pid });
    }
    Ok(())
}

/// Why a client refuses the engine's handshake response.
#[derive(Debug, Clone, PartialEq, Eq)]
pub enum ServerHandshakeRejection {
    /// The response did not come on the command channel.
    WrongChannel,
    /// The engine refused the handshake, with its message.
    Refused { message: String },
    /// The response names another process than the engine that was launched.
    PidMismatch { expected: u32, actual: u32 },
    /// The engine's channel-key hash is not the one derived from the nonces.
    KeyMismatch,
}

/// The client's check of a handshake response succeeds.
pub open spec fn server_handshake_ok(
    on_command_channel: bool,
    status: u32,
    server_pid: u32,
    key_hash: Seq<u8>,
    engine_pid: u32,
    bootstrap_nonce: Seq<u8>,
    client_nonce: Seq<u8>,
    server_nonce: Seq<u8>,
) -> bool {
    &&& on_command_channel
    &&& status == 0
    &&& server_pid == engine_pid
    &&& key_hash == sha256_digest(channel_key_input(bootstrap_nonce, client_nonce, server_nonce))
}

/// Checks the engine's handshake response: on the command channel, accepted,
/// from the launched engine, and with the channel key that both sides
/// derive from the three nonces. On success, the channel key.
pub fn check_server_handshake(
    on_command_channel: bool,
    status: u32,
    error_message: &str,
    server_pid: u32,
    key_hash: &[u8],
    engine_pid: u32,
    bootstrap_nonce: &[u8],
    client_nonce: &[u8],
    server_nonce: &[u8],
) -> (r: Result<[u8; 32], ServerHandshakeRejection>)
    ensures
        !on_command_channel ==> r == Err::<[u8; 32], ServerHandshakeRejection>(
            ServerHandshakeRejection::WrongChannel,
        ),
        on_command_channel && status != 0 ==> (r matches Err(ServerHandshakeRejection::Refused { message }) && message@ == error_message@),
        on_command_channel && status == 0 && server_pid != engine_pid ==> r == Err::<[u8; 32], ServerHandshakeRejection>(
            ServerHandshakeRejection::PidMismatch { expected: engine_pid, actual: server_pid },
        ),
        on_command_channel && status == 0 && server_pid == engine_pid && !server_handshake_ok(
            on_command_channel,
            status,
            server_pid,
            key_hash@,
            engine_pid,
            bootstrap_nonce@,
            client_nonce@,
            server_nonce@,
        ) ==> r == Err::<[u8; 32], ServerHandshakeRejection>(ServerHandshakeRejection::KeyMismatch),
        r is Ok <==> server_handshake_ok(
            on_command_channel,
            status,
            server_pid,
            key_hash@,
            engine_pid,
            bootstrap_nonce@,
            client_nonce@,
            server_nonce@,
        ),
        r matches Ok(k) ==> k@ == sha256_digest(channel_key_input(bootstrap_nonce@, client_nonce@, server_nonce@)),
{
    if !on_command_channel {
        return Err(ServerHandshakeRejection::WrongChannel);
    }
    if status != 0 {
        return Err(ServerHandshakeRejection::Refused { message: error_message.to_owned() });
    }
    if server_pid != engine_pid {
        return Err(ServerHandshakeRejection::PidMismatch { expected: engine_pid, actual: server_pid });
    }
    let expected = derive_channel_key(bootstrap_nonce, client_nonce, server_nonce);
    if !constant_time_eq(key_hash, &expected) {
        return Err(ServerHandshakeRejection::KeyMismatch);
    }
    Ok(expected)
}

/// An authenticated engine-side session.
pub struct EngineServerSession<S> {
    framed: FramedSession<S>,
    client_pid: u32,
    client_session_id: u32,
    channel_key: [u8; 32],
}

impl<S> EngineServerSession<S> {
    pub closed spec fn framed_view(&self) -> FramedSession<S> {
        self.framed
    }

    pub closed spec fn pid_view(&self) -> u32 {
        self.client_pid
    }

    pub closed spec fn session_id_view(&self) -> u32 {
        self.client_session_id
    }

    pub closed spec fn key_view(&self) -> Seq<u8> {
        self.channel_key@
    }

    /// A session whose handshake passed: the framed stream, the connected
    /// client's process and session ids, and the derived channel key.
    pub fn established(
        framed: FramedSession<S>,
        client_pid: u32,
        client_session_id: u32,
        channel_key: [u8; 32],
    ) -> (r: Self)
        ensures
            r.framed_view() == framed,
            r.pid_view() == client_pid,
            r.session_id_view() == client_session_id,
            r.key_view() == channel_key@,
    {
        EngineServerSession { framed, client_pid, client_session_id, channel_key }
    }

    pub fn client_pid(&self) -> (r: u32)
        ensures
            r == self.pid_view(),
    {
        self.client_pid
    }

    pub fn client_session_id(&self) -> (r: u32)
        ensures
            r == self.session_id_view(),
    {
        self.client_session_id
    }

    pub fn channel_key(&self) -> (r: &[u8; 32])
        ensures
            r@ == self.key_view(),
    {
        &self.channel_key
    }

    /// The framed stream, for sending and receiving.
    pub fn framed_mut(&mut self) -> (r: &mut FramedSession<S>)
        ensures
            *r == old(self).framed_view(),
            final(self).framed_view() == *final(r),
            final(self).pid_view() == old(self).pid_view(),
            final(self).session_id_view() == old(self).session_id_view(),
            final(self).key_view() == old(self).key_view(),
    {
        &mut self.framed
    }
}

} // verus!
