//! The pipe between a client and the window that holds temporary secrets. References travel over
//! it, never values.
use vstd::prelude::*;
use vstd::slice::slice_subrange;

use crate::fido::append_bytes;
use crate::id::{uuid_text, Id};
use crate::secrets_app::{refusal, Response};
use crate::text::{hex_digits, hex_string, lowercase, lowercase_text};

verus! {

/// The largest message in bytes.
pub const MAX_FRAME: usize = 128 * 1024;

/// How long one exchange may take.
pub const IO_TIMEOUT_MS: u64 = 5_000;

/// How many clients are served at a time.
pub const MAX_CLIENTS: usize = 8;

/// How many requests wait for the window.
pub const MAX_QUEUED: usize = 8;

/// The pipe of a session.
pub fn pipe_name(session: Id) -> (r: String)
    ensures
        r@ == "\\\\.\\pipe\\codex-hosts-temporary-"@ + uuid_text(session.value),
{
    let mut name = "\\\\.\\pipe\\codex-hosts-temporary-".to_owned();
    name.append(session.text().as_str());
    name
}

/// The access list that lets nobody but the user open the pipe.
pub fn pipe_access(sid: &str) -> (r: String)
    ensures
        r@ == "D:P(A;;GA;;;"@ + sid@ + ")"@,
{
    let mut text = "D:P(A;;GA;;;".to_owned();
    text.append(sid);
    text.append(")");
    text
}

/// The text with every slash turned into a backslash.
pub open spec fn backslashed(s: Seq<char>) -> Seq<char> {
    Seq::new(
        s.len(),
        |i: int|
            if s[i] == '/' {
                '\\'
            } else {
                s[i]
            },
    )
}

fn with_backslashes(s: &str) -> (r: String)
    ensures
        r@ == backslashed(s@),
{
    let mut out = String::new();
    for c in iter: s.chars()
        invariant
            iter.seq() == s@,
            out@ == backslashed(s@).take(iter.index()),
    {
        let ghost at = iter.index();
        if c == '/' {
            out.push('\\');
        } else {
            out.push(c);
        }
        assert(backslashed(s@).take(at + 1) =~= backslashed(s@).take(at).push(backslashed(s@)[at]));
    }
    assert(backslashed(s@).take(s@.len() as int) =~= backslashed(s@));
    out
}

pub const FNV_START: u64 = 0xcbf29ce484222325;

pub const FNV_FACTOR: u64 = 0x100000001b3;

/// The FNV-1a hash of bytes, 64 bits wide.
pub open spec fn fnv1a(bytes: Seq<u8>) -> u64
    decreases bytes.len(),
{
    if bytes.len() == 0 {
        FNV_START
    } else {
        (fnv1a(bytes.drop_last()) ^ (bytes.last() as u64)).wrapping_mul(FNV_FACTOR)
    }
}

pub fn hash_bytes(bytes: &[u8]) -> (r: u64)
    ensures
        r == fnv1a(bytes@),
{
    let mut hash: u64 = FNV_START;
    let mut i: usize = 0;
    while i < bytes.len()
        invariant
            i <= bytes@.len(),
            hash == fnv1a(bytes@.take(i as int)),
        decreases bytes@.len() - i,
    {
        let ghost more = bytes@.take(i + 1);
        assert(more.drop_last() =~= bytes@.take(i as int));
        assert(more.last() == bytes@[i as int]);
        hash = (hash ^ (bytes[i] as u64)).wrapping_mul(FNV_FACTOR);
        i = i + 1;
    }
    assert(bytes@.take(bytes@.len() as int) =~= bytes@);
    hash
}

/// The spelling of a directory by which its window is found: case and slashes do not matter.
pub open spec fn directory_key(directory: Seq<char>) -> Seq<char> {
    lowercase_text(backslashed(directory))
}

/// The name in which the hash of a directory's key appears.
pub open spec fn discovery_text(sid: Seq<char>, key: Seq<char>) -> Seq<char> {
    "\\\\.\\pipe\\codex-hosts-main-"@ + sid + "-"@ + hex_digits(
        fnv1a(vstd::utf8::encode_utf8(key)) as nat,
        16,
    )
}

/// The pipe name of a user and the key of a directory.
pub fn keyed_name(sid: &str, key: &str) -> (r: String)
    ensures
        r@ == discovery_text(sid@, key@),
{
    let hash: u64 = hash_bytes(key.as_bytes());
    let mut name = "\\\\.\\pipe\\codex-hosts-main-".to_owned();
    name.append(sid);
    name.append("-");
    name.append(hex_string(hash, 16).as_str());
    name
}

/// The pipe under which the window of a user and an absolute data directory is found.
pub fn discovery_name(directory: &str, sid: &str) -> (r: String)
    ensures
        r@ == discovery_text(sid@, directory_key(directory@)),
{
    let normalized = lowercase(with_backslashes(directory).as_str());
    keyed_name(sid, normalized.as_str())
}

/// One directory has one name, whichever way its slashes lean.
pub proof fn slashes_do_not_change_the_name(a: Seq<char>, b: Seq<char>, sid: Seq<char>)
    requires
        a.len() == b.len(),
        forall|i: int|
            0 <= i < a.len() ==> (#[trigger] a[i]) == b[i] || (a[i] == '/' && b[i] == '\\') || (a[i]
                == '\\' && b[i] == '/'),
    ensures
        discovery_text(sid, directory_key(a)) == discovery_text(sid, directory_key(b)),
{
    assert(backslashed(a) =~= backslashed(b));
}

/// A number in four bytes, least significant first.
pub open spec fn le_bytes(value: u32) -> Seq<u8> {
    seq![
        (value % 0x100) as u8,
        (value / 0x100 % 0x100) as u8,
        (value / 0x10000 % 0x100) as u8,
        (value / 0x1000000) as u8,
    ]
}

/// The number in the first four bytes, least significant first.
pub open spec fn le_value(bytes: Seq<u8>) -> int {
    bytes[0] + bytes[1] * 0x100 + bytes[2] * 0x10000 + bytes[3] * 0x1000000
}

/// A message that may travel.
pub open spec fn frame_fits(length: int) -> bool {
    0 < length <= MAX_FRAME
}

/// A message is empty or too long.
#[derive(Debug, Clone, Copy, PartialEq, Eq, Structural)]
pub struct FrameLimit;

/// The length that a header announces. A length over the limit is refused before anything is
/// allocated for it.
pub fn frame_length(header: &[u8]) -> (r: Result<usize, FrameLimit>)
    requires
        header@.len() == 4,
    ensures
        r is Ok <==> frame_fits(le_value(header@)),
        r matches Ok(length) ==> length == le_value(header@),
{
    let length: u64 = header[0] as u64 + header[1] as u64 * 0x100 + header[2] as u64 * 0x10000
        + header[3] as u64 * 0x1000000;
    if length == 0 || length > MAX_FRAME as u64 {
        return Err(FrameLimit);
    }
    Ok(length as usize)
}

/// The bytes that carry a message: its length, then the message.
pub fn write_frame(bytes: &[u8]) -> (r: Result<Vec<u8>, FrameLimit>)
    ensures
        r is Ok <==> frame_fits(bytes@.len() as int),
        r matches Ok(frame) ==> frame@ == le_bytes(bytes@.len() as u32) + bytes@,
{
    if bytes.len() == 0 || bytes.len() > MAX_FRAME {
        return Err(FrameLimit);
    }
    let length: u32 = bytes.len() as u32;
    let mut frame: Vec<u8> = Vec::new();
    frame.push((length % 0x100) as u8);
    frame.push((length / 0x100 % 0x100) as u8);
    frame.push((length / 0x10000 % 0x100) as u8);
    frame.push((length / 0x1000000) as u8);
    assert(frame@ =~= le_bytes(length));
    append_bytes(&mut frame, bytes);
    Ok(frame)
}

/// What a stream holds.
#[derive(Debug, PartialEq, Eq)]
pub enum FrameRead {
    /// The stream ends before the message does.
    Incomplete,
    Limit,
    Message(Vec<u8>),
}

/// Reads the message at the start of a stream.
pub fn read_frame(stream: &[u8]) -> (r: FrameRead)
    ensures
        if stream@.len() < 4 {
            r is Incomplete
        } else if !frame_fits(le_value(stream@.take(4))) {
            r is Limit
        } else if stream@.len() < 4 + le_value(stream@.take(4)) {
            r is Incomplete
        } else {
            r matches FrameRead::Message(bytes) && bytes@ == stream@.subrange(
                4,
                4 + le_value(stream@.take(4)),
            )
        },
{
    if stream.len() < 4 {
        return FrameRead::Incomplete;
    }
    let header = slice_subrange(stream, 0, 4);
    assert(header@ =~= stream@.take(4));
    match frame_length(header) {
        Err(_) => FrameRead::Limit,
        Ok(length) => {
            if stream.len() - 4 < length {
                return FrameRead::Incomplete;
            }
            let mut bytes: Vec<u8> = Vec::new();
            append_bytes(&mut bytes, slice_subrange(stream, 4, 4 + length));
            assert(bytes@ =~= stream@.subrange(4, 4 + length));
            FrameRead::Message(bytes)
        },
    }
}

/// What was written is what is read: of a frame, with anything behind it, the length and the
/// message come back.
pub proof fn frames_round_trip(bytes: Seq<u8>, rest: Seq<u8>)
    requires
        frame_fits(bytes.len() as int),
    ensures
        ({
            let stream = le_bytes(bytes.len() as u32) + bytes + rest;
            &&& le_value(stream.take(4)) == bytes.len()
            &&& stream.subrange(4, 4 + le_value(stream.take(4))) == bytes
        }),
{
    let length = bytes.len() as u32;
    let stream = le_bytes(length) + bytes + rest;
    assert(stream.take(4) =~= le_bytes(length));
    lemma_le(length);
    assert(stream.subrange(4, 4 + length) =~= bytes);
}

proof fn lemma_le(value: u32)
    ensures
        le_value(le_bytes(value)) == value,
{
    let a = (value % 0x100) as u8;
    let b = (value / 0x100 % 0x100) as u8;
    let c = (value / 0x10000 % 0x100) as u8;
    let d = (value / 0x1000000) as u8;
    assert(a == value % 0x100 && b == value / 0x100 % 0x100 && c == value / 0x10000 % 0x100 && d
        == value / 0x1000000);
}

/// Where the call of a client stands.
#[derive(Debug, Clone, Copy, PartialEq, Eq, Structural)]
pub enum CallState {
    Opening,
    Sending,
    Receiving,
    Over,
}

/// What happened to the pipe of a client.
#[derive(Debug, Clone, Copy, PartialEq, Eq, Structural)]
pub enum CallEvent {
    Opened,
    /// Every instance of the pipe is taken.
    Busy,
    Sent,
    /// A response was read; it names this session.
    Answered { session: Id },
    /// What was read is no response.
    BadAnswer,
    /// Opening, sending or receiving failed.
    Failed,
    /// The time for the exchange is over.
    TimedOut,
}

/// What a client does next.
#[derive(Debug, Clone, Copy, PartialEq, Eq, Structural)]
pub enum CallAction {
    /// Try to open the pipe again a little later.
    OpenAgain,
    Send,
    Receive,
    Accept,
    Fail(CallFailure),
}

#[derive(Debug, Clone, Copy, PartialEq, Eq, Structural)]
pub enum CallFailure {
    Pipe,
    BadAnswer,
    WrongSession,
    TimedOut,
}

/// The call of a client, and the session that it expects to answer.
#[derive(Debug, Clone, Copy, PartialEq, Eq, Structural)]
pub struct Call {
    pub expected: Option<Id>,
    pub state: CallState,
}

/// What follows an event.
pub open spec fn call_after(call: Call, event: CallEvent) -> (Call, CallAction) {
    let over = Call { state: CallState::Over, ..call };
    match (call.state, event) {
        (_, CallEvent::TimedOut) => (over, CallAction::Fail(CallFailure::TimedOut)),
        (CallState::Opening, CallEvent::Opened) => (
            Call { state: CallState::Sending, ..call },
            CallAction::Send,
        ),
        (CallState::Opening, CallEvent::Busy) => (call, CallAction::OpenAgain),
        (CallState::Sending, CallEvent::Sent) => (
            Call { state: CallState::Receiving, ..call },
            CallAction::Receive,
        ),
        (CallState::Receiving, CallEvent::Answered { session }) => if call.expected is Some
            && call.expected != Some(session) {
            (over, CallAction::Fail(CallFailure::WrongSession))
        } else {
            (over, CallAction::Accept)
        },
        (CallState::Receiving, CallEvent::BadAnswer) => (
            over,
            CallAction::Fail(CallFailure::BadAnswer),
        ),
        _ => (over, CallAction::Fail(CallFailure::Pipe)),
    }
}

impl Call {
    pub fn start(expected: Option<Id>) -> (r: Self)
        ensures
            r == (Call { expected, state: CallState::Opening }),
    {
        Call { expected, state: CallState::Opening }
    }

    /// Takes an event. Only the opening is tried again: a request that was sent may have taken
    /// effect even when its answer is lost.
    pub fn step(&mut self, event: CallEvent) -> (r: CallAction)
        ensures
            (*final(self), r) == call_after(*old(self), event),
    {
        let state = self.state;
        if event == CallEvent::TimedOut {
            self.state = CallState::Over;
            return CallAction::Fail(CallFailure::TimedOut);
        }
        match state {
            CallState::Opening => {
                if event == CallEvent::Opened {
                    self.state = CallState::Sending;
                    return CallAction::Send;
                }
                if event == CallEvent::Busy {
                    return CallAction::OpenAgain;
                }
            },
            CallState::Sending => {
                if event == CallEvent::Sent {
                    self.state = CallState::Receiving;
                    return CallAction::Receive;
                }
            },
            CallState::Receiving => {
                self.state = CallState::Over;
                if let CallEvent::Answered { session } = event {
                    if self.expected.is_some() && self.expected.unwrap() != session {
                        return CallAction::Fail(CallFailure::WrongSession);
                    }
                    return CallAction::Accept;
                }
                if event == CallEvent::BadAnswer {
                    return CallAction::Fail(CallFailure::BadAnswer);
                }
            },
            CallState::Over => {},
        }
        self.state = CallState::Over;
        CallAction::Fail(CallFailure::Pipe)
    }
}

/// The state after a run of events.
pub open spec fn call_run(call: Call, events: Seq<CallEvent>) -> Call
    decreases events.len(),
{
    if events.len() == 0 {
        call
    } else {
        call_after(call_run(call, events.drop_last()), events.last()).0
    }
}

/// How often a run of events asked for the request to be sent.
pub open spec fn times_sent(call: Call, events: Seq<CallEvent>) -> nat
    decreases events.len(),
{
    if events.len() == 0 {
        0
    } else {
        let before = call_run(call, events.drop_last());
        times_sent(call, events.drop_last()) + if call_after(before, events.last()).1
            == CallAction::Send {
            1nat
        } else {
            0nat
        }
    }
}

/// Whatever happens, a request is sent at most once.
pub proof fn a_request_is_sent_once(expected: Option<Id>, events: Seq<CallEvent>)
    ensures
        times_sent(Call { expected, state: CallState::Opening }, events) <= 1,
        call_run(Call { expected, state: CallState::Opening }, events).state == CallState::Opening
            ==> times_sent(Call { expected, state: CallState::Opening }, events) == 0,
    decreases events.len(),
{
    if events.len() > 0 {
        a_request_is_sent_once(expected, events.drop_last());
    }
}

/// The answer that the server gives by itself; nothing when the window has to answer.
pub fn own_answer(session: Id, readable: bool, queued: bool) -> (r: Option<Response>)
    ensures
        match r {
            Some(response) => if !readable {
                response@ == refusal(session, "TEMPORARY_REQUEST_INVALID"@)
            } else {
                !queued && response@ == refusal(session, "TEMPORARY_BUSY"@)
            },
            None => readable && queued,
        },
{
    if !readable {
        Some(Response::error(session, "TEMPORARY_REQUEST_INVALID"))
    } else if !queued {
        Some(Response::error(session, "TEMPORARY_BUSY"))
    } else {
        None
    }
}

/// What the server of a pipe does next.
#[derive(Debug, Clone, Copy, PartialEq, Eq, Structural)]
pub enum ListenAction {
    /// Wait for a client that is being served to leave.
    WaitForRoom,
    /// Wait for a client to connect.
    Accept,
    /// Serve the client that connected on a handle of its own.
    Serve,
    Stop,
}

/// What happened to the server of a pipe.
#[derive(Debug, Clone, Copy, PartialEq, Eq, Structural)]
pub enum ListenEvent {
    /// Another turn; `stopped` tells whether the server was asked to end.
    Turn { stopped: bool },
    /// A client connected; `replaced` tells whether another instance of the pipe stands ready, so
    /// that the name is never free.
    Connected { replaced: bool },
    /// Connecting failed.
    Failed,
    /// A client that was served left.
    Left,
}

/// The server of a pipe: how many clients it serves.
#[derive(Debug, Clone, Copy, PartialEq, Eq, Structural)]
pub struct Listener {
    pub serving: usize,
}

impl Listener {
    pub open spec fn inv(self) -> bool {
        self.serving <= MAX_CLIENTS
    }

    pub fn new() -> (r: Self)
        ensures
            r.serving == 0,
            r.inv(),
    {
        Listener { serving: 0 }
    }

    pub fn step(&mut self, event: ListenEvent) -> (r: ListenAction)
        requires
            old(self).inv(),
            event is Connected ==> old(self).serving < MAX_CLIENTS,
            event is Left ==> old(self).serving > 0,
        ensures
            final(self).inv(),
            r == match event {
                ListenEvent::Turn { stopped } => if stopped {
                    ListenAction::Stop
                } else if old(self).serving >= MAX_CLIENTS {
                    ListenAction::WaitForRoom
                } else {
                    ListenAction::Accept
                },
                ListenEvent::Connected { replaced } => if replaced {
                    ListenAction::Serve
                } else {
                    ListenAction::Stop
                },
                ListenEvent::Failed => ListenAction::Stop,
                ListenEvent::Left => ListenAction::Accept,
            },
            final(self).serving == match event {
                ListenEvent::Connected { replaced: true } => old(self).serving + 1,
                ListenEvent::Left => old(self).serving - 1,
                _ => old(self).serving as int,
            },
    {
        match event {
            ListenEvent::Turn { stopped } => {
                if stopped {
                    ListenAction::Stop
                } else if self.serving >= MAX_CLIENTS {
                    ListenAction::WaitForRoom
                } else {
                    ListenAction::Accept
                }
            },
            ListenEvent::Connected { replaced } => {
                if replaced {
                    self.serving = self.serving + 1;
                    ListenAction::Serve
                } else {
                    ListenAction::Stop
                }
            },
            ListenEvent::Failed => ListenAction::Stop,
            ListenEvent::Left => {
                self.serving = self.serving - 1;
                ListenAction::Accept
            },
        }
    }
}

/// A call that meets nothing bad is sent and its answer accepted; a busy pipe is opened again, and
/// an answer of another session is refused.
pub proof fn calls_are_answered(expected: Option<Id>, session: Id)
    ensures
        ({
            let start = Call { expected, state: CallState::Opening };
            let opened = call_after(start, CallEvent::Opened);
            let sent = call_after(opened.0, CallEvent::Sent);
            let answered = call_after(sent.0, CallEvent::Answered { session });
            &&& opened.1 == CallAction::Send
            &&& sent.1 == CallAction::Receive
            &&& expected is None || expected == Some(session) ==> answered.1 == CallAction::Accept
            &&& expected is Some && expected != Some(session) ==> answered.1 == CallAction::Fail(
                CallFailure::WrongSession,
            )
            &&& call_after(start, CallEvent::Busy) == (start, CallAction::OpenAgain)
        }),
{
}

/// A call that took too long, or whose answer cannot be read, fails and says so.
pub proof fn broken_calls_fail(call: Call)
    ensures
        call_after(call, CallEvent::TimedOut).1 == CallAction::Fail(CallFailure::TimedOut),
        call_after(call, CallEvent::TimedOut).0.state == CallState::Over,
        call.state == CallState::Receiving ==> call_after(call, CallEvent::BadAnswer).1
            == CallAction::Fail(CallFailure::BadAnswer),
        call.state == CallState::Over ==> call_after(call, CallEvent::Opened).1
            == CallAction::Fail(CallFailure::Pipe),
{
}

/// A message may travel that is not empty and not longer than a hundred and twenty-eight kibibytes.
pub proof fn messages_are_bounded(length: int)
    ensures
        frame_fits(length) <==> 0 < length <= 131_072,
        !frame_fits(0),
{
}

} // verus!
