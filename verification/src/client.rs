//! The protocol client: request-identifier allocation, request and
//! notification sending, response correlation, and the lifecycle.
//!
//! The client never performs I/O.  Outbound frames are appended to a
//! byte vector the caller owns and writes to the child process;
//! inbound bytes are handed in as a buffer with a cursor, and the
//! correlation loop walks frames until the awaited response arrives,
//! skipping notifications and stray responses, or reports that more
//! bytes must be read first.

use vstd::prelude::*;
use crate::codec::{decode, decode_spec, encode, encode_spec, DecodeOutcome, DecodeSpec, FramingError};
use crate::message::{classify, classify_model, Message, MessageModel, OutcomeModel, ResponseOutcome};
use crate::bytes::push_bytes;

verus! {

/// Every way a client operation can fail.
#[derive(Debug)]
pub enum ClientError {
    /// The child process could not be spawned.
    Spawn,
    /// `start` was called while the client was not in its initial state.
    AlreadyRunning,
    /// An operation that needs a running server found none.
    NotRunning,
    /// A pipe read or write failed.
    Io,
    /// The inbound byte stream was malformed or ended early.
    Framing(FramingError),
    /// The peer answered the request with an error object.
    Protocol { code: i64, message: Vec<u8> },
    /// The peer sent a request of its own or an unclassifiable shape.
    UnexpectedMessage,
}

/// Ghost counterpart of [`ClientError`].
pub ghost enum ClientErrorModel {
    Spawn,
    AlreadyRunning,
    NotRunning,
    Io,
    Framing(FramingError),
    Protocol { code: int, message: Seq<u8> },
    UnexpectedMessage,
}

impl View for ClientError {
    type V = ClientErrorModel;

    open spec fn view(&self) -> ClientErrorModel {
        match self {
            ClientError::Spawn => ClientErrorModel::Spawn,
            ClientError::AlreadyRunning => ClientErrorModel::AlreadyRunning,
            ClientError::NotRunning => ClientErrorModel::NotRunning,
            ClientError::Io => ClientErrorModel::Io,
            ClientError::Framing(e) => ClientErrorModel::Framing(*e),
            ClientError::Protocol { code, message } => ClientErrorModel::Protocol {
                code: *code as int,
                message: message@,
            },
            ClientError::UnexpectedMessage => ClientErrorModel::UnexpectedMessage,
        }
    }
}

/// The lifecycle of one client: started at most once, stopped for
/// good once stopped.
#[derive(Clone, Copy, PartialEq, Eq, Structural, Debug)]
pub enum ClientState {
    NotStarted,
    Running,
    Stopped,
}

/// Ghost view of the client: its lifecycle state and the last
/// allocated request identifier.
pub ghost struct ManagerModel {
    pub state: ClientState,
    pub request_id: int,
}

/// What one step of awaiting a response concluded.
pub ghost enum AwaitSpec {
    /// No conclusion yet: more bytes must arrive; `at` is where
    /// decoding resumes.
    NeedMore { at: int },
    /// The matching response arrived and succeeded.
    Done { result: Seq<u8>, next: int },
    /// The wait ended in an error; `next` is where the stream was left.
    Failed { err: ClientErrorModel, next: int },
}

/// The correlation loop, as a relation on the byte stream: decode a
/// frame; skip notifications and responses with a foreign identifier;
/// stop at the matching response, at a peer request, at an
/// unclassifiable shape, or at a framing failure.
pub open spec fn await_spec(s: Seq<u8>, i: int, req: int, eof: bool) -> AwaitSpec
    decreases s.len() - i,
{
    match decode_spec(s, i, eof) {
        DecodeSpec::NeedMore => AwaitSpec::NeedMore { at: i },
        DecodeSpec::Fail(e) => AwaitSpec::Failed {
            err: ClientErrorModel::Framing(e),
            next: i,
        },
        DecodeSpec::Frame(p, j) => match classify_model(p) {
            Option::None => AwaitSpec::Failed { err: ClientErrorModel::UnexpectedMessage, next: j },
            Option::Some(m) => match m {
                MessageModel::Notification { .. } => if i < j <= s.len() {
                    await_spec(s, j, req, eof)
                } else {
                    // A frame never ends before it starts; not reachable.
                    AwaitSpec::Failed { err: ClientErrorModel::Io, next: j }
                },
                MessageModel::Request { .. } => AwaitSpec::Failed {
                    err: ClientErrorModel::UnexpectedMessage,
                    next: j,
                },
                MessageModel::Response { id, outcome } => if id != req {
                    if i < j <= s.len() {
                        await_spec(s, j, req, eof)
                    } else {
                        AwaitSpec::Failed { err: ClientErrorModel::Io, next: j }
                    }
                } else {
                    match outcome {
                        OutcomeModel::Success { result } => AwaitSpec::Done { result, next: j },
                        OutcomeModel::Failure { code, message, .. } => AwaitSpec::Failed {
                            err: ClientErrorModel::Protocol { code, message },
                            next: j,
                        },
                    }
                },
            },
        },
    }
}

/// What one call of the correlation loop concluded.
pub enum AwaitOutcome {
    /// More bytes must arrive before a conclusion.
    NeedMore,
    /// The matching response arrived; this is its result text.
    Done(Vec<u8>),
    /// The wait ended in an error.
    Failed(ClientError),
}

/// Runs the correlation loop over the bytes that have arrived so far.
///
/// `pos` is advanced past every consumed frame, so a later call picks
/// up where this one left off.  Notifications are discarded without
/// being surfaced, and responses whose identifier is not `req_id` are
/// discarded too; the loop concludes at the matching response, at any
/// peer request or unclassifiable frame, or at a framing failure.
#[verifier::loop_isolation(false)]
pub fn take_response(buf: &[u8], pos: &mut usize, req_id: i64, eof: bool) -> (r: AwaitOutcome)
    requires
        *old(pos) <= buf@.len(),
    ensures
        *final(pos) <= buf@.len(),
        match r {
            AwaitOutcome::NeedMore => await_spec(buf@, *old(pos) as int, req_id as int, eof)
                == (AwaitSpec::NeedMore { at: *final(pos) as int }),
            AwaitOutcome::Done(v) => await_spec(buf@, *old(pos) as int, req_id as int, eof)
                == (AwaitSpec::Done { result: v@, next: *final(pos) as int }),
            AwaitOutcome::Failed(e) => await_spec(buf@, *old(pos) as int, req_id as int, eof)
                == (AwaitSpec::Failed { err: e@, next: *final(pos) as int }),
        },
{
    let mut cur: usize = *pos;
    loop
        invariant
            cur <= buf@.len(),
            await_spec(buf@, *old(pos) as int, req_id as int, eof) == await_spec(
                buf@,
                cur as int,
                req_id as int,
                eof,
            ),
        decreases buf@.len() - cur,
    {
        match decode(buf, cur, eof) {
            DecodeOutcome::NeedMore => {
                *pos = cur;
                return AwaitOutcome::NeedMore;
            },
            DecodeOutcome::Fail(e) => {
                *pos = cur;
                return AwaitOutcome::Failed(ClientError::Framing(e));
            },
            DecodeOutcome::Frame(p, n) => {
                match classify(p) {
                    Option::None => {
                        *pos = n;
                        return AwaitOutcome::Failed(ClientError::UnexpectedMessage);
                    },
                    Option::Some(m) => match m {
                        Message::Notification { .. } => {
                            cur = n;
                        },
                        Message::Request { .. } => {
                            *pos = n;
                            return AwaitOutcome::Failed(ClientError::UnexpectedMessage);
                        },
                        Message::Response { id, outcome } => {
                            if id != req_id {
                                cur = n;
                            } else {
                                match outcome {
                                    ResponseOutcome::Success { result } => {
                                        *pos = n;
                                        return AwaitOutcome::Done(result);
                                    },
                                    ResponseOutcome::Failure { code, message, .. } => {
                                        *pos = n;
                                        return AwaitOutcome::Failed(
                                            ClientError::Protocol { code, message },
                                        );
                                    },
                                }
                            }
                        },
                    },
                }
            },
        }
    }
}

/// `shutdown`
pub open spec fn m_shutdown() -> Seq<u8> {
    seq![115u8, 104, 117, 116, 100, 111, 119, 110]
}

/// `exit`
pub open spec fn m_exit() -> Seq<u8> {
    seq![101u8, 120, 105, 116]
}

/// `null`
pub open spec fn v_null() -> Seq<u8> {
    seq![110u8, 117, 108, 108]
}

fn m_shutdown_vec() -> (v: Vec<u8>)
    ensures
        v@ == m_shutdown(),
{
    let mut v: Vec<u8> = Vec::new();
    v.push(115);
    v.push(104);
    v.push(117);
    v.push(116);
    v.push(100);
    v.push(111);
    v.push(119);
    v.push(110);
    proof {
        assert(v@ =~= m_shutdown());
    }
    v
}

fn m_exit_vec() -> (v: Vec<u8>)
    ensures
        v@ == m_exit(),
{
    let mut v: Vec<u8> = Vec::new();
    v.push(101);
    v.push(120);
    v.push(105);
    v.push(116);
    proof {
        assert(v@ =~= m_exit());
    }
    v
}

fn v_null_vec() -> (v: Vec<u8>)
    ensures
        v@ == v_null(),
{
    let mut v: Vec<u8> = Vec::new();
    v.push(110);
    v.push(117);
    v.push(108);
    v.push(108);
    proof {
        assert(v@ =~= v_null());
    }
    v
}

/// The request frame for `method` and `params` under identifier `id`.
pub open spec fn request_frame(id: int, method: Seq<u8>, params: Option<Seq<u8>>) -> Seq<u8> {
    encode_spec(MessageModel::Request { id, method, params })
}

/// The notification frame for `method` and `params`.
pub open spec fn notification_frame(method: Seq<u8>, params: Option<Seq<u8>>) -> Seq<u8> {
    encode_spec(MessageModel::Notification { method, params })
}

/// The client of one language-analysis server process.
///
/// It owns the lifecycle state and the request-identifier allocator;
/// the embedding application owns the process and the pipes.
pub struct TexlabManager {
    state: ClientState,
    request_id: i64,
}

impl View for TexlabManager {
    type V = ManagerModel;

    closed spec fn view(&self) -> ManagerModel {
        ManagerModel { state: self.state, request_id: self.request_id as int }
    }
}

impl TexlabManager {
    /// A fresh client: not started, no identifier allocated yet.
    pub fn new() -> (r: TexlabManager)
        ensures
            r@.state is NotStarted,
            r@.request_id == 0,
    {
        TexlabManager { state: ClientState::NotStarted, request_id: 0 }
    }

    /// Whether the client is in its running state.
    pub fn is_running(&self) -> (r: bool)
        ensures
            r == (self@.state is Running),
    {
        self.state == ClientState::Running
    }

    /// Records the outcome of spawning the server process.
    ///
    /// Only a client that was never started may start; the spawn's
    /// outcome is handed in by the embedding application, which alone
    /// can create processes.  On success the client is Running; on
    /// failure it stays NotStarted and reports the spawn failure.
    pub fn start(&mut self, spawn_ok: bool) -> (r: Result<(), ClientError>)
        ensures
            final(self)@.request_id == old(self)@.request_id,
            !(old(self)@.state is NotStarted) ==> (r matches Err(e) && e@
                == ClientErrorModel::AlreadyRunning) && final(self)@ == old(self)@,
            old(self)@.state is NotStarted && spawn_ok ==> r is Ok && final(self)@.state
                is Running,
            old(self)@.state is NotStarted && !spawn_ok ==> (r matches Err(e) && e@
                == ClientErrorModel::Spawn) && final(self)@ == old(self)@,
    {
        if self.state != ClientState::NotStarted {
            return Result::Err(ClientError::AlreadyRunning);
        }
        if !spawn_ok {
            return Result::Err(ClientError::Spawn);
        }
        self.state = ClientState::Running;
        Result::Ok(())
    }

    /// Allocates the next request identifier and appends the request
    /// frame to `out`; the caller writes `out` to the server.
    ///
    /// Fails with NotRunning unless the client is Running, leaving
    /// everything unchanged.
    pub fn send_request_frame(
        &mut self,
        method: &[u8],
        params: Option<&[u8]>,
        out: &mut Vec<u8>,
    ) -> (r: Result<i64, ClientError>)
        requires
            old(self)@.request_id < i64::MAX,
        ensures
            final(self)@.state == old(self)@.state,
            !(old(self)@.state is Running) ==> (r matches Err(e) && e@
                == ClientErrorModel::NotRunning) && final(self)@ == old(self)@ && final(out)@
                == old(out)@,
            old(self)@.state is Running ==> r == Result::<i64, ClientError>::Ok(
                (old(self)@.request_id + 1) as i64,
            ) && final(self)@.request_id == old(self)@.request_id + 1 && final(out)@ == old(out)@
                + request_frame(
                old(self)@.request_id + 1,
                method@,
                match params {
                    Option::None => Option::<Seq<u8>>::None,
                    Option::Some(p) => Option::Some(p@),
                },
            ),
    {
        if self.state != ClientState::Running {
            return Result::Err(ClientError::NotRunning);
        }
        self.request_id = self.request_id + 1;
        let id = self.request_id;
        let msg = Message::Request {
            id,
            method: slice_to_vec(method),
            params: match params {
                Option::None => Option::None,
                Option::Some(p) => Option::Some(slice_to_vec(p)),
            },
        };
        let frame = encode(&msg);
        push_bytes(out, frame.as_slice());
        Result::Ok(id)
    }

    /// Appends a notification frame to `out`; nothing is awaited and
    /// no identifier is allocated.
    ///
    /// Fails with NotRunning unless the client is Running, leaving
    /// everything unchanged.
    pub fn send_notification(
        &mut self,
        method: &[u8],
        params: Option<&[u8]>,
        out: &mut Vec<u8>,
    ) -> (r: Result<(), ClientError>)
        ensures
            final(self)@ == old(self)@,
            !(old(self)@.state is Running) ==> (r matches Err(e) && e@
                == ClientErrorModel::NotRunning) && final(out)@ == old(out)@,
            old(self)@.state is Running ==> r is Ok && final(out)@ == old(out)@
                + notification_frame(
                method@,
                match params {
                    Option::None => Option::<Seq<u8>>::None,
                    Option::Some(p) => Option::Some(p@),
                },
            ),
    {
        if self.state != ClientState::Running {
            return Result::Err(ClientError::NotRunning);
        }
        let msg = Message::Notification {
            method: slice_to_vec(method),
            params: match params {
                Option::None => Option::None,
                Option::Some(p) => Option::Some(slice_to_vec(p)),
            },
        };
        let frame = encode(&msg);
        push_bytes(out, frame.as_slice());
        Result::Ok(())
    }

    /// Sends a request and waits for its response within the bytes of
    /// `inbound`, which holds everything the server will send.
    ///
    /// The request frame is appended to `out`; `pos` walks `inbound`
    /// past every frame the wait consumed.  Notifications and stray
    /// responses are skipped; the matching response yields its result
    /// text, or its error object as a protocol failure.  A stream that
    /// ended mid-frame is fatal: the client is Stopped and every later
    /// call fails fast, until a fresh client is started.
    pub fn send_request(
        &mut self,
        method: &[u8],
        params: Option<&[u8]>,
        inbound: &[u8],
        pos: &mut usize,
        out: &mut Vec<u8>,
    ) -> (r: Result<Vec<u8>, ClientError>)
        requires
            old(self)@.request_id < i64::MAX,
            *old(pos) <= inbound@.len(),
        ensures
            *final(pos) <= inbound@.len(),
            !(old(self)@.state is Running) ==> (r matches Err(e) && e@
                == ClientErrorModel::NotRunning) && final(self)@ == old(self)@ && final(out)@
                == old(out)@ && *final(pos) == *old(pos),
            old(self)@.state is Running ==> final(self)@.request_id == old(self)@.request_id + 1
                && final(self)@.state == state_after_await(
                await_spec(inbound@, *old(pos) as int, old(self)@.request_id + 1, true),
            ) && final(out)@ == old(out)@ + request_frame(
                old(self)@.request_id + 1,
                method@,
                match params {
                    Option::None => Option::<Seq<u8>>::None,
                    Option::Some(p) => Option::Some(p@),
                },
            ) && match await_spec(
                inbound@,
                *old(pos) as int,
                old(self)@.request_id + 1,
                true,
            ) {
                AwaitSpec::NeedMore { .. } => false,
                AwaitSpec::Done { result, next } => (r matches Ok(v) && v@ == result)
                    && *final(pos) == next,
                AwaitSpec::Failed { err, next } => (r matches Err(e) && e@ == err) && *final(pos)
                    == next,
            },
    {
        let id = match self.send_request_frame(method, params, out) {
            Result::Err(e) => {
                return Result::Err(e);
            },
            Result::Ok(id) => id,
        };
        proof {
            lemma_await_concludes(inbound@, *pos as int, id as int);
        }
        match take_response(inbound, pos, id, true) {
            AwaitOutcome::NeedMore => {
                // Ruled out above: with the stream ended, the wait
                // always concludes.
                proof {
                    assert(false);
                }
                Result::Err(ClientError::Io)
            },
            AwaitOutcome::Done(v) => Result::Ok(v),
            AwaitOutcome::Failed(e) => {
                // An ended stream means the child's pipe closed: the
                // client is finished and later calls fail fast.
                if let ClientError::Framing(f) = &e {
                    if *f == FramingError::UnexpectedEof {
                        self.state = ClientState::Stopped;
                    }
                }
                Result::Err(e)
            },
        }
    }

    /// Stops a running client: a best-effort shutdown request and exit
    /// notification are appended to `out`, the shutdown response is
    /// awaited within `inbound` and its outcome discarded, and the
    /// client is Stopped unconditionally; the caller then terminates
    /// the process.  On a client that is not Running, fails with
    /// NotRunning and changes nothing.
    pub fn stop(&mut self, inbound: &[u8], pos: &mut usize, out: &mut Vec<u8>) -> (r: Result<
        (),
        ClientError,
    >)
        requires
            old(self)@.request_id < i64::MAX,
            *old(pos) <= inbound@.len(),
        ensures
            *final(pos) <= inbound@.len(),
            !(old(self)@.state is Running) ==> (r matches Err(e) && e@
                == ClientErrorModel::NotRunning) && final(self)@ == old(self)@ && final(out)@
                == old(out)@ && *final(pos) == *old(pos),
            old(self)@.state is Running ==> r is Ok && final(self)@.state is Stopped
                && final(self)@.request_id == old(self)@.request_id + 1 && final(out)@ == old(out)@
                + request_frame(
                old(self)@.request_id + 1,
                m_shutdown(),
                Option::Some(v_null()),
            ) + notification_frame(m_exit(), Option::Some(v_null())),
    {
        if self.state != ClientState::Running {
            return Result::Err(ClientError::NotRunning);
        }
        let shutdown = m_shutdown_vec();
        let null_v = v_null_vec();
        let id = match self.send_request_frame(
            shutdown.as_slice(),
            Option::Some(null_v.as_slice()),
            out,
        ) {
            Result::Err(_) => {
                // Not reachable: the client is Running.
                proof {
                    assert(false);
                }
                return Result::Err(ClientError::Io);
            },
            Result::Ok(id) => id,
        };
        // Best effort: whatever the shutdown wait concludes, including
        // a framing failure or no response at all, the stop goes on.
        let _ = take_response(inbound, pos, id, true);
        let exit_m = m_exit_vec();
        let msg = Message::Notification {
            method: exit_m,
            params: Option::Some(null_v),
        };
        let frame = encode(&msg);
        push_bytes(out, frame.as_slice());
        self.state = ClientState::Stopped;
        Result::Ok(())
    }
}

/// The client state once a wait has concluded: a stream that ended
/// mid-frame is fatal and stops the client for good, so later calls
/// fail fast; any other conclusion leaves it running.
pub open spec fn state_after_await(a: AwaitSpec) -> ClientState {
    match a {
        AwaitSpec::Failed {
            err: ClientErrorModel::Framing(FramingError::UnexpectedEof),
            ..
        } => ClientState::Stopped,
        _ => ClientState::Running,
    }
}

/// One successful request send, as `send_request` and
/// `send_request_frame` ensure it: the client was Running, the
/// allocated identifier is one past the last, and the allocator
/// advances with it.
pub open spec fn sends_request(pre: ManagerModel, post: ManagerModel, id: int) -> bool {
    &&& pre.state is Running
    &&& post.state is Running
    &&& id == pre.request_id + 1
    &&& post.request_id == pre.request_id + 1
}

/// A chain of request sends: `states` walks the client through
/// `ids.len()` consecutive successful sends.
pub open spec fn request_chain(states: Seq<ManagerModel>, ids: Seq<int>) -> bool {
    &&& states.len() == ids.len() + 1
    &&& forall|k: int|
        0 <= k < ids.len() ==> sends_request(states[k], states[k + 1], #[trigger] ids[k])
}

/// Along a chain, the identifier of the k-th send is the starting
/// allocator value plus k plus one.
proof fn lemma_chain_id_value(states: Seq<ManagerModel>, ids: Seq<int>, k: int)
    requires
        request_chain(states, ids),
        0 <= k < ids.len(),
    ensures
        ids[k] == states[0].request_id + k + 1,
    decreases k,
{
    if k > 0 {
        lemma_chain_id_value(states, ids, k - 1);
    }
}

/// Identifier monotonicity: across any number of consecutive request
/// sends on one client, the allocated identifiers strictly increase,
/// so none is ever repeated.
pub proof fn lemma_request_ids_monotonic(states: Seq<ManagerModel>, ids: Seq<int>, i: int, j: int)
    requires
        request_chain(states, ids),
        0 <= i < j < ids.len(),
    ensures
        ids[i] < ids[j],
{
    lemma_chain_id_value(states, ids, i);
    lemma_chain_id_value(states, ids, j);
}

/// Copies a byte slice into a fresh vector.
pub fn slice_to_vec(s: &[u8]) -> (r: Vec<u8>)
    ensures
        r@ == s@,
{
    let mut v: Vec<u8> = Vec::new();
    push_bytes(&mut v, s);
    v
}

/// With the stream known to have ended, the correlation loop always
/// concludes: a partial frame is a framing failure, never a request
/// for more bytes.
pub proof fn lemma_await_concludes(s: Seq<u8>, i: int, req: int)
    ensures
        !(await_spec(s, i, req, true) is NeedMore),
    decreases s.len() - i,
{
    match decode_spec(s, i, true) {
        DecodeSpec::NeedMore => {},
        DecodeSpec::Fail(e) => {},
        DecodeSpec::Frame(p, j) => match classify_model(p) {
            Option::None => {},
            Option::Some(m) => match m {
                MessageModel::Notification { .. } => {
                    if i < j <= s.len() {
                        lemma_await_concludes(s, j, req);
                    }
                },
                MessageModel::Request { .. } => {},
                MessageModel::Response { id, outcome } => {
                    if id != req && i < j <= s.len() {
                        lemma_await_concludes(s, j, req);
                    }
                },
            },
        },
    }
}

/// Notification transparency: a notification frame at the front of
/// the stream leaves the outcome of the wait untouched, whatever the
/// notification carried.
pub proof fn lemma_notification_transparent(
    s: Seq<u8>,
    i: int,
    req: int,
    eof: bool,
    p: crate::message::PayloadModel,
    j: int,
)
    requires
        decode_spec(s, i, eof) == DecodeSpec::Frame(p, j),
        classify_model(p) matches Option::Some(MessageModel::Notification { .. }),
        i < j <= s.len(),
    ensures
        await_spec(s, i, req, eof) == await_spec(s, j, req, eof),
{
}

/// Stray-response tolerance: a response frame whose identifier is not
/// the awaited one is skipped, and the wait goes on unchanged.
pub proof fn lemma_stray_response_skipped(
    s: Seq<u8>,
    i: int,
    req: int,
    eof: bool,
    p: crate::message::PayloadModel,
    j: int,
    id: int,
    outcome: OutcomeModel,
)
    requires
        decode_spec(s, i, eof) == DecodeSpec::Frame(p, j),
        classify_model(p) == Option::Some(MessageModel::Response { id, outcome }),
        id != req,
        i < j <= s.len(),
    ensures
        await_spec(s, i, req, eof) == await_spec(s, j, req, eof),
{
}

/// Notification transparency, end to end: when the stream delivers a
/// notification frame immediately before the response frame matching
/// the outstanding request, the wait returns that response's result,
/// and the notification is never visible to the caller.
pub proof fn lemma_notification_then_matching_response(
    s: Seq<u8>,
    i: int,
    req: int,
    eof: bool,
    p1: crate::message::PayloadModel,
    j: int,
    p2: crate::message::PayloadModel,
    k: int,
    result: Seq<u8>,
)
    requires
        decode_spec(s, i, eof) == DecodeSpec::Frame(p1, j),
        classify_model(p1) matches Option::Some(MessageModel::Notification { .. }),
        i < j <= s.len(),
        decode_spec(s, j, eof) == DecodeSpec::Frame(p2, k),
        classify_model(p2) == Option::Some(
            MessageModel::Response { id: req, outcome: OutcomeModel::Success { result } },
        ),
    ensures
        await_spec(s, i, req, eof) == (AwaitSpec::Done { result, next: k }),
{
    lemma_notification_transparent(s, i, req, eof, p1, j);
    lemma_matching_response_returns(s, j, req, eof, p2, k, result);
}

/// The matching successful response ends the wait with its result.
pub proof fn lemma_matching_response_returns(
    s: Seq<u8>,
    i: int,
    req: int,
    eof: bool,
    p: crate::message::PayloadModel,
    j: int,
    result: Seq<u8>,
)
    requires
        decode_spec(s, i, eof) == DecodeSpec::Frame(p, j),
        classify_model(p) == Option::Some(
            MessageModel::Response { id: req, outcome: OutcomeModel::Success { result } },
        ),
    ensures
        await_spec(s, i, req, eof) == (AwaitSpec::Done { result, next: j }),
{
}

} // verus!
