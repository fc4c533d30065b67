//! The desktop coordination IPC: length-prefixed frames, the bounded window
//! of retained broadcast events, and the decisions the follower makes on what
//! the desktop sends and answers.
use vstd::prelude::*;
use crate::bytes::{le_bytes, le_u32_bytes, le_value, lemma_le_bytes_len, lemma_le_roundtrip, lemma_pow256_values, pow256, read_le_u32};
use crate::websocket::{append_bytes, copy_range};

verus! {

/// Largest frame payload, in bytes.
pub const MAX_FRAME: usize = 33554432;

/// Why a frame was refused.
#[derive(Clone, Copy, Debug, PartialEq, Eq, Structural)]
pub enum IpcFrameError {
    /// A declared length of zero or above `MAX_FRAME` ("invalid IPC frame length").
    InvalidLength,
    /// A payload to send above `MAX_FRAME` ("IPC frame too large").
    TooLarge,
}

/// The bytes of a frame: a four-byte little-endian length, then the payload.
pub open spec fn frame_bytes(payload: Seq<u8>) -> Seq<u8> {
    le_bytes(payload.len(), 4) + payload
}

/// Reading a frame from the start of `b`: `Ok(None)` when more bytes are
/// needed, else the payload and the number of bytes it takes.
pub open spec fn spec_read_frame(b: Seq<u8>) -> Result<Option<(Seq<u8>, nat)>, IpcFrameError> {
    if b.len() < 4 {
        Ok(None)
    } else {
        let size = le_value(b.subrange(0, 4));
        if size == 0 || size > MAX_FRAME {
            Err(IpcFrameError::InvalidLength)
        } else if b.len() < 4 + size {
            Ok(None)
        } else {
            Ok(Some((b.subrange(4, 4 + size as int), 4 + size)))
        }
    }
}

/// Encodes one frame; payloads above `MAX_FRAME` are refused.
pub fn write_frame(payload: &[u8]) -> (r: Result<Vec<u8>, IpcFrameError>)
    ensures
        payload@.len() > MAX_FRAME ==> r == Err::<Vec<u8>, IpcFrameError>(IpcFrameError::TooLarge),
        payload@.len() <= MAX_FRAME ==> (r matches Ok(v) && v@ == frame_bytes(payload@)),
{
    if payload.len() > MAX_FRAME {
        return Err(IpcFrameError::TooLarge);
    }
    let mut out = le_u32_bytes(payload.len() as u32);
    append_bytes(&mut out, payload);
    Ok(out)
}

/// Reads one frame from the start of `b`; the declared length is checked
/// before any payload byte is looked at.
pub fn read_frame(b: &[u8]) -> (r: Result<Option<(Vec<u8>, usize)>, IpcFrameError>)
    ensures
        match (r, spec_read_frame(b@)) {
            (Ok(None), Ok(None)) => true,
            (Ok(Some((p, n))), Ok(Some((q, m)))) => p@ == q && n == m,
            (Err(e), Err(f)) => e == f,
            _ => false,
        },
{
    let n = b.len();
    if n < 4 {
        return Ok(None);
    }
    let size = read_le_u32(b, 0) as usize;
    if size == 0 || size > MAX_FRAME {
        return Err(IpcFrameError::InvalidLength);
    }
    if n - 4 < size {
        return Ok(None);
    }
    let payload = copy_range(b, 4, 4 + size);
    Ok(Some((payload, 4 + size)))
}

/// Reading back a written frame gives its payload, whatever follows it.
pub proof fn lemma_frame_roundtrip(payload: Seq<u8>, rest: Seq<u8>)
    requires
        0 < payload.len() <= MAX_FRAME,
    ensures
        spec_read_frame(frame_bytes(payload) + rest) == Ok::<Option<(Seq<u8>, nat)>, IpcFrameError>(
            Some((payload, 4 + payload.len())),
        ),
{
    let b = frame_bytes(payload) + rest;
    lemma_pow256_values();
    lemma_le_bytes_len(payload.len(), 4);
    lemma_le_roundtrip(payload.len(), 4);
    assert(b.subrange(0, 4) =~= le_bytes(payload.len(), 4));
    assert(b.subrange(4, 4 + payload.len() as int) =~= payload);
}

/// A broadcast event kept for `recentEvents`, with the size of its text.
pub struct RetainedEvent<T> {
    pub sequence: u64,
    pub size: usize,
    pub body: T,
}

/// Most events kept.
pub const MAX_RETAINED_EVENTS: usize = 100;

/// Most bytes of event text kept.
pub const MAX_RETAINED_BYTES: usize = 8388608;

pub open spec fn total_size<T>(events: Seq<RetainedEvent<T>>) -> nat
    decreases events.len(),
{
    if events.len() == 0 {
        0
    } else {
        total_size(events.drop_last()) + events.last().size as nat
    }
}

/// Dropping the oldest events until the window holds at most
/// `MAX_RETAINED_EVENTS` and at most `MAX_RETAINED_BYTES`.
pub open spec fn trim_window<T>(events: Seq<RetainedEvent<T>>) -> Seq<RetainedEvent<T>>
    decreases events.len(),
{
    if events.len() > MAX_RETAINED_EVENTS || total_size(events) > MAX_RETAINED_BYTES {
        trim_window(events.drop_first())
    } else {
        events
    }
}

/// The window of broadcast events retained for `recentEvents`.
pub struct EventWindow<T> {
    pub latest_sequence: u64,
    pub events: Vec<RetainedEvent<T>>,
}

impl<T> EventWindow<T> {
    pub open spec fn wf(&self) -> bool {
        &&& self.events@.len() <= MAX_RETAINED_EVENTS
        &&& total_size(self.events@) <= MAX_RETAINED_BYTES
        &&& forall|i: int| 0 <= i < self.events@.len() ==> #[trigger] self.events@[i].sequence
            <= self.latest_sequence
        &&& forall|i: int, j: int| 0 <= i < j < self.events@.len() ==> #[trigger] self.events@[i].sequence
            < #[trigger] self.events@[j].sequence
    }

    /// An empty window.
    pub fn new() -> (w: Self)
        ensures
            w.wf(),
            w.latest_sequence == 0,
            w.events@.len() == 0,
    {
        EventWindow { latest_sequence: 0, events: Vec::new() }
    }

    /// Records an event under the next sequence number and drops the oldest
    /// events beyond the count and byte bounds. Gives the sequence number.
    pub fn push(&mut self, body: T, size: usize) -> (seq: u64)
        requires
            old(self).wf(),
            old(self).latest_sequence < u64::MAX,
        ensures
            final(self).wf(),
            seq == old(self).latest_sequence + 1,
            final(self).latest_sequence == seq,
            final(self).events@ == trim_window(old(self).events@.push(RetainedEvent { sequence: seq, size, body })),
    {
        let seq = self.latest_sequence + 1;
        self.latest_sequence = seq;
        self.events.push(RetainedEvent { sequence: seq, size, body });
        let ghost pushed = self.events@;
        proof {
            lemma_total_size_push(old(self).events@, self.events@.last());
            assert(old(self).events@.push(self.events@.last()) =~= pushed);
        }
        while self.events.len() > MAX_RETAINED_EVENTS || total_bytes(&self.events) > MAX_RETAINED_BYTES
            invariant
                self.latest_sequence == seq,
                trim_window(pushed) == trim_window(self.events@),
                forall|i: int| 0 <= i < self.events@.len() ==> #[trigger] self.events@[i].sequence <= seq,
                forall|i: int, j: int| 0 <= i < j < self.events@.len() ==> #[trigger] self.events@[i].sequence
                    < #[trigger] self.events@[j].sequence,
            decreases self.events@.len(),
        {
            proof {
                if self.events@.len() == 0 {
                    assert(total_size(self.events@) == 0);
                }
                assert(trim_window(self.events@) == trim_window(self.events@.drop_first()));
            }
            let ghost before = self.events@;
            let _first = self.events.remove(0);
            proof {
                assert(self.events@ =~= before.drop_first());
                assert forall|i: int, j: int| 0 <= i < j < self.events@.len() implies #[trigger] self.events@[i].sequence
                    < #[trigger] self.events@[j].sequence by {
                    assert(self.events@[i] == before[i + 1]);
                    assert(self.events@[j] == before[j + 1]);
                }
            }
        }
        proof {
            assert(trim_window(self.events@) == self.events@);
        }
        seq
    }
}

/// Total text size of the retained events, saturating at `usize::MAX`.
pub fn total_bytes<T>(events: &Vec<RetainedEvent<T>>) -> (t: usize)
    ensures
        t == if total_size(events@) > usize::MAX { usize::MAX as nat } else { total_size(events@) },
{
    let mut t: usize = 0;
    let mut i: usize = 0;
    let mut saturated = false;
    while i < events.len()
        invariant
            i <= events@.len(),
            saturated ==> t == usize::MAX,
            !saturated ==> t == total_size(events@.subrange(0, i as int)),
            saturated ==> total_size(events@.subrange(0, i as int)) > usize::MAX,
        decreases events.len() - i,
    {
        proof {
            assert(events@.subrange(0, i + 1).drop_last() =~= events@.subrange(0, i as int));
        }
        let s = events[i].size;
        if saturated || t > usize::MAX - s {
            t = usize::MAX;
            saturated = true;
        } else {
            t = t + s;
        }
        i = i + 1;
    }
    assert(events@.subrange(0, events@.len() as int) =~= events@);
    t
}

pub proof fn lemma_total_size_push<T>(events: Seq<RetainedEvent<T>>, e: RetainedEvent<T>)
    ensures
        total_size(events.push(e)) == total_size(events) + e.size,
{
    assert(events.push(e).drop_last() =~= events);
}

pub proof fn lemma_total_size_drop_first<T>(events: Seq<RetainedEvent<T>>)
    requires
        events.len() > 0,
    ensures
        total_size(events) == events[0].size + total_size(events.drop_first()),
    decreases events.len(),
{
    if events.len() > 1 {
        lemma_total_size_drop_first(events.drop_last());
        assert(events.drop_last().drop_first() =~= events.drop_first().drop_last());
        assert(events.drop_first().last() == events.last());
        assert(events.drop_last()[0] == events[0]);
    } else {
        assert(events.drop_first().len() == 0);
        assert(events.drop_last().len() == 0);
        assert(total_size(events.drop_first()) == 0);
        assert(total_size(events.drop_last()) == 0);
    }
}

/// The page size `recentEvents` uses: the requested `limit` (100 when absent)
/// bounded to 1..=500.
pub fn recent_events_limit(requested: Option<u64>) -> (n: usize)
    ensures
        n == match requested {
            None => 100,
            Some(v) => if v < 1 {
                1
            } else if v > 500 {
                500
            } else {
                v
            },
        },
{
    match requested {
        None => 100,
        Some(v) => if v < 1 {
            1
        } else if v > 500 {
            500
        } else {
            v as usize
        },
    }
}

/// Indices of the retained events after sequence `after`, at most `limit` of them, oldest first.
pub fn recent_event_indices<T>(events: &Vec<RetainedEvent<T>>, after: u64, limit: usize) -> (r: Vec<usize>)
    ensures
        r@.len() <= limit,
        forall|k: int| 0 <= k < r@.len() ==> #[trigger] r@[k] < events@.len() && events@[r@[k] as int].sequence > after,
        forall|k: int, l: int| 0 <= k < l < r@.len() ==> r@[k] < r@[l],
        r@.len() < limit ==> forall|i: int| 0 <= i < events@.len() && #[trigger] events@[i].sequence > after
            ==> r@.contains(i as usize),
        forall|i: int|
            0 <= i < events@.len() && #[trigger] events@[i].sequence > after && r@.len() > 0 && i < r@.last()
                ==> r@.contains(i as usize),
{
    let mut r: Vec<usize> = Vec::new();
    let mut i: usize = 0;
    while i < events.len() && r.len() < limit
        invariant
            i <= events@.len(),
            r@.len() <= limit,
            forall|k: int| 0 <= k < r@.len() ==> #[trigger] r@[k] < i && events@[r@[k] as int].sequence > after,
            forall|k: int, l: int| 0 <= k < l < r@.len() ==> r@[k] < r@[l],
            forall|j: int| 0 <= j < i && #[trigger] events@[j].sequence > after ==> r@.contains(j as usize),
        decreases events.len() - i,
    {
        let ghost old_r = r@;
        if events[i].sequence > after {
            r.push(i);
            assert(r@[r@.len() - 1] == i);
            assert forall|j: int| 0 <= j < i + 1 && #[trigger] events@[j].sequence > after implies r@.contains(j as usize) by {
                if j < i {
                    let k = choose|k: int| 0 <= k < old_r.len() && old_r[k] == j as usize;
                    assert(r@[k] == j as usize);
                }
            }
        }
        i = i + 1;
    }
    proof {
        assert forall|j: int|
            0 <= j < events@.len() && #[trigger] events@[j].sequence > after && r@.len() > 0 && j < r@.last()
                implies r@.contains(j as usize) by {
            assert(r@.last() < i);
        }
    }
    r
}

/// A reply to a request the follower made.
#[derive(Clone, Copy, Debug, PartialEq, Eq, Structural)]
pub enum RpcReply {
    /// The desktop answered with `resultType: "success"`.
    Success,
    /// The desktop answered with another result type.
    Rejected,
    /// No answer: the connection dropped or the wait timed out.
    NoAnswer,
}

/// Error codes the IPC layer reports.
#[derive(Clone, Copy, Debug, PartialEq, Eq, Structural)]
pub enum IpcCode {
    DesktopIpcUnavailable,
    OperationOutcomeUnknown,
    DesktopRequestRejected,
    DesktopIpcDisconnected,
    OwnerChanged,
    OwnerUnavailable,
    ProtocolMismatch,
}

/// How a failed request is reported: HTTP status, error code, and whether
/// the caller may safely send it again.
pub struct RpcFailureReport {
    pub status: u16,
    pub code: IpcCode,
    pub retry_safe: bool,
}

/// How a reply that is not a success is reported. A mutation (a write to a
/// task) whose reply is not a success has an unknown outcome and is never
/// safe to retry; a read can be retried.
pub fn rpc_failure(reply: RpcReply, mutation: bool) -> (r: RpcFailureReport)
    requires
        reply != RpcReply::Success,
    ensures
        r.retry_safe == !mutation,
        mutation ==> r.code == IpcCode::OperationOutcomeUnknown,
        !mutation && reply == RpcReply::Rejected ==> r.code == IpcCode::DesktopRequestRejected,
        !mutation && reply == RpcReply::NoAnswer ==> r.code == IpcCode::DesktopIpcDisconnected,
        reply == RpcReply::Rejected ==> r.status == 409,
        reply == RpcReply::NoAnswer ==> r.status == 503,
{
    match reply {
        RpcReply::Rejected => RpcFailureReport {
            status: 409,
            code: if mutation {
                IpcCode::OperationOutcomeUnknown
            } else {
                IpcCode::DesktopRequestRejected
            },
            retry_safe: !mutation,
        },
        _ => RpcFailureReport {
            status: 503,
            code: if mutation {
                IpcCode::OperationOutcomeUnknown
            } else {
                IpcCode::DesktopIpcDisconnected
            },
            retry_safe: !mutation,
        },
    }
}

/// How a failed connection to the desktop is reported, whatever failed (an
/// endpoint that is not the user's socket, an `initialize` that was
/// refused or timed out): 503 `DESKTOP_IPC_UNAVAILABLE`. Nothing was sent,
/// so a later request may try again; no other backend is started instead.
pub fn connect_failure() -> (r: RpcFailureReport)
    ensures
        r.status == 503,
        r.code == IpcCode::DesktopIpcUnavailable,
        r.retry_safe,
{
    RpcFailureReport { status: 503, code: IpcCode::DesktopIpcUnavailable, retry_safe: true }
}

/// What a started turn answers: the `result` member of the owner's success
/// reply, handed back as it came. A success reply without that member does
/// not follow the desktop protocol: 502 `IPC_PROTOCOL_MISMATCH`. The turn may
/// have started, so sending the request again is not safe.
pub fn owner_turn_result<T>(owner_result: Option<T>) -> (r: Result<T, RpcFailureReport>)
    ensures
        owner_result matches Some(v) ==> r == Ok::<T, RpcFailureReport>(v),
        owner_result is None ==> (r matches Err(e) && e.status == 502 && e.code == IpcCode::ProtocolMismatch && !e.retry_safe),
{
    match owner_result {
        Some(v) => Ok(v),
        None => Err(RpcFailureReport { status: 502, code: IpcCode::ProtocolMismatch, retry_safe: false }),
    }
}

/// The task owner named by an owner-discovery reply: it must be a success
/// naming the handling client, and the owner must accept untrusted app input.
pub fn owner_from_discovery(
    success: bool,
    handled_by: Option<String>,
    supports_untrusted_input: bool,
) -> (r: Result<String, IpcCode>)
    ensures
        !success || handled_by is None ==> r == Err::<String, IpcCode>(IpcCode::OwnerUnavailable),
        success && handled_by is Some && !supports_untrusted_input ==> r == Err::<String, IpcCode>(
            IpcCode::ProtocolMismatch,
        ),
        success && handled_by is Some && supports_untrusted_input ==> (r matches Ok(o) && o@
            == handled_by->0@),
{
    match handled_by {
        Some(owner) => {
            if !success {
                return Err(IpcCode::OwnerUnavailable);
            }
            if !supports_untrusted_input {
                return Err(IpcCode::ProtocolMismatch);
            }
            Ok(owner)
        },
        None => Err(IpcCode::OwnerUnavailable),
    }
}

/// A follower request addressed to a known owner goes ahead only if the
/// task's current owner is still that owner.
pub fn check_expected_owner(current: &str, expected: Option<&str>) -> (r: Result<(), IpcCode>)
    ensures
        match expected {
            None => r is Ok,
            Some(e) => (r is Ok) == (e@ == current@) && (r is Err ==> r == Err::<(), IpcCode>(
                IpcCode::OwnerChanged,
            )),
        },
{
    match expected {
        None => Ok(()),
        Some(e) => {
            let a = crate::text::chars_of(e);
            let b = crate::text::chars_of(current);
            if crate::text::chars_eq(a.as_slice(), b.as_slice()) {
                Ok(())
            } else {
                Err(IpcCode::OwnerChanged)
            }
        },
    }
}

/// What the follower does with a message the desktop sends it, given the
/// fields it reads from it.
pub struct IncomingIpc {
    /// `type`.
    pub kind: String,
    /// `method`.
    pub method: String,
    /// `version` when it is an unsigned integer.
    pub version: Option<u64>,
    /// `params.hostId` when it is a string.
    pub host_id: Option<String>,
    /// `params.conversationId` when it is a string.
    pub conversation_id: Option<String>,
    /// `sourceClientId` when it is a string.
    pub source_client_id: Option<String>,
    /// The owner recorded for `conversation_id`, if any.
    pub recorded_owner: Option<String>,
    /// `params.change.type` is `"snapshot"`.
    pub snapshot_change: bool,
    /// `params.change.revision` when it is an unsigned integer.
    pub revision: Option<u64>,
}

/// Why the follower closes the connection.
#[derive(Clone, Copy, Debug, PartialEq, Eq, Structural)]
pub enum CloseReason {
    /// The desktop reset the IPC connection.
    Reset,
    /// The desktop's stream protocol version is not 11.
    UnsupportedStreamVersion,
}

/// What to do with one message from the desktop.
#[derive(Clone, Copy, Debug, PartialEq, Eq, Structural)]
pub enum IpcAction {
    /// Hand a response to the request waiting for it.
    DeliverResponse,
    /// Answer client discovery: this client cannot handle requests.
    RefuseDiscovery,
    /// Answer a request with an error: this client is a follower only.
    RefuseRequest,
    /// Close the connection.
    Close(CloseReason),
    /// Drop the message.
    Ignore,
    /// Keep the broadcast as an event; if `store_snapshot`, also store the
    /// conversation state it carries under its revision.
    Record { store_snapshot: bool },
}

pub open spec fn opt_str_eq(a: Option<String>, b: Option<String>) -> bool {
    match (a, b) {
        (Some(x), Some(y)) => x@ == y@,
        (None, None) => true,
        _ => false,
    }
}

pub open spec fn spec_ipc_action(m: IncomingIpc) -> IpcAction {
    if m.kind@ == "response"@ {
        IpcAction::DeliverResponse
    } else if m.kind@ == "client-discovery"@ {
        IpcAction::RefuseDiscovery
    } else if m.kind@ == "request"@ {
        IpcAction::RefuseRequest
    } else if m.kind@ == "broadcast"@ {
        if m.method@ == "ipc-connection-reset"@ {
            IpcAction::Close(CloseReason::Reset)
        } else if m.method@ == "thread-stream-state-changed"@ {
            if m.version != Some(11u64) {
                IpcAction::Close(CloseReason::UnsupportedStreamVersion)
            } else if !(m.host_id matches Some(h) && h@ == "local"@) {
                IpcAction::Ignore
            } else if m.conversation_id is Some && !opt_str_eq(m.recorded_owner, m.source_client_id) {
                IpcAction::Ignore
            } else {
                IpcAction::Record {
                    store_snapshot: m.conversation_id is Some && m.snapshot_change && m.revision is Some,
                }
            }
        } else {
            IpcAction::Record { store_snapshot: false }
        }
    } else {
        IpcAction::Ignore
    }
}

fn str_is(s: &String, lit: &str) -> (r: bool)
    ensures
        r == (s@ == lit@),
{
    let a = crate::text::chars_of(s.as_str());
    let b = crate::text::chars_of(lit);
    crate::text::chars_eq(a.as_slice(), b.as_slice())
}

fn opt_eq(a: &Option<String>, b: &Option<String>) -> (r: bool)
    ensures
        r == opt_str_eq(*a, *b),
{
    match (a, b) {
        (Some(x), Some(y)) => {
            let p = crate::text::chars_of(x.as_str());
            let q = crate::text::chars_of(y.as_str());
            crate::text::chars_eq(p.as_slice(), q.as_slice())
        },
        (None, None) => true,
        _ => false,
    }
}

/// Decides what to do with a message from the desktop. Only snapshots sent
/// by the recorded owner of a local task are stored; broadcasts from anyone
/// else about such a task are dropped unrecorded.
pub fn ipc_action(m: &IncomingIpc) -> (a: IpcAction)
    ensures
        a == spec_ipc_action(*m),
{
    if str_is(&m.kind, "response") {
        IpcAction::DeliverResponse
    } else if str_is(&m.kind, "client-discovery") {
        IpcAction::RefuseDiscovery
    } else if str_is(&m.kind, "request") {
        IpcAction::RefuseRequest
    } else if str_is(&m.kind, "broadcast") {
        if str_is(&m.method, "ipc-connection-reset") {
            IpcAction::Close(CloseReason::Reset)
        } else if str_is(&m.method, "thread-stream-state-changed") {
            let version_ok = match m.version {
                Some(v) => v == 11,
                None => false,
            };
            if !version_ok {
                return IpcAction::Close(CloseReason::UnsupportedStreamVersion);
            }
            let local = match &m.host_id {
                Some(h) => str_is(h, "local"),
                None => false,
            };
            if !local {
                return IpcAction::Ignore;
            }
            if m.conversation_id.is_some() && !opt_eq(&m.recorded_owner, &m.source_client_id) {
                return IpcAction::Ignore;
            }
            IpcAction::Record {
                store_snapshot: m.conversation_id.is_some() && m.snapshot_change && m.revision.is_some(),
            }
        } else {
            IpcAction::Record { store_snapshot: false }
        }
    } else {
        IpcAction::Ignore
    }
}

/// A stored snapshot answers a history read once its revision has reached
/// the revision the owner reported.
pub fn snapshot_is_current(stored_revision: u64, requested_revision: u64) -> (r: bool)
    ensures
        r == (stored_revision >= requested_revision),
{
    stored_revision >= requested_revision
}

/// A change of a task's owner invalidates the snapshot held for it.
pub fn owner_change_invalidates(previous: Option<&str>, owner: &str) -> (r: bool)
    ensures
        r == match previous {
            Some(p) => p@ != owner@,
            None => true,
        },
{
    match previous {
        None => true,
        Some(p) => {
            let a = crate::text::chars_of(p);
            let b = crate::text::chars_of(owner);
            !crate::text::chars_eq(a.as_slice(), b.as_slice())
        },
    }
}


/// The desktop endpoint is trusted only when it is a socket owned by the
/// user the connector runs as.
pub fn endpoint_trusted(is_socket: bool, owner_uid: u32, current_uid: u32) -> (r: bool)
    ensures
        r == (is_socket && owner_uid == current_uid),
{
    is_socket && owner_uid == current_uid
}

/// What the connector reads from a message received while it waits for the
/// answer to its `initialize` request.
pub struct InitMessage {
    /// `type`.
    pub kind: String,
    /// `requestId` is the id of the `initialize` request.
    pub answers_initialize: bool,
    /// `resultType` is `"success"`.
    pub success: bool,
    /// `result.clientId` when it is a string.
    pub client_id: Option<String>,
}

/// One step of the initialization handshake.
#[derive(Debug)]
pub enum InitStep {
    /// The desktop accepted the connector under this client id.
    Connected(String),
    /// The desktop answered the `initialize` request without accepting it.
    Rejected,
    /// Answer client discovery (this client cannot handle requests) and wait on.
    AnswerDiscovery,
    /// Drop the message and wait on.
    Wait,
}

/// Decides what a message received during the handshake means: only the
/// answer to the `initialize` request ends it, with the client id when the
/// answer is a success that names one, and as a rejection otherwise.
pub fn initialize_step(m: InitMessage) -> (r: InitStep)
    ensures
        m.kind@ == "response"@ && m.answers_initialize ==> (if m.success && m.client_id is Some {
            r matches InitStep::Connected(id) && id@ == m.client_id->0@
        } else {
            r is Rejected
        }),
        !(m.kind@ == "response"@ && m.answers_initialize) ==> (if m.kind@ == "client-discovery"@ {
            r is AnswerDiscovery
        } else {
            r is Wait
        }),
{
    if str_is(&m.kind, "response") && m.answers_initialize {
        match m.client_id {
            Some(id) => {
                if m.success {
                    InitStep::Connected(id)
                } else {
                    InitStep::Rejected
                }
            },
            None => InitStep::Rejected,
        }
    } else if str_is(&m.kind, "client-discovery") {
        InitStep::AnswerDiscovery
    } else {
        InitStep::Wait
    }
}

} // verus!
