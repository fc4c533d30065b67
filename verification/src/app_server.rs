//! The Codex app-server behind the connector: how it is reached, which
//! process may be stopped as a leftover backend, how its daemon is judged
//! up to date, and the table of requests waiting for an answer.
use vstd::prelude::*;
use std::collections::HashMap;
use crate::text::{
    is_ws, is_ws_exec, chars_of, chars_eq, has_prefix, starts_with, parse_unsigned, parse_unsigned_exec,
};

verus! {

broadcast use vstd::std_specs::hash::group_hash_axioms;

/// How requests reach the app-server.
#[derive(Clone, Copy, Debug, PartialEq, Eq, Structural)]
pub enum RpcTransportKind {
    /// A private child process spoken to in JSON lines over stdio.
    JsonLines,
    /// The shared backend, reached through `codex app-server proxy` over a
    /// WebSocket on the control socket.
    WebSocketProxy,
}

impl RpcTransportKind {
    /// The transport's name in the status report.
    pub fn status_name(self) -> (r: &'static str)
        ensures
            self == RpcTransportKind::JsonLines ==> r@ == "private_stdio"@,
            self == RpcTransportKind::WebSocketProxy ==> r@ == "shared_control_socket"@,
    {
        match self {
            RpcTransportKind::JsonLines => "private_stdio",
            RpcTransportKind::WebSocketProxy => "shared_control_socket",
        }
    }

    /// The address reported as listened on: the configured one for a
    /// private process, the control socket otherwise.
    pub fn listen_name<'a>(self, configured: &'a str) -> (r: &'a str)
        ensures
            self == RpcTransportKind::JsonLines ==> r@ == configured@,
            self == RpcTransportKind::WebSocketProxy ==> r@ == "unix://"@,
    {
        match self {
            RpcTransportKind::JsonLines => configured,
            RpcTransportKind::WebSocketProxy => "unix://",
        }
    }

    /// Whether the backend is shared with other clients.
    pub fn is_shared(self) -> (r: bool)
        ensures
            r == (self == RpcTransportKind::WebSocketProxy),
    {
        match self {
            RpcTransportKind::JsonLines => false,
            RpcTransportKind::WebSocketProxy => true,
        }
    }
}

// ---------------------------------------------------------------------------
// Words of a `ps` line

/// `split_whitespace`, left to right: the words so far, and whether the
/// last one is still open.
pub open spec fn words_state(s: Seq<char>) -> (Seq<Seq<char>>, bool)
    decreases s.len(),
{
    if s.len() == 0 {
        (Seq::empty(), false)
    } else {
        let (ws, open) = words_state(s.drop_last());
        let c = s.last();
        if is_ws(c) {
            (ws, false)
        } else if open {
            (ws.update(ws.len() - 1, ws.last().push(c)), true)
        } else {
            (ws.push(seq![c]), true)
        }
    }
}

/// The words of `s` (`split_whitespace`).
pub open spec fn words(s: Seq<char>) -> Seq<Seq<char>> {
    words_state(s).0
}

proof fn lemma_words_open(s: Seq<char>)
    ensures
        words_state(s).1 ==> words_state(s).0.len() > 0,
    decreases s.len(),
{
    if s.len() > 0 {
        lemma_words_open(s.drop_last());
    }
}

/// The words of a text.
pub fn split_words(s: &[char]) -> (r: Vec<Vec<char>>)
    ensures
        r@.len() == words(s@).len(),
        forall|i: int| 0 <= i < r@.len() ==> (#[trigger] r@[i])@ == words(s@)[i],
{
    let n = s.len();
    let mut out: Vec<Vec<char>> = Vec::new();
    let mut cur: Vec<char> = Vec::new();
    let mut open = false;
    let mut i: usize = 0;
    while i < n
        invariant
            i <= n,
            n == s@.len(),
            ({
                let (ws, o) = words_state(s@.subrange(0, i as int));
                &&& o == open
                &&& (if open {
                    out@.len() + 1 == ws.len() && cur@ == ws.last()
                } else {
                    out@.len() == ws.len()
                })
                &&& forall|k: int| 0 <= k < out@.len() ==> (#[trigger] out@[k])@ == ws[k]
            }),
        decreases n - i,
    {
        let c = s[i];
        let ghost prev = s@.subrange(0, i as int);
        let ghost next = s@.subrange(0, i as int + 1);
        assert(next.drop_last() =~= prev);
        proof {
            lemma_words_open(prev);
        }
        if is_ws_exec(c) {
            if open {
                let w = cur;
                out.push(w);
                cur = Vec::new();
            }
            open = false;
        } else {
            if open {
                cur.push(c);
            } else {
                cur = Vec::new();
                cur.push(c);
                open = true;
            }
        }
        i = i + 1;
    }
    assert(s@.subrange(0, n as int) =~= s@);
    proof {
        lemma_words_open(s@);
    }
    if open {
        out.push(cur);
    }
    out
}

/// The last component of a path as `Path::file_name` reads it: empty and
/// `.` components are skipped; a final `..`, or no component at all,
/// gives none.
pub open spec fn file_name(p: Seq<char>) -> Option<Seq<char>>
    decreases p.len(),
{
    let comps = components(p);
    if comps.len() == 0 || comps.last() == ".."@ {
        None
    } else {
        Some(comps.last())
    }
}

/// The non-empty components of a path other than `.`, in order.
pub open spec fn components(p: Seq<char>) -> Seq<Seq<char>>
    decreases p.len(),
{
    components_from(p, 0, 0)
}

/// Components of `p` from position `start`, the current one beginning at
/// `begin`.
pub open spec fn components_from(p: Seq<char>, begin: int, i: int) -> Seq<Seq<char>>
    decreases p.len() - i,
{
    if i < 0 || begin < 0 || begin > i || i > p.len() {
        Seq::empty()
    } else if i == p.len() {
        let c = p.subrange(begin, i);
        if c.len() == 0 || c == "."@ { Seq::empty() } else { seq![c] }
    } else if p[i] == '/' {
        let c = p.subrange(begin, i);
        let rest = components_from(p, i + 1, i + 1);
        if c.len() == 0 || c == "."@ { rest } else { seq![c] + rest }
    } else {
        components_from(p, begin, i + 1)
    }
}

fn copy_range(p: &[char], a: usize, b: usize) -> (c: Vec<char>)
    requires
        a <= b <= p@.len(),
    ensures
        c@ == p@.subrange(a as int, b as int),
{
    let mut c: Vec<char> = Vec::new();
    let mut k = a;
    while k < b
        invariant
            a <= k <= b,
            b <= p@.len(),
            c@ == p@.subrange(a as int, k as int),
        decreases b - k,
    {
        c.push(p[k]);
        k = k + 1;
        assert(c@ =~= p@.subrange(a as int, k as int));
    }
    c
}

/// The file name of a path (`Path::file_name`).
pub fn last_component_of(p: &[char]) -> (r: Option<Vec<char>>)
    ensures
        match r {
            Some(c) => file_name(p@) == Some(c@),
            None => file_name(p@) is None,
        },
{
    match last_component(p) {
        Some(c) => {
            let dotdot = chars_of("..");
            if chars_eq(c.as_slice(), dotdot.as_slice()) {
                None
            } else {
                Some(c)
            }
        },
        None => None,
    }
}

fn last_component(p: &[char]) -> (r: Option<Vec<char>>)
    ensures
        match r {
            Some(c) => components(p@).len() > 0 && c@ == components(p@).last(),
            None => components(p@).len() == 0,
        },
{
    let n = p.len();
    let dot = chars_of(".");
    let mut last: Option<Vec<char>> = None;
    let mut begin: usize = 0;
    let mut i: usize = 0;
    let ghost mut done: Seq<Seq<char>> = Seq::empty();
    while i < n
        invariant
            begin <= i <= n,
            n == p@.len(),
            dot@ == "."@,
            components(p@) == done + components_from(p@, begin as int, i as int),
            match last {
                Some(c) => done.len() > 0 && c@ == done.last(),
                None => done.len() == 0,
            },
        decreases n - i,
    {
        if p[i] == '/' {
            let c = copy_range(p, begin, i);
            let skip = c.len() == 0 || chars_eq(c.as_slice(), dot.as_slice());
            proof {
                let rest = components_from(p@, i as int + 1, i as int + 1);
                if skip {
                    assert(components_from(p@, begin as int, i as int) == rest);
                } else {
                    assert(components_from(p@, begin as int, i as int) == seq![c@] + rest);
                    assert(done + (seq![c@] + rest) =~= done.push(c@) + rest);
                    done = done.push(c@);
                }
            }
            if !skip {
                last = Some(c);
            }
            begin = i + 1;
        }
        i = i + 1;
    }
    let c = copy_range(p, begin, n);
    let skip = c.len() == 0 || chars_eq(c.as_slice(), dot.as_slice());
    proof {
        if skip {
            assert(components_from(p@, begin as int, n as int) == Seq::<Seq<char>>::empty());
            assert(components(p@) =~= done);
        } else {
            assert(components_from(p@, begin as int, n as int) == seq![c@]);
            assert(components(p@) =~= done.push(c@));
        }
    }
    if !skip {
        last = Some(c);
    }
    last
}

/// The executable named by a command is Codex: its file name is `codex`
/// or starts with `codex-`.
pub open spec fn executable_is_codex(word: Seq<char>) -> bool {
    match file_name(word) {
        Some(name) => name == "codex"@ || has_prefix(name, "codex-"@),
        None => false,
    }
}

/// The line `ps -o uid= -o command=` printed names a process of the
/// expected user, running Codex's `app-server` and listening on the
/// control socket (`--listen unix://` as adjacent words).
pub open spec fn legacy_identity(line: Seq<char>, expected_uid: u32) -> bool {
    let ws = words(line);
    &&& ws.len() > 0
    &&& parse_unsigned(ws[0], u32::MAX as nat) == Some(expected_uid as nat)
    &&& ws.len() > 1 && executable_is_codex(ws[1])
    &&& exists|i: int| 1 <= i < ws.len() && #[trigger] ws[i] == "app-server"@
    &&& exists|i: int| 1 <= i < ws.len() - 1 && #[trigger] ws[i] == "--listen"@ && ws[i + 1] == "unix://"@
}

/// Whether the process behind the control socket may be stopped as a
/// leftover backend of this user.
pub fn legacy_backend_identity_matches(line: &str, expected_uid: u32) -> (r: bool)
    ensures
        r == legacy_identity(line@, expected_uid),
{
    let cs = chars_of(line);
    let ws = split_words(cs.as_slice());
    let n = ws.len();
    if n == 0 {
        return false;
    }
    let uid = parse_unsigned_exec(ws[0].as_slice(), 0xffff_ffff);
    let uid_ok = match uid {
        Some(u) => u == expected_uid as u64,
        None => false,
    };
    if !uid_ok {
        return false;
    }
    if n < 2 {
        return false;
    }
    let codex = chars_of("codex");
    let codex_dash = chars_of("codex-");
    let exe_ok = match last_component(ws[1].as_slice()) {
        Some(name) => {
            let dotdot = chars_of("..");
            if chars_eq(name.as_slice(), dotdot.as_slice()) {
                false
            } else {
                chars_eq(name.as_slice(), codex.as_slice()) || starts_with(name.as_slice(), codex_dash.as_slice())
            }
        },
        None => false,
    };
    if !exe_ok {
        return false;
    }
    let app_server = chars_of("app-server");
    let listen = chars_of("--listen");
    let unix = chars_of("unix://");
    let mut has_app_server = false;
    let mut has_listener = false;
    let mut i: usize = 1;
    while i < n
        invariant
            1 <= i <= n,
            n == ws@.len(),
            n == words(line@).len(),
            cs@ == line@,
            forall|k: int| 0 <= k < n ==> (#[trigger] ws@[k])@ == words(line@)[k],
            app_server@ == "app-server"@,
            listen@ == "--listen"@,
            unix@ == "unix://"@,
            has_app_server == exists|k: int| 1 <= k < i && #[trigger] words(line@)[k] == "app-server"@,
            has_listener == exists|k: int| 1 <= k < i && k < n - 1 && #[trigger] words(line@)[k] == "--listen"@
                && words(line@)[k + 1] == "unix://"@,
        decreases n - i,
    {
        let ghost w = words(line@);
        assert(ws@[i as int]@ == w[i as int]);
        if chars_eq(ws[i].as_slice(), app_server.as_slice()) {
            has_app_server = true;
        }
        if i + 1 < n {
            assert(ws@[i as int + 1]@ == w[i as int + 1]);
            if chars_eq(ws[i].as_slice(), listen.as_slice()) && chars_eq(ws[i + 1].as_slice(), unix.as_slice()) {
                has_listener = true;
            }
        }
        i = i + 1;
    }
    proof {
        let w = words(line@);
        assert(ws@[0]@ == w[0]);
        assert(ws@[1]@ == w[1]);
    }
    has_app_server && has_listener
}

// ---------------------------------------------------------------------------
// The managed daemon

/// What `codex app-server daemon version` reported, where the fields are
/// strings.
#[derive(Debug)]
pub struct DaemonVersion {
    pub status: Option<String>,
    pub managed_codex_path: Option<String>,
    pub cli_version: Option<String>,
    pub app_server_version: Option<String>,
}

/// The daemon is running the expected version of both the CLI and the
/// app-server, from a managed installation.
pub open spec fn daemon_matches(v: DaemonVersion, expected: Seq<char>) -> bool {
    &&& v.status matches Some(s) && s@ == "running"@
    &&& v.managed_codex_path is Some
    &&& v.cli_version matches Some(c) && c@ == expected
    &&& v.app_server_version matches Some(a) && a@ == expected
}

fn opt_is(v: &Option<String>, t: &[char]) -> (r: bool)
    ensures
        r == (v matches Some(s) && s@ == t@),
{
    match v {
        Some(s) => chars_eq(chars_of(s.as_str()).as_slice(), t),
        None => false,
    }
}

/// Whether the daemon may be used as it is.
pub fn daemon_version_matches(version: &DaemonVersion, expected: &str) -> (r: bool)
    ensures
        r == daemon_matches(*version, expected@),
{
    let running = chars_of("running");
    let e = chars_of(expected);
    opt_is(&version.status, running.as_slice()) && version.managed_codex_path.is_some() && opt_is(
        &version.cli_version,
        e.as_slice(),
    ) && opt_is(&version.app_server_version, e.as_slice())
}

// ---------------------------------------------------------------------------
// Starting the backend

/// Why the app-server could not be started.
#[derive(Clone, Debug, PartialEq, Eq)]
pub enum StartError {
    /// The CLI does not offer `app-server`; the message shown.
    Unsupported(String),
}

/// How the backend is started.
#[derive(Clone, Debug, PartialEq, Eq)]
pub enum StartKind {
    /// Connect to (or launch) the shared backend on the control socket.
    Shared,
    /// Launch a private child with these arguments.
    Private(Vec<String>),
}

/// Chooses how to start the backend. Without extra arguments the CLI must
/// support `app-server` (else the inspection's error, or a generic one, is
/// reported); on Unix the shared backend is then used. Otherwise a private
/// child runs with the extra arguments, or `app-server --listen <listen>`.
pub fn start_plan(
    extra_args: Vec<String>,
    listen: &str,
    app_server_supported: bool,
    inspection_error: Option<String>,
    unix: bool,
) -> (r: Result<StartKind, StartError>)
    ensures
        extra_args@.len() == 0 && !app_server_supported ==> (r matches Err(StartError::Unsupported(m)) && m@ == (
        match inspection_error {
            Some(e) => e@,
            None => "the selected Codex CLI does not support app-server"@,
        })),
        extra_args@.len() == 0 && app_server_supported && unix ==> r == Ok::<StartKind, StartError>(
            StartKind::Shared,
        ),
        extra_args@.len() == 0 && app_server_supported && !unix ==> (r matches Ok(StartKind::Private(a))
            && a@.len() == 3 && a@[0]@ == "app-server"@ && a@[1]@ == "--listen"@ && a@[2]@ == listen@),
        extra_args@.len() > 0 ==> r == Ok::<StartKind, StartError>(StartKind::Private(extra_args)),
{
    if extra_args.len() > 0 {
        return Ok(StartKind::Private(extra_args));
    }
    if !app_server_supported {
        let m = match inspection_error {
            Some(e) => e,
            None => String::from_str("the selected Codex CLI does not support app-server"),
        };
        return Err(StartError::Unsupported(m));
    }
    if unix {
        return Ok(StartKind::Shared);
    }
    let mut a: Vec<String> = Vec::new();
    a.push(String::from_str("app-server"));
    a.push(String::from_str("--listen"));
    a.push(String::from_str(listen));
    Ok(StartKind::Private(a))
}

/// The next step while waiting for the shared backend's control socket.
#[derive(Clone, Debug, PartialEq, Eq)]
pub enum SocketWait {
    /// The socket accepts connections.
    Ready,
    /// The backend exited first, with this status.
    Exited(String),
    /// Ten seconds passed: stop the backend and give up.
    TimedOut,
    /// Look again shortly.
    Retry,
}

/// Decides one round of waiting for the control socket.
pub fn socket_wait_step(connected: bool, exited: Option<String>, expired: bool) -> (r: SocketWait)
    ensures
        connected ==> r == SocketWait::Ready,
        !connected && exited is Some ==> r == SocketWait::Exited(exited->Some_0),
        !connected && exited is None && expired ==> r == SocketWait::TimedOut,
        !connected && exited is None && !expired ==> r == SocketWait::Retry,
{
    if connected {
        return SocketWait::Ready;
    }
    match exited {
        Some(status) => SocketWait::Exited(status),
        None => if expired { SocketWait::TimedOut } else { SocketWait::Retry },
    }
}

// ---------------------------------------------------------------------------
// Requests waiting for an answer

/// The requests sent and not yet answered, each with the means to hand its
/// answer over, and the next request ID.
pub struct PendingTable<T> {
    pub waiting: HashMap<u64, T>,
    pub next_id: u64,
}

impl<T> PendingTable<T> {
    /// The waiting requests by ID.
    pub open spec fn view(&self) -> Map<u64, T> {
        self.waiting@
    }

    /// An empty table; IDs start at 1.
    pub fn new() -> (r: Self)
        ensures
            r.view() == Map::<u64, T>::empty(),
            r.next_id == 1,
    {
        PendingTable { waiting: HashMap::new(), next_id: 1 }
    }

    /// Registers a request and returns its ID, the next one in turn (IDs
    /// wrap around after the largest `u64`).
    pub fn register(&mut self, waiter: T) -> (id: u64)
        ensures
            id == old(self).next_id,
            final(self).next_id == (if old(self).next_id == u64::MAX { 0 } else { (old(self).next_id + 1) as u64 }),
            final(self).view() == old(self).view().insert(id, waiter),
    {
        let id = self.next_id;
        self.next_id = if self.next_id == u64::MAX { 0 } else { self.next_id + 1 };
        self.waiting.insert(id, waiter);
        id
    }

    /// Removes and returns the waiter of a request, if it is still waiting.
    pub fn take(&mut self, id: u64) -> (r: Option<T>)
        ensures
            final(self).next_id == old(self).next_id,
            final(self).view() == old(self).view().remove(id),
            match r {
                Some(w) => old(self).view().contains_key(id) && w == old(self).view()[id],
                None => !old(self).view().contains_key(id),
            },
    {
        self.waiting.remove(&id)
    }
}

/// What a message from the app-server is.
#[derive(Debug)]
pub enum Incoming {
    /// A response: its ID, and the message of its `error` object when it
    /// has one (`None` inside when that object has no string message).
    Response(u64, Option<Option<String>>),
    /// Anything without an integer ID: a notification, with its method
    /// when that is a string.
    Notification(Option<String>),
}

/// What to do with a message from the app-server.
#[derive(Debug)]
pub enum Dispatch<T> {
    /// Hand the result to the waiting request.
    Deliver(T),
    /// Hand the error, with this message, to the waiting request.
    Fail(T, String),
    /// Nobody waits for this response: record it as an event.
    Unmatched,
    /// Record a notification under this method.
    Event(String),
}

/// Routes a message from the app-server: a response goes to the request
/// that waits for it (which stops waiting), as an error when it carries
/// one; a response nobody waits for, and every notification, becomes an
/// event.
pub fn dispatch<T>(table: &mut PendingTable<T>, message: Incoming) -> (r: Dispatch<T>)
    ensures
        final(table).next_id == old(table).next_id,
        match message {
            Incoming::Response(id, error) => {
                &&& final(table).view() == old(table).view().remove(id)
                &&& if old(table).view().contains_key(id) {
                    match error {
                        None => r matches Dispatch::Deliver(w) && w == old(table).view()[id],
                        Some(m) => r matches Dispatch::Fail(w, text) && w == old(table).view()[id]
                            && text@ == (match m {
                            Some(t) => t@,
                            None => "codex app-server error"@,
                        }),
                    }
                } else {
                    r is Unmatched
                }
            },
            Incoming::Notification(method) => final(table).view() == old(table).view() && (r matches Dispatch::Event(
                m,
            ) && m@ == (match method {
                Some(t) => t@,
                None => "codex/notification"@,
            })),
        },
{
    match message {
        Incoming::Response(id, error) => {
            match table.take(id) {
                Some(w) => match error {
                    None => Dispatch::Deliver(w),
                    Some(m) => {
                        let text = match m {
                            Some(t) => t,
                            None => String::from_str("codex app-server error"),
                        };
                        Dispatch::Fail(w, text)
                    },
                },
                None => Dispatch::Unmatched,
            }
        },
        Incoming::Notification(method) => {
            let m = match method {
                Some(t) => t,
                None => String::from_str("codex/notification"),
            };
            Dispatch::Event(m)
        },
    }
}

/// A request made now is answered by a response with the ID it got: the
/// answer reaches it, and it no longer waits.
pub proof fn lemma_response_reaches_request<T>(table: PendingTable<T>, waiter: T)
    requires
        !table.view().contains_key(table.next_id),
    ensures
        ({
            let after = table.view().insert(table.next_id, waiter);
            &&& after.contains_key(table.next_id)
            &&& after[table.next_id] == waiter
            &&& after.remove(table.next_id) == table.view()
        }),
{
    let after = table.view().insert(table.next_id, waiter);
    assert(after.remove(table.next_id) =~= table.view());
}

// ---------------------------------------------------------------------------
// Delivery of domain events

/// Whether a refused event delivery is worth retrying: only temporary
/// failures are (a request timeout, too many requests, a server error).
pub fn retryable_event_status(status: u16) -> (r: bool)
    ensures
        r == (status == 408 || status == 429 || (500 <= status && status <= 599)),
{
    status == 408 || status == 429 || (500 <= status && status <= 599)
}

} // verus!
