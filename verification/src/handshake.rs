//! The opening handshake with `codex app-server proxy` (RFC 6455, client side):
//! the request, the expected `Sec-WebSocket-Accept`, and line-by-line
//! checking of the proxy's response.
use vstd::prelude::*;
use vstd::string::{StrSliceExecFns, StringExecFns, StringSliceAdditionalSpecFns};
use vstd::utf8::{decode_utf8, encode_utf8, valid_utf8};
use crate::codec::{base64_encode, base64_standard, sha1_digest, spec_sha1};
use crate::text::{
    ascii_lower, ascii_lower_exec, chars_eq, chars_of, eq_ignore_ascii_case, eq_ignore_ascii_case_exec,
    find_char, has_prefix, index_of, lemma_index_of_from, slice_range, starts_with, trim, trim_chars,
    lemma_trim_bounds,
};
use crate::websocket::{copy_range, random_bytes, utf8_text};

verus! {

broadcast use vstd::utf8::decode_utf8_encode_utf8;

/// The GUID that RFC 6455 appends to the key.
pub const WEBSOCKET_GUID: &'static str = "258EAFA5-E914-47DA-95CA-C5AB0DC85B11";

/// Why the proxy's handshake response was refused.
#[derive(Clone, Copy, Debug, PartialEq, Eq, Structural)]
pub enum HandshakeError {
    /// The proxy closed its output before the handshake completed.
    Eof,
    /// The response exceeds `MAX_HANDSHAKE_BYTES`.
    TooLarge,
    /// The status line is not `101 Switching Protocols`.
    BadStatus,
    /// A header line without `:`.
    BadHeader,
    /// The upgrade, connection or accept headers do not match.
    Rejected,
    /// A response line that is not UTF-8.
    InvalidUtf8,
}

/// The `Sec-WebSocket-Accept` value the server must send for `key`.
pub open spec fn expected_accept(key: &str) -> Seq<char> {
    base64_standard(spec_sha1(key.spec_bytes() + WEBSOCKET_GUID.spec_bytes()))
}

/// The `Sec-WebSocket-Accept` value for `key`: base64 of the SHA-1 of the key and the GUID.
pub fn websocket_accept(key: &str) -> (r: String)
    ensures
        r@ == expected_accept(key),
{
    let mut data: Vec<u8> = Vec::new();
    let kb = key.as_bytes();
    let gb = WEBSOCKET_GUID.as_bytes();
    crate::websocket::append_bytes(&mut data, kb);
    crate::websocket::append_bytes(&mut data, gb);
    let digest = sha1_digest(data.as_slice());
    base64_encode(digest.as_slice())
}

/// A fresh handshake key: base64 of sixteen random bytes; none when the
/// operating system's random source fails.
pub fn new_handshake_key() -> (r: Option<String>)
    ensures
        r matches Some(key) ==> exists|nonce: Seq<u8>| nonce.len() == 16 && key@ == base64_standard(nonce),
{
    match random_bytes(16) {
        Some(nonce) => Some(base64_encode(nonce.as_slice())),
        None => None,
    }
}

pub open spec fn request_head() -> Seq<char> {
    "GET /rpc HTTP/1.1\r\nHost: localhost\r\nUpgrade: websocket\r\nConnection: Upgrade\r\nSec-WebSocket-Key: "@
}

pub open spec fn request_tail() -> Seq<char> {
    "\r\nSec-WebSocket-Version: 13\r\n\r\n"@
}

/// The upgrade request sent to the proxy for `key`.
pub fn handshake_request(key: &str) -> (r: String)
    ensures
        r@ == request_head() + key@ + request_tail(),
{
    let mut r = String::from_str(
        "GET /rpc HTTP/1.1\r\nHost: localhost\r\nUpgrade: websocket\r\nConnection: Upgrade\r\nSec-WebSocket-Key: ",
    );
    r.append(key);
    r.append("\r\nSec-WebSocket-Version: 13\r\n\r\n");
    r
}

/// ASCII lower-casing of a whole text (`str::to_ascii_lowercase`).
pub open spec fn lower(s: Seq<char>) -> Seq<char> {
    s.map_values(|c: char| ascii_lower(c))
}

/// Whether a comma-separated header value lists `token` (ASCII case ignored).
pub open spec fn has_token(v: Seq<char>, token: Seq<char>) -> bool
    decreases v.len(),
{
    let k = index_of(v, ',');
    if k >= v.len() {
        eq_ignore_ascii_case(trim(v), token)
    } else {
        proof {
            lemma_index_of_from(v, ',', 0);
        }
        eq_ignore_ascii_case(trim(v.subrange(0, k)), token) || has_token(v.subrange(k + 1, v.len() as int), token)
    }
}

/// The header flags gathered so far: upgrade to websocket, connection
/// upgrade, and the accept value.
pub open spec fn header_update(
    upgrade: bool,
    connection: bool,
    accept: Option<Seq<char>>,
    line: Seq<char>,
) -> Result<(bool, bool, Option<Seq<char>>), HandshakeError> {
    let k = index_of(line, ':');
    if k >= line.len() {
        Err(HandshakeError::BadHeader)
    } else {
        let name = lower(trim(line.subrange(0, k)));
        let value = trim(line.subrange(k + 1, line.len() as int));
        if name == "upgrade"@ {
            Ok((eq_ignore_ascii_case(value, "websocket"@), connection, accept))
        } else if name == "connection"@ {
            Ok((upgrade, has_token(value, "upgrade"@), accept))
        } else if name == "sec-websocket-accept"@ {
            Ok((upgrade, connection, Some(value)))
        } else {
            Ok((upgrade, connection, accept))
        }
    }
}

/// Where the handshake check stands.
pub enum HsPhase {
    AwaitStatus,
    Headers(bool, bool, Option<Seq<char>>),
    Finished(Result<(), HandshakeError>),
}

/// One response line: from the bytes read so far and the phase, to the new
/// byte count and phase. An empty line is the end of the stream.
pub open spec fn hs_step(total: nat, phase: HsPhase, line: Seq<char>, expected: Seq<char>) -> (nat, HsPhase) {
    let read = encode_utf8(line).len();
    if phase is Finished {
        (total, phase)
    } else if read == 0 {
        (total, HsPhase::Finished(Err(HandshakeError::Eof)))
    } else if total + read > crate::websocket::MAX_HANDSHAKE_BYTES {
        (total, HsPhase::Finished(Err(HandshakeError::TooLarge)))
    } else {
        let t = total + read;
        match phase {
            HsPhase::AwaitStatus => if has_prefix(line, "HTTP/1.1 101 "@) || has_prefix(line, "HTTP/1.0 101 "@) {
                (t, HsPhase::Headers(false, false, None))
            } else {
                (t, HsPhase::Finished(Err(HandshakeError::BadStatus)))
            },
            HsPhase::Headers(upgrade, connection, accept) => if line == "\r\n"@ || line == "\n"@ {
                (
                    t,
                    HsPhase::Finished(
                        if upgrade && connection && accept == Some(expected) {
                            Ok(())
                        } else {
                            Err(HandshakeError::Rejected)
                        },
                    ),
                )
            } else {
                match header_update(upgrade, connection, accept, line) {
                    Err(e) => (t, HsPhase::Finished(Err(e))),
                    Ok((u, c, a)) => (t, HsPhase::Headers(u, c, a)),
                }
            },
            HsPhase::Finished(r) => (total, phase),
        }
    }
}

/// Where the handshake check stands, with the accept value as characters.
pub enum HandshakePhase {
    AwaitStatus,
    Headers { upgrade: bool, connection_upgrade: bool, accept: Option<Vec<char>> },
    Finished(Result<(), HandshakeError>),
}

pub open spec fn phase_view(p: HandshakePhase) -> HsPhase {
    match p {
        HandshakePhase::AwaitStatus => HsPhase::AwaitStatus,
        HandshakePhase::Headers { upgrade, connection_upgrade, accept } => HsPhase::Headers(
            upgrade,
            connection_upgrade,
            match accept {
                Some(v) => Some(v@),
                None => None,
            },
        ),
        HandshakePhase::Finished(r) => HsPhase::Finished(r),
    }
}

/// Checks the proxy's handshake response one line at a time.
pub struct HandshakeValidator {
    pub total: usize,
    pub phase: HandshakePhase,
    pub expected: Vec<char>,
}

pub fn lower_chars(s: &[char]) -> (t: Vec<char>)
    ensures
        t@ == lower(s@),
{
    let mut t: Vec<char> = Vec::new();
    let mut i: usize = 0;
    while i < s.len()
        invariant
            i <= s@.len(),
            t@ == lower(s@.subrange(0, i as int)),
        decreases s.len() - i,
    {
        t.push(ascii_lower_exec(s[i]));
        i = i + 1;
        assert(t@ =~= lower(s@.subrange(0, i as int)));
    }
    assert(s@.subrange(0, s@.len() as int) =~= s@);
    t
}

/// Whether a comma-separated value lists `token`, ASCII case ignored.
pub fn has_token_exec(v: &[char], token: &[char]) -> (r: bool)
    ensures
        r == has_token(v@, token@),
    decreases v@.len(),
{
    let n = v.len();
    match find_char(v, ',') {
        None => {
            let t = trim_chars(v);
            eq_ignore_ascii_case_exec(t.as_slice(), token)
        },
        Some(k) => {
            let head = slice_range(v, 0, k);
            let t = trim_chars(head.as_slice());
            if eq_ignore_ascii_case_exec(t.as_slice(), token) {
                return true;
            }
            let rest = slice_range(v, k + 1, n);
            has_token_exec(rest.as_slice(), token)
        },
    }
}

/// Applies one header line to the flags.
pub fn header_update_exec(upgrade: bool, connection: bool, accept: Option<Vec<char>>, line: &[char]) -> (r: Result<
    (bool, bool, Option<Vec<char>>),
    HandshakeError,
>)
    ensures
        match (r, header_update(upgrade, connection, match accept {
            Some(v) => Some(v@),
            None => None,
        }, line@)) {
            (Ok((u, c, a)), Ok((su, sc, sa))) => u == su && c == sc && match (a, sa) {
                (Some(x), Some(y)) => x@ == y,
                (None, None) => true,
                _ => false,
            },
            (Err(e), Err(f)) => e == f,
            _ => false,
        },
{
    let n = line.len();
    let k = match find_char(line, ':') {
        None => {
            return Err(HandshakeError::BadHeader);
        },
        Some(k) => k,
    };
    let raw_name = slice_range(line, 0, k);
    let name = lower_chars(trim_chars(raw_name.as_slice()).as_slice());
    let raw_value = slice_range(line, k + 1, n);
    let value = trim_chars(raw_value.as_slice());
    let upgrade_name = chars_of("upgrade");
    let connection_name = chars_of("connection");
    let accept_name = chars_of("sec-websocket-accept");
    if chars_eq(name.as_slice(), upgrade_name.as_slice()) {
        let websocket = chars_of("websocket");
        Ok((eq_ignore_ascii_case_exec(value.as_slice(), websocket.as_slice()), connection, accept))
    } else if chars_eq(name.as_slice(), connection_name.as_slice()) {
        let token = chars_of("upgrade");
        Ok((upgrade, has_token_exec(value.as_slice(), token.as_slice()), accept))
    } else if chars_eq(name.as_slice(), accept_name.as_slice()) {
        Ok((upgrade, connection, Some(value)))
    } else {
        Ok((upgrade, connection, accept))
    }
}

impl HandshakeValidator {
    /// A check of the response to a request made with `key`.
    pub fn new(key: &str) -> (v: Self)
        ensures
            v.total == 0,
            phase_view(v.phase) == HsPhase::AwaitStatus,
            v.expected@ == expected_accept(key),
    {
        let accept = websocket_accept(key);
        HandshakeValidator { total: 0, phase: HandshakePhase::AwaitStatus, expected: chars_of(accept.as_str()) }
    }

    /// Takes the next response line as `read_line` gives it (with its line
    /// ending; empty at the end of the stream). Gives the outcome once the
    /// handshake is decided.
    pub fn feed_line(&mut self, line: &str) -> (r: Option<Result<(), HandshakeError>>)
        requires
            !(phase_view(old(self).phase) is Finished),
        ensures
            ({
                let (t, p) = hs_step(old(self).total as nat, phase_view(old(self).phase), line@, old(self).expected@);
                &&& final(self).total == t
                &&& phase_view(final(self).phase) == p
                &&& final(self).expected == old(self).expected
                &&& match p {
                    HsPhase::Finished(x) => r == Some(x),
                    _ => r is None,
                }
            }),
    {
        let read = line.as_bytes().len();
        assert(read == encode_utf8(line@).len());
        if read == 0 {
            self.phase = HandshakePhase::Finished(Err(HandshakeError::Eof));
            return Some(Err(HandshakeError::Eof));
        }
        if self.total > crate::websocket::MAX_HANDSHAKE_BYTES || read
            > crate::websocket::MAX_HANDSHAKE_BYTES - self.total {
            self.phase = HandshakePhase::Finished(Err(HandshakeError::TooLarge));
            return Some(Err(HandshakeError::TooLarge));
        }
        let t = self.total + read;
        let chars = chars_of(line);
        let mut phase = HandshakePhase::Finished(Ok(()));
        std::mem::swap(&mut phase, &mut self.phase);
        let ghost old_phase = phase_view(phase);
        match phase {
            HandshakePhase::AwaitStatus => {
                let p11 = chars_of("HTTP/1.1 101 ");
                let p10 = chars_of("HTTP/1.0 101 ");
                self.total = t;
                if starts_with(chars.as_slice(), p11.as_slice()) || starts_with(chars.as_slice(), p10.as_slice()) {
                    self.phase = HandshakePhase::Headers { upgrade: false, connection_upgrade: false, accept: None };
                    None
                } else {
                    self.phase = HandshakePhase::Finished(Err(HandshakeError::BadStatus));
                    Some(Err(HandshakeError::BadStatus))
                }
            },
            HandshakePhase::Headers { upgrade, connection_upgrade, accept } => {
                self.total = t;
                let crlf = chars_of("\r\n");
                let lf = chars_of("\n");
                if chars_eq(chars.as_slice(), crlf.as_slice()) || chars_eq(chars.as_slice(), lf.as_slice()) {
                    let ok = upgrade && connection_upgrade && match &accept {
                        Some(a) => chars_eq(a.as_slice(), self.expected.as_slice()),
                        None => false,
                    };
                    let outcome = if ok {
                        Ok(())
                    } else {
                        Err(HandshakeError::Rejected)
                    };
                    self.phase = HandshakePhase::Finished(outcome);
                    return Some(outcome);
                }
                match header_update_exec(upgrade, connection_upgrade, accept, chars.as_slice()) {
                    Err(e) => {
                        self.phase = HandshakePhase::Finished(Err(e));
                        Some(Err(e))
                    },
                    Ok((u, c, a)) => {
                        self.phase = HandshakePhase::Headers { upgrade: u, connection_upgrade: c, accept: a };
                        None
                    },
                }
            },
            HandshakePhase::Finished(x) => {
                self.phase = HandshakePhase::Finished(x);
                Some(x)
            },
        }
    }
}

/// Index just past the first `\n` at or after `i`, or `b.len()` (what one `read_line` takes).
pub open spec fn line_end(b: Seq<u8>, i: int) -> int
    decreases b.len() - i,
{
    if i >= b.len() {
        b.len() as int
    } else if b[i] == 10 {
        i + 1
    } else {
        line_end(b, i + 1)
    }
}

pub proof fn lemma_line_end(b: Seq<u8>, i: int)
    requires
        0 <= i < b.len(),
    ensures
        i < line_end(b, i) <= b.len(),
    decreases b.len() - i,
{
    if b[i] != 10 {
        if i + 1 < b.len() {
            lemma_line_end(b, i + 1);
        } else {
            assert(line_end(b, i + 1) == b.len());
        }
    }
}

/// Checking a whole response buffer from byte `pos`, line by line: the
/// number of bytes the handshake takes, or why it is refused.
pub open spec fn spec_check_response(b: Seq<u8>, pos: int, total: nat, phase: HsPhase, expected: Seq<char>) -> Result<
    nat,
    HandshakeError,
>
    decreases b.len() - pos,
{
    if pos < 0 || pos >= b.len() {
        Err(HandshakeError::Eof)
    } else {
        let e = line_end(b, pos);
        let bytes = b.subrange(pos, e);
        if e <= pos || e > b.len() {
            Err(HandshakeError::Eof)
        } else if !valid_utf8(bytes) {
            Err(HandshakeError::InvalidUtf8)
        } else {
            let (t, p) = hs_step(total, phase, decode_utf8(bytes), expected);
            match p {
                HsPhase::Finished(Ok(())) => Ok(e as nat),
                HsPhase::Finished(Err(x)) => Err(x),
                _ => spec_check_response(b, e, t, p, expected),
            }
        }
    }
}

pub fn line_end_exec(b: &[u8], i: usize) -> (e: usize)
    requires
        i < b@.len(),
    ensures
        e == line_end(b@, i as int),
{
    let mut j = i;
    while j < b.len() && b[j] != 10
        invariant
            i <= j <= b@.len(),
            line_end(b@, i as int) == line_end(b@, j as int),
        decreases b@.len() - j,
    {
        j = j + 1;
    }
    if j < b.len() {
        j + 1
    } else {
        j
    }
}

/// Checks the proxy's complete handshake response for a request made with
/// `key`; on success gives the number of bytes the handshake took.
pub fn validate_handshake_response(b: &[u8], key: &str) -> (r: Result<usize, HandshakeError>)
    ensures
        match (r, spec_check_response(b@, 0, 0, HsPhase::AwaitStatus, expected_accept(key))) {
            (Ok(n), Ok(m)) => n == m,
            (Err(e), Err(f)) => e == f,
            _ => false,
        },
{
    let mut validator = HandshakeValidator::new(key);
    let mut pos: usize = 0;
    let n = b.len();
    loop
        invariant
            pos <= n,
            n == b@.len(),
            !(phase_view(validator.phase) is Finished),
            validator.expected@ == expected_accept(key),
            spec_check_response(b@, 0, 0, HsPhase::AwaitStatus, expected_accept(key)) == spec_check_response(
                b@,
                pos as int,
                validator.total as nat,
                phase_view(validator.phase),
                expected_accept(key),
            ),
        decreases n - pos,
    {
        if pos >= n {
            return Err(HandshakeError::Eof);
        }
        let e = line_end_exec(b, pos);
        proof {
            lemma_line_end(b@, pos as int);
        }
        let bytes = copy_range(b, pos, e);
        let ghost gb = bytes@;
        let line = match utf8_text(bytes) {
            None => {
                return Err(HandshakeError::InvalidUtf8);
            },
            Some(s) => s,
        };
        proof {
            assert(encode_utf8(decode_utf8(gb)) == gb);
        }
        match validator.feed_line(line.as_str()) {
            Some(Ok(())) => {
                return Ok(e);
            },
            Some(Err(x)) => {
                return Err(x);
            },
            None => {},
        }
        pos = e;
    }
}

} // verus!
