//! The WebSocket client side used to talk to `codex app-server proxy`:
//! frame encoding (client frames are masked), frame decoding (server frames
//! must not be masked), message reassembly and the opening handshake.
use vstd::prelude::*;
use crate::bytes::{be_bytes, be_value, lemma_be_bytes_len, lemma_be_roundtrip, lemma_pow256_values, push_be, read_be};
use rand::RngCore;
use vstd::string::StringSliceAdditionalSpecFns;
use vstd::utf8::{decode_utf8, valid_utf8};

verus! {

/// Largest message (one frame or a reassembled fragmented message) accepted.
pub const MAX_MESSAGE_BYTES: usize = 67108864;

/// Largest opening-handshake response accepted, in bytes.
pub const MAX_HANDSHAKE_BYTES: usize = 65536;

/// Why the WebSocket peer's bytes were refused.
#[derive(Clone, Copy, Debug, PartialEq, Eq, Structural)]
pub enum WsError {
    /// The stream ended inside a frame.
    UnexpectedEof,
    /// A reserved header bit is set (no extension was negotiated).
    ReservedBits,
    /// The server sent a masked frame.
    MaskedServerFrame,
    /// A 64-bit length with its most significant bit set.
    LengthHighBit,
    /// A control frame that is fragmented or longer than 125 bytes.
    InvalidControlFrame,
    /// A length that does not fit in `usize`.
    LengthNotRepresentable,
    /// A frame or reassembled message above `MAX_MESSAGE_BYTES`.
    MessageTooLarge,
    /// A continuation frame with no message in progress.
    ContinuationWithoutStart,
    /// A new data frame while a fragmented message is in progress.
    InterleavedMessage,
    /// An opcode this client does not handle.
    UnsupportedOpcode,
    /// The operating system's random source failed, so no mask key could be made.
    RandomUnavailable,
    /// A complete message that is not a text message.
    NonTextMessage,
    /// A text message that is not UTF-8.
    InvalidUtf8,
    /// A control frame to send whose payload is above 125 bytes.
    ControlPayloadTooLarge,
}

/// One decoded frame.
pub struct Frame {
    pub fin: bool,
    pub opcode: u8,
    pub payload: Vec<u8>,
}

/// A frame header read from the start of a buffer.
#[derive(Clone, Copy, Debug, PartialEq, Eq, Structural)]
pub struct FrameHeader {
    pub fin: bool,
    pub opcode: u8,
    pub payload_len: usize,
    pub header_len: usize,
}

/// Number of extended-length bytes that follow the short length field.
pub open spec fn ext_len_bytes(short: u8) -> nat {
    if short == 126 {
        2
    } else if short == 127 {
        8
    } else {
        0
    }
}

/// The payload length a header declares, read from its length fields.
pub open spec fn declared_len(b: Seq<u8>) -> nat {
    let short = (b[1] % 128) as u8;
    if short == 126 {
        be_value(b.subrange(2, 4))
    } else if short == 127 {
        be_value(b.subrange(2, 10))
    } else {
        short as nat
    }
}

/// What reading a server frame header from the start of `b` gives:
/// `Ok(None)` when more bytes are needed, `Ok(Some((fin, opcode, payload_len, header_len)))`
/// for a header that is accepted, or the reason it is refused. The checks
/// come in the order in which the header's bytes arrive.
pub open spec fn spec_frame_header(b: Seq<u8>) -> Result<Option<(bool, u8, nat, nat)>, WsError> {
    if b.len() < 2 {
        Ok(None)
    } else {
        let fin = b[0] >= 128;
        let opcode = (b[0] % 16) as u8;
        let short = (b[1] % 128) as u8;
        if (b[0] / 16) % 8 != 0 {
            Err(WsError::ReservedBits)
        } else if b[1] >= 128 {
            Err(WsError::MaskedServerFrame)
        } else if b.len() < 2 + ext_len_bytes(short) {
            Ok(None)
        } else {
            let len = declared_len(b);
            if short == 127 && len >= 0x8000_0000_0000_0000 {
                Err(WsError::LengthHighBit)
            } else if opcode >= 8 && (!fin || len > 125) {
                Err(WsError::InvalidControlFrame)
            } else if len > usize::MAX {
                Err(WsError::LengthNotRepresentable)
            } else if len > MAX_MESSAGE_BYTES {
                Err(WsError::MessageTooLarge)
            } else {
                Ok(Some((fin, opcode, len, 2 + ext_len_bytes(short))))
            }
        }
    }
}

/// What reading one whole server frame from the start of `b` gives:
/// `Ok(None)` when more bytes are needed, else the frame
/// `(fin, opcode, payload)` and the number of bytes it takes.
pub open spec fn spec_frame(b: Seq<u8>) -> Result<Option<(bool, u8, Seq<u8>, nat)>, WsError> {
    match spec_frame_header(b) {
        Err(e) => Err(e),
        Ok(None) => Ok(None),
        Ok(Some((fin, opcode, len, hl))) => if b.len() < hl + len {
            Ok(None)
        } else {
            Ok(Some((fin, opcode, b.subrange(hl as int, (hl + len) as int), hl + len)))
        },
    }
}

/// Reads a server frame header from the start of `b`.
pub fn parse_frame_header(b: &[u8]) -> (r: Result<Option<FrameHeader>, WsError>)
    ensures
        match (r, spec_frame_header(b@)) {
            (Ok(None), Ok(None)) => true,
            (Ok(Some(h)), Ok(Some((fin, opcode, len, hl)))) => h.fin == fin && h.opcode == opcode
                && h.payload_len == len && h.header_len == hl,
            (Err(e), Err(f)) => e == f,
            _ => false,
        },
{
    let n = b.len();
    if n < 2 {
        return Ok(None);
    }
    let b0 = b[0];
    let b1 = b[1];
    let fin = b0 >= 128;
    let opcode = b0 % 16;
    let short = b1 % 128;
    if (b0 / 16) % 8 != 0 {
        return Err(WsError::ReservedBits);
    }
    if b1 >= 128 {
        return Err(WsError::MaskedServerFrame);
    }
    let ext: usize = if short == 126 {
        2
    } else if short == 127 {
        8
    } else {
        0
    };
    if n < 2 + ext {
        return Ok(None);
    }
    let len: u64 = if short == 126 || short == 127 {
        read_be(b, 2, ext)
    } else {
        short as u64
    };
    if short == 127 && len >= 0x8000_0000_0000_0000 {
        return Err(WsError::LengthHighBit);
    }
    if opcode >= 8 && (!fin || len > 125) {
        return Err(WsError::InvalidControlFrame);
    }
    if len > usize::MAX as u64 {
        return Err(WsError::LengthNotRepresentable);
    }
    if len > MAX_MESSAGE_BYTES as u64 {
        return Err(WsError::MessageTooLarge);
    }
    Ok(Some(FrameHeader { fin, opcode, payload_len: len as usize, header_len: 2 + ext }))
}

/// Reads one whole server frame from the start of `b`; `Ok(None)` when more
/// bytes are needed. On success also gives the number of bytes used.
pub fn parse_frame(b: &[u8]) -> (r: Result<Option<(Frame, usize)>, WsError>)
    ensures
        match (r, spec_frame(b@)) {
            (Ok(None), Ok(None)) => true,
            (Ok(Some((f, used))), Ok(Some((fin, opcode, payload, n)))) => f.fin == fin && f.opcode
                == opcode && f.payload@ == payload && used == n,
            (Err(e), Err(g)) => e == g,
            _ => false,
        },
{
    match parse_frame_header(b) {
        Err(e) => Err(e),
        Ok(None) => Ok(None),
        Ok(Some(h)) => {
            if b.len() - h.header_len < h.payload_len {
                return Ok(None);
            }
            let end = h.header_len + h.payload_len;
            let payload = copy_range(b, h.header_len, end);
            Ok(Some((Frame { fin: h.fin, opcode: h.opcode, payload }, end)))
        },
    }
}

/// A copy of `b[a..e]`.
pub fn copy_range(b: &[u8], a: usize, e: usize) -> (v: Vec<u8>)
    requires
        a <= e <= b@.len(),
    ensures
        v@ == b@.subrange(a as int, e as int),
{
    let mut v: Vec<u8> = Vec::new();
    let mut i = a;
    while i < e
        invariant
            a <= i <= e,
            e <= b@.len(),
            v@ == b@.subrange(a as int, i as int),
        decreases e - i,
    {
        v.push(b[i]);
        i = i + 1;
        assert(v@ =~= b@.subrange(a as int, i as int));
    }
    v
}

/// The header of a client (masked, final) frame with the given opcode and payload length.
pub open spec fn client_header(opcode: u8, len: nat) -> Seq<u8> {
    let b0 = (128 + opcode % 16) as u8;
    if len <= 125 {
        seq![b0, (128 + len) as u8]
    } else if len <= 65535 {
        seq![b0, 254u8] + be_bytes(len, 2)
    } else {
        seq![b0, 255u8] + be_bytes(len, 8)
    }
}

/// `payload` with each byte XOR-ed with the mask byte at its position modulo 4.
pub open spec fn apply_mask(payload: Seq<u8>, mask: Seq<u8>) -> Seq<u8> {
    Seq::new(payload.len(), |i: int| payload[i] ^ mask[i % 4])
}

/// The bytes of a client frame: header, the four mask bytes, the masked payload.
pub open spec fn client_frame_bytes(opcode: u8, payload: Seq<u8>, mask: Seq<u8>) -> Seq<u8> {
    client_header(opcode, payload.len()) + mask + apply_mask(payload, mask)
}

/// Masking twice with the same key gives the payload back.
pub proof fn lemma_mask_involution(payload: Seq<u8>, mask: Seq<u8>)
    requires
        mask.len() == 4,
    ensures
        apply_mask(apply_mask(payload, mask), mask) == payload,
{
    assert forall|i: int| 0 <= i < payload.len() implies #[trigger] apply_mask(
        apply_mask(payload, mask),
        mask,
    )[i] == payload[i] by {
        let a = payload[i];
        let m = mask[i % 4];
        assert((a ^ m) ^ m == a) by (bit_vector);
    }
    assert(apply_mask(apply_mask(payload, mask), mask) =~= payload);
}

/// A client frame announces itself as final, masked, with the given opcode
/// and the payload's length, and unmasking its body with its key gives the
/// payload back.
pub proof fn lemma_client_frame_decodes(opcode: u8, payload: Seq<u8>, mask: Seq<u8>)
    requires
        mask.len() == 4,
        payload.len() < 0x1_0000_0000_0000_0000,
    ensures
        ({
            let f = client_frame_bytes(opcode, payload, mask);
            let short = (f[1] % 128) as u8;
            let hl = 2 + ext_len_bytes(short) as int;
            &&& f.len() == hl + 4 + payload.len()
            &&& f[0] >= 128
            &&& (f[0] / 16) % 8 == 0
            &&& f[0] % 16 == opcode % 16
            &&& f[1] >= 128
            &&& declared_len(f) == payload.len()
            &&& f.subrange(hl, hl + 4) == mask
            &&& apply_mask(f.subrange(hl + 4, f.len() as int), mask) == payload
        }),
{
    let f = client_frame_bytes(opcode, payload, mask);
    let len = payload.len();
    let h = client_header(opcode, len);
    lemma_pow256_values();
    let b0 = (128 + opcode % 16) as u8;
    assert(b0 >= 128 && (b0 / 16) % 8 == 0 && b0 % 16 == opcode % 16) by (bit_vector)
        requires b0 == (128 + opcode % 16) as u8;
    if len <= 125 {
        assert(h.len() == 2);
    } else if len <= 65535 {
        lemma_be_bytes_len(len, 2);
        lemma_be_roundtrip(len, 2);
        assert(f.subrange(2, 4) =~= be_bytes(len, 2));
    } else {
        lemma_be_bytes_len(len, 8);
        lemma_be_roundtrip(len, 8);
        assert(f.subrange(2, 10) =~= be_bytes(len, 8));
    }
    let hl = h.len() as int;
    assert(f.subrange(hl, hl + 4) =~= mask);
    assert(f.subrange(hl + 4, f.len() as int) =~= apply_mask(payload, mask));
    lemma_mask_involution(payload, mask);
}

/// Encodes a client frame with the given mask key.
pub fn encode_client_frame(opcode: u8, payload: &[u8], mask: &[u8]) -> (out: Vec<u8>)
    requires
        mask@.len() == 4,
    ensures
        out@ == client_frame_bytes(opcode, payload@, mask@),
{
    let len = payload.len();
    let mut out: Vec<u8> = Vec::new();
    out.push(128 + opcode % 16);
    if len <= 125 {
        out.push(128 + len as u8);
    } else if len <= 65535 {
        out.push(254);
        push_be(&mut out, len as u64, 2);
    } else {
        out.push(255);
        push_be(&mut out, len as u64, 8);
    }
    assert(out@ =~= client_header(opcode, len as nat));
    out.push(mask[0]);
    out.push(mask[1]);
    out.push(mask[2]);
    out.push(mask[3]);
    let ghost head = out@;
    assert(head =~= client_header(opcode, len as nat) + mask@);
    let mut i: usize = 0;
    while i < len
        invariant
            i <= len,
            len == payload@.len(),
            mask@.len() == 4,
            out@ == head + apply_mask(payload@, mask@).subrange(0, i as int),
        decreases len - i,
    {
        out.push(payload[i] ^ mask[i % 4]);
        i = i + 1;
        assert(out@ =~= head + apply_mask(payload@, mask@).subrange(0, i as int));
    }
    assert(apply_mask(payload@, mask@).subrange(0, len as int) =~= apply_mask(payload@, mask@));
    out
}

/// Random bytes from the operating system's generator
/// (`rand::rngs::OsRng::try_fill_bytes`), or none when that source fails.
///
/// Only the length is promised: the bytes are random, and whether the
/// source works is up to the operating system.
#[verifier::external_body]
pub(crate) fn random_bytes(n: usize) -> (r: Option<Vec<u8>>)
    ensures
        r matches Some(v) ==> v@.len() == n,
{
    let mut v = vec![0u8; n];
    match rand::rngs::OsRng.try_fill_bytes(&mut v) {
        Ok(()) => Some(v),
        Err(_) => None,
    }
}

/// A client frame with a fresh random mask key, as written to the proxy;
/// none when no random key could be had.
pub fn client_frame(opcode: u8, payload: &[u8]) -> (r: Option<Vec<u8>>)
    ensures
        r matches Some(out) ==> exists|mask: Seq<u8>| mask.len() == 4 && out@ == client_frame_bytes(opcode, payload@, mask),
{
    match random_bytes(4) {
        Some(mask) => Some(encode_client_frame(opcode, payload, mask.as_slice())),
        None => None,
    }
}

/// A control frame to send; its payload may not exceed 125 bytes.
pub fn control_frame(opcode: u8, payload: &[u8]) -> (r: Result<Vec<u8>, WsError>)
    ensures
        payload@.len() > 125 ==> r == Err::<Vec<u8>, WsError>(WsError::ControlPayloadTooLarge),
        payload@.len() <= 125 ==> match r {
            Ok(out) => exists|mask: Seq<u8>| mask.len() == 4 && out@ == client_frame_bytes(opcode, payload@, mask),
            Err(e) => e == WsError::RandomUnavailable,
        },
{
    if payload.len() > 125 {
        return Err(WsError::ControlPayloadTooLarge);
    }
    match client_frame(opcode, payload) {
        Some(out) => Ok(out),
        None => Err(WsError::RandomUnavailable),
    }
}

/// A text frame carrying `text`; none when no random key could be had.
pub fn text_frame(text: &str) -> (r: Option<Vec<u8>>)
    ensures
        r matches Some(out) ==> exists|mask: Seq<u8>| mask.len() == 4 && out@ == client_frame_bytes(
            1,
            text.spec_bytes(),
            mask,
        ),
{
    client_frame(1, text.as_bytes())
}

/// The text of `bytes` when they are UTF-8 (`String::from_utf8`).
#[verifier::external_body]
pub(crate) fn utf8_text(bytes: Vec<u8>) -> (r: Option<String>)
    ensures
        r is Some <==> valid_utf8(bytes@),
        r matches Some(s) ==> s@ == decode_utf8(bytes@),
{
    String::from_utf8(bytes).ok()
}

/// A complete message received from the proxy.
#[derive(Debug)]
pub enum IncomingMessage {
    Text(String),
    Closed,
}

/// What one frame asks of the reader, in terms of byte sequences.
pub enum FrameEffect {
    /// Read another frame.
    Continue,
    /// Answer a ping with a pong carrying this payload, then read on.
    Pong(Seq<u8>),
    /// A complete text message with these bytes.
    Text(Seq<u8>),
    /// The peer closed; echo a close frame with this payload.
    Close(Seq<u8>),
}

/// Decoding a complete message: only UTF-8 text is accepted.
pub open spec fn spec_decode_message(opcode: u8, payload: Seq<u8>) -> Result<Seq<u8>, WsError> {
    if opcode != 1 {
        Err(WsError::NonTextMessage)
    } else if !valid_utf8(payload) {
        Err(WsError::InvalidUtf8)
    } else {
        Ok(payload)
    }
}

/// One step of message reassembly: from the fragmented opcode and the bytes
/// gathered so far, and a frame, to the new state and what the frame asks for.
pub open spec fn spec_assemble(
    fragmented: Option<u8>,
    message: Seq<u8>,
    fin: bool,
    opcode: u8,
    payload: Seq<u8>,
) -> Result<(Option<u8>, Seq<u8>, FrameEffect), WsError> {
    if opcode == 0 {
        if fragmented is None {
            Err(WsError::ContinuationWithoutStart)
        } else if message.len() + payload.len() > MAX_MESSAGE_BYTES {
            Err(WsError::MessageTooLarge)
        } else if fin {
            match spec_decode_message(fragmented->0, message + payload) {
                Err(e) => Err(e),
                Ok(t) => Ok((None, Seq::empty(), FrameEffect::Text(t))),
            }
        } else {
            Ok((fragmented, message + payload, FrameEffect::Continue))
        }
    } else if opcode == 1 || opcode == 2 {
        if fragmented is Some {
            Err(WsError::InterleavedMessage)
        } else if fin {
            match spec_decode_message(opcode, payload) {
                Err(e) => Err(e),
                Ok(t) => Ok((None, Seq::empty(), FrameEffect::Text(t))),
            }
        } else if message.len() + payload.len() > MAX_MESSAGE_BYTES {
            Err(WsError::MessageTooLarge)
        } else {
            Ok((Some(opcode), message + payload, FrameEffect::Continue))
        }
    } else if opcode == 8 {
        Ok((fragmented, message, FrameEffect::Close(payload)))
    } else if opcode == 9 {
        Ok((fragmented, message, FrameEffect::Pong(payload)))
    } else if opcode == 10 {
        Ok((fragmented, message, FrameEffect::Continue))
    } else {
        Err(WsError::UnsupportedOpcode)
    }
}

/// A single final text frame holding UTF-8 is a whole message: with no
/// message in progress it yields exactly its payload as text, and leaves
/// nothing in progress.
pub proof fn lemma_single_text_frame(message: Seq<u8>, payload: Seq<u8>)
    requires
        valid_utf8(payload),
    ensures
        spec_assemble(None, message, true, 1, payload) == Ok::<(Option<u8>, Seq<u8>, FrameEffect), WsError>(
            (None, Seq::empty(), FrameEffect::Text(payload)),
        ),
{
}

/// A text message split in two frames is their payloads joined: the first
/// (not final) frame leaves the text in progress and asks for more, and the
/// final continuation yields the whole text and ends the message.
pub proof fn lemma_fragmented_text(first: Seq<u8>, second: Seq<u8>)
    requires
        valid_utf8(first + second),
        first.len() + second.len() <= MAX_MESSAGE_BYTES,
    ensures
        spec_assemble(None, Seq::empty(), false, 1, first) == Ok::<(Option<u8>, Seq<u8>, FrameEffect), WsError>(
            (Some(1u8), first, FrameEffect::Continue),
        ),
        spec_assemble(Some(1u8), first, true, 0, second) == Ok::<(Option<u8>, Seq<u8>, FrameEffect), WsError>(
            (None, Seq::empty(), FrameEffect::Text(first + second)),
        ),
{
    assert(Seq::<u8>::empty() + first =~= first);
}

/// Reading from bytes that start with an unmasked final text frame of fewer
/// than 126 bytes of UTF-8 gives that text, sends nothing back, and uses
/// just that frame's bytes, whatever follows.
pub proof fn lemma_read_single_text_frame(payload: Seq<u8>, rest: Seq<u8>)
    requires
        payload.len() < 126,
        valid_utf8(payload),
    ensures
        spec_read_message(seq![0x81u8, payload.len() as u8] + payload + rest, None, Seq::empty()) == Ok::<
            (SpecIncoming, Seq<(u8, Seq<u8>)>, nat),
            WsError,
        >((SpecIncoming::Text(payload), Seq::empty(), (2 + payload.len()) as nat)),
{
    let b = seq![0x81u8, payload.len() as u8] + payload + rest;
    let n = payload.len();
    assert(b[0] == 0x81u8 && b[1] == n as u8);
    assert(b[0] >= 128);
    assert((b[0] / 16) % 8 == 0);
    assert((b[0] % 16) as u8 == 1u8);
    assert((b[1] % 128) as u8 == n as u8);
    assert(ext_len_bytes(n as u8) == 0);
    assert(declared_len(b) == n);
    assert(spec_frame_header(b) == Ok::<Option<(bool, u8, nat, nat)>, WsError>(Some((true, 1u8, n as nat, 2nat))));
    assert(b.subrange(2, 2 + n as int) =~= payload);
    assert(spec_frame(b) == Ok::<Option<(bool, u8, Seq<u8>, nat)>, WsError>(Some((true, 1u8, payload, (2 + n) as nat))));
    lemma_single_text_frame(Seq::empty(), payload);
}

/// Control frames and misplaced frames: a ping is answered with a pong
/// carrying its payload, a close is echoed with its payload and a pong is
/// ignored, all without disturbing a message in progress; a new text frame
/// inside a fragmented message, or a continuation without one, is refused.
pub proof fn lemma_control_and_misplaced_frames(fragmented: Option<u8>, message: Seq<u8>, fin: bool, payload: Seq<u8>)
    ensures
        spec_assemble(fragmented, message, true, 9, payload) == Ok::<(Option<u8>, Seq<u8>, FrameEffect), WsError>(
            (fragmented, message, FrameEffect::Pong(payload)),
        ),
        spec_assemble(fragmented, message, true, 8, payload) == Ok::<(Option<u8>, Seq<u8>, FrameEffect), WsError>(
            (fragmented, message, FrameEffect::Close(payload)),
        ),
        spec_assemble(fragmented, message, true, 10, payload) == Ok::<(Option<u8>, Seq<u8>, FrameEffect), WsError>(
            (fragmented, message, FrameEffect::Continue),
        ),
        fragmented is Some ==> spec_assemble(fragmented, message, fin, 1, payload) == Err::<
            (Option<u8>, Seq<u8>, FrameEffect),
            WsError,
        >(WsError::InterleavedMessage),
        fragmented is None ==> spec_assemble(fragmented, message, fin, 0, payload) == Err::<
            (Option<u8>, Seq<u8>, FrameEffect),
            WsError,
        >(WsError::ContinuationWithoutStart),
{
}

/// What a frame asks of the reader.
pub enum FrameAction {
    Continue,
    Pong(Vec<u8>),
    Text(String),
    Close(Vec<u8>),
}

/// Reassembles messages from frames, one frame at a time.
pub struct MessageAssembler {
    pub fragmented: Option<u8>,
    pub message: Vec<u8>,
}

impl MessageAssembler {
    /// An assembler with no message in progress.
    pub fn new() -> (a: Self)
        ensures
            a.fragmented is None,
            a.message@ == Seq::<u8>::empty(),
    {
        MessageAssembler { fragmented: None, message: Vec::new() }
    }

    /// Takes one frame; says what it asks for, or why the stream is refused.
    pub fn feed(&mut self, frame: Frame) -> (r: Result<FrameAction, WsError>)
        ensures
            match spec_assemble(old(self).fragmented, old(self).message@, frame.fin, frame.opcode, frame.payload@) {
                Err(e) => r == Err::<FrameAction, WsError>(e),
                Ok((f, m, effect)) => r matches Ok(action) && final(self).fragmented == f && final(self).message@ == m
                    && match (action, effect) {
                        (FrameAction::Continue, FrameEffect::Continue) => true,
                        (FrameAction::Pong(p), FrameEffect::Pong(q)) => p@ == q,
                        (FrameAction::Text(t), FrameEffect::Text(q)) => t@ == decode_utf8(q),
                        (FrameAction::Close(p), FrameEffect::Close(q)) => p@ == q,
                        _ => false,
                    },
            },
    {
        let Frame { fin, opcode, payload } = frame;
        if opcode == 0 {
            let op = match self.fragmented {
                None => {
                    return Err(WsError::ContinuationWithoutStart);
                },
                Some(op) => op,
            };
            if payload.len() > MAX_MESSAGE_BYTES || self.message.len() > MAX_MESSAGE_BYTES - payload.len() {
                return Err(WsError::MessageTooLarge);
            }
            append_bytes(&mut self.message, &payload);
            if fin {
                let mut taken: Vec<u8> = Vec::new();
                std::mem::swap(&mut taken, &mut self.message);
                self.fragmented = None;
                return decode_message(op, taken);
            }
            Ok(FrameAction::Continue)
        } else if opcode == 1 || opcode == 2 {
            if self.fragmented.is_some() {
                return Err(WsError::InterleavedMessage);
            }
            if fin {
                let r = decode_message(opcode, payload);
                if r.is_ok() {
                    self.message = Vec::new();
                }
                return r;
            }
            if payload.len() > MAX_MESSAGE_BYTES || self.message.len() > MAX_MESSAGE_BYTES - payload.len() {
                return Err(WsError::MessageTooLarge);
            }
            append_bytes(&mut self.message, &payload);
            self.fragmented = Some(opcode);
            Ok(FrameAction::Continue)
        } else if opcode == 8 {
            Ok(FrameAction::Close(payload))
        } else if opcode == 9 {
            Ok(FrameAction::Pong(payload))
        } else if opcode == 10 {
            Ok(FrameAction::Continue)
        } else {
            Err(WsError::UnsupportedOpcode)
        }
    }
}

/// Appends `extra` to `v`.
pub fn append_bytes(v: &mut Vec<u8>, extra: &[u8])
    ensures
        final(v)@ == old(v)@ + extra@,
{
    let mut i: usize = 0;
    while i < extra.len()
        invariant
            i <= extra@.len(),
            v@ == old(v)@ + extra@.subrange(0, i as int),
        decreases extra.len() - i,
    {
        v.push(extra[i]);
        i = i + 1;
        assert(v@ =~= old(v)@ + extra@.subrange(0, i as int));
    }
    assert(extra@.subrange(0, extra@.len() as int) =~= extra@);
}

/// A complete message: text in UTF-8, else refused.
pub fn decode_message(opcode: u8, payload: Vec<u8>) -> (r: Result<FrameAction, WsError>)
    ensures
        match spec_decode_message(opcode, payload@) {
            Err(e) => r == Err::<FrameAction, WsError>(e),
            Ok(t) => r matches Ok(FrameAction::Text(s)) && s@ == decode_utf8(t),
        },
{
    if opcode != 1 {
        return Err(WsError::NonTextMessage);
    }
    let ghost bytes = payload@;
    match utf8_text(payload) {
        Some(s) => Ok(FrameAction::Text(s)),
        None => Err(WsError::InvalidUtf8),
    }
}

/// A message as byte sequences: UTF-8 text, or the peer's close.
pub enum SpecIncoming {
    Text(Seq<u8>),
    Closed,
}

/// A control frame the reader answers with: its opcode and payload.
#[derive(Debug)]
pub struct ControlReply {
    pub opcode: u8,
    pub payload: Vec<u8>,
}

pub open spec fn reply_view(r: ControlReply) -> (u8, Seq<u8>) {
    (r.opcode, r.payload@)
}

pub open spec fn replies_view(rs: Seq<ControlReply>) -> Seq<(u8, Seq<u8>)> {
    rs.map_values(|r: ControlReply| reply_view(r))
}

/// Prefixes the control replies of earlier frames and the bytes they took
/// to the outcome of reading on.
pub open spec fn after_frames(
    replies: Seq<(u8, Seq<u8>)>,
    used: nat,
    rest: Result<(SpecIncoming, Seq<(u8, Seq<u8>)>, nat), WsError>,
) -> Result<(SpecIncoming, Seq<(u8, Seq<u8>)>, nat), WsError> {
    match rest {
        Err(e) => Err(e),
        Ok((msg, rs, n)) => Ok((msg, replies + rs, used + n)),
    }
}

/// Reading one message from `b`, frame by frame, from the given reassembly
/// state: the message, the control frames sent in answer (a pong for each
/// ping, the echoed close), and the bytes used; or why the stream is refused.
pub open spec fn spec_read_message(b: Seq<u8>, fragmented: Option<u8>, message: Seq<u8>) -> Result<
    (SpecIncoming, Seq<(u8, Seq<u8>)>, nat),
    WsError,
>
    decreases b.len(),
{
    match spec_frame(b) {
        Err(e) => Err(e),
        Ok(None) => Err(WsError::UnexpectedEof),
        Ok(Some((fin, opcode, payload, n))) => {
            if n == 0 || n > b.len() {
                Err(WsError::UnexpectedEof)
            } else {
                match spec_assemble(fragmented, message, fin, opcode, payload) {
                    Err(e) => Err(e),
                    Ok((f, m, effect)) => match effect {
                        FrameEffect::Text(t) => Ok((SpecIncoming::Text(t), Seq::empty(), n)),
                        FrameEffect::Close(p) => Ok((SpecIncoming::Closed, seq![(8u8, p)], n)),
                        FrameEffect::Pong(p) => after_frames(
                            seq![(10u8, p)],
                            n,
                            spec_read_message(b.subrange(n as int, b.len() as int), f, m),
                        ),
                        FrameEffect::Continue => after_frames(
                            Seq::empty(),
                            n,
                            spec_read_message(b.subrange(n as int, b.len() as int), f, m),
                        ),
                    },
                }
            }
        },
    }
}

/// Reads one message from the start of `b`, answering control frames: gives
/// the message, the control frames to send back in order, and the number of
/// bytes used. Running out of bytes inside the message is `UnexpectedEof`.
pub fn read_message(b: &[u8]) -> (r: Result<(IncomingMessage, Vec<ControlReply>, usize), WsError>)
    ensures
        match (r, spec_read_message(b@, None, Seq::empty())) {
            (Err(e), Err(f)) => e == f,
            (Ok((msg, replies, used)), Ok((smsg, sreplies, n))) => used == n && replies_view(replies@)
                == sreplies && match (msg, smsg) {
                (IncomingMessage::Text(t), SpecIncoming::Text(bytes)) => t@ == decode_utf8(bytes),
                (IncomingMessage::Closed, SpecIncoming::Closed) => true,
                _ => false,
            },
            _ => false,
        },
{
    let mut assembler = MessageAssembler::new();
    let mut replies: Vec<ControlReply> = Vec::new();
    let mut pos: usize = 0;
    let n = b.len();
    assert(b@.subrange(0, n as int) =~= b@);
    assert(replies_view(replies@) =~= Seq::<(u8, Seq<u8>)>::empty());
    loop
        invariant
            pos <= n,
            n == b@.len(),
            spec_read_message(b@, None, Seq::empty()) == after_frames(
                replies_view(replies@),
                pos as nat,
                spec_read_message(b@.subrange(pos as int, n as int), assembler.fragmented, assembler.message@),
            ),
        decreases n - pos,
    {
        let rest = slice_from(b, pos);
        let ghost rb = b@.subrange(pos as int, n as int);
        assert(rest@ == rb);
        let parsed = parse_frame(&rest);
        let (frame, used) = match parsed {
            Err(e) => {
                return Err(e);
            },
            Ok(None) => {
                return Err(WsError::UnexpectedEof);
            },
            Ok(Some(x)) => x,
        };
        proof {
            let (fin, opcode, payload, k) = spec_frame(rb).unwrap().unwrap();
            assert(k >= 2);
        }
        let ghost next_b = rb.subrange(used as int, rb.len() as int);
        assert(next_b =~= b@.subrange(pos + used, n as int));
        let ghost before = replies_view(replies@);
        let ghost f0 = assembler.fragmented;
        let ghost m0 = assembler.message@;
        let ghost outcome = spec_read_message(b@.subrange(pos as int, n as int), f0, m0);
        match assembler.feed(frame) {
            Err(e) => {
                return Err(e);
            },
            Ok(FrameAction::Text(t)) => {
                return Ok((IncomingMessage::Text(t), replies, pos + used));
            },
            Ok(FrameAction::Close(p)) => {
                replies.push(ControlReply { opcode: 8, payload: p });
                assert(replies_view(replies@) =~= before + seq![(8u8, replies@.last().payload@)]);
                return Ok((IncomingMessage::Closed, replies, pos + used));
            },
            Ok(FrameAction::Pong(p)) => {
                replies.push(ControlReply { opcode: 10, payload: p });
                assert(replies_view(replies@) =~= before + seq![(10u8, replies@.last().payload@)]);
                proof {
                    let z = spec_read_message(next_b, assembler.fragmented, assembler.message@);
                    assert(outcome == after_frames(seq![(10u8, replies@.last().payload@)], used as nat, z));
                    lemma_after_frames_assoc(before, pos as nat, seq![(10u8, replies@.last().payload@)], used as nat, z);
                }
            },
            Ok(FrameAction::Continue) => {
                proof {
                    let z = spec_read_message(next_b, assembler.fragmented, assembler.message@);
                    assert(outcome == after_frames(Seq::empty(), used as nat, z));
                    lemma_after_frames_assoc(before, pos as nat, Seq::empty(), used as nat, z);
                    assert(before + Seq::<(u8, Seq<u8>)>::empty() =~= before);
                }
            },
        }
        pos = pos + used;
    }
}

proof fn lemma_after_frames_assoc(
    r: Seq<(u8, Seq<u8>)>,
    a: nat,
    x: Seq<(u8, Seq<u8>)>,
    b: nat,
    z: Result<(SpecIncoming, Seq<(u8, Seq<u8>)>, nat), WsError>,
)
    ensures
        after_frames(r, a, after_frames(x, b, z)) == after_frames(r + x, a + b, z),
{
    match z {
        Err(_) => {},
        Ok((m, rs, n)) => {
            assert(r + (x + rs) =~= (r + x) + rs);
        },
    }
}

/// A copy of `b[pos..]`.
pub fn slice_from(b: &[u8], pos: usize) -> (v: Vec<u8>)
    requires
        pos <= b@.len(),
    ensures
        v@ == b@.subrange(pos as int, b@.len() as int),
{
    copy_range(b, pos, b.len())
}

} // verus!
