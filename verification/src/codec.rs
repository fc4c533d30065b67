//! Text encodings of bytes: lowercase hexadecimal (its decoding is the one
//! `u8::from_str_radix(.., 16)` gives pair by pair), standard base64, and
//! the SHA-1 digest that the WebSocket handshake encodes.
use vstd::prelude::*;
use base64::Engine;
use sha1::Digest;
use crate::text::string_from_chars;

verus! {

/// The lowercase hexadecimal digit for `v < 16`.
pub open spec fn hex_digit(v: nat) -> char {
    if v < 10 {
        (48 + v) as char
    } else {
        (87 + v) as char
    }
}

/// Two lowercase hexadecimal digits per byte, high nibble first (`{:02x}`).
pub open spec fn hex_chars(s: Seq<u8>) -> Seq<char>
    decreases s.len(),
{
    if s.len() == 0 {
        Seq::empty()
    } else {
        hex_chars(s.drop_last()) + seq![hex_digit(s.last() as nat / 16), hex_digit(s.last() as nat % 16)]
    }
}

/// The value of one hexadecimal digit, either case.
pub open spec fn hex_value(c: char) -> Option<nat> {
    let u = c as u32;
    if 48 <= u && u <= 57 {
        Some((u - 48) as nat)
    } else if 97 <= u && u <= 102 {
        Some((u - 87) as nat)
    } else if 65 <= u && u <= 70 {
        Some((u - 55) as nat)
    } else {
        None
    }
}

/// `u8::from_str_radix(pair, 16)` for a two-character string: two digits,
/// or `+` and one digit.
pub open spec fn hex_pair(a: char, b: char) -> Option<u8> {
    if a == '+' {
        match hex_value(b) {
            Some(y) => Some(y as u8),
            None => None,
        }
    } else {
        match (hex_value(a), hex_value(b)) {
            (Some(x), Some(y)) => Some((16 * x + y) as u8),
            _ => None,
        }
    }
}

/// Decoding an even-length text pair by pair; `None` if a pair is refused.
pub open spec fn hex_decode_spec(s: Seq<char>) -> Option<Seq<u8>>
    decreases s.len(),
{
    if s.len() < 2 {
        if s.len() == 0 {
            Some(Seq::empty())
        } else {
            None
        }
    } else {
        match (hex_decode_spec(s.subrange(0, s.len() - 2)), hex_pair(s[s.len() - 2], s[s.len() - 1])) {
            (Some(prefix), Some(byte)) => Some(prefix.push(byte)),
            _ => None,
        }
    }
}

pub fn hex_digit_exec(v: u8) -> (c: char)
    requires
        v < 16,
    ensures
        c == hex_digit(v as nat),
{
    if v < 10 {
        (48 + v) as char
    } else {
        (87 + v) as char
    }
}

pub proof fn lemma_hex_chars_len(s: Seq<u8>)
    ensures
        hex_chars(s).len() == 2 * s.len(),
    decreases s.len(),
{
    if s.len() > 0 {
        lemma_hex_chars_len(s.drop_last());
    }
}

/// The lowercase hexadecimal text of `bytes`, as characters.
pub fn hex_encode_chars(bytes: &[u8]) -> (v: Vec<char>)
    ensures
        v@ == hex_chars(bytes@),
{
    let mut v: Vec<char> = Vec::new();
    let mut i: usize = 0;
    while i < bytes.len()
        invariant
            i <= bytes@.len(),
            v@ == hex_chars(bytes@.subrange(0, i as int)),
        decreases bytes.len() - i,
    {
        let b = bytes[i];
        v.push(hex_digit_exec(b / 16));
        v.push(hex_digit_exec(b % 16));
        proof {
            let t = bytes@.subrange(0, i + 1);
            assert(t.drop_last() =~= bytes@.subrange(0, i as int));
        }
        i = i + 1;
        assert(v@ =~= hex_chars(bytes@.subrange(0, i as int)));
    }
    assert(bytes@.subrange(0, bytes@.len() as int) =~= bytes@);
    v
}

/// The lowercase hexadecimal text of `bytes`.
pub fn hex_encode(bytes: &[u8]) -> (s: String)
    ensures
        s@ == hex_chars(bytes@),
        s@.len() == 2 * bytes@.len(),
{
    proof {
        lemma_hex_chars_len(bytes@);
    }
    let v = hex_encode_chars(bytes);
    string_from_chars(v.as_slice())
}

pub fn hex_value_exec(c: char) -> (r: Option<u8>)
    ensures
        match (r, hex_value(c)) {
            (Some(x), Some(y)) => x as nat == y,
            (None, None) => true,
            _ => false,
        },
{
    let u = c as u32;
    if 48 <= u && u <= 57 {
        Some((u - 48) as u8)
    } else if 97 <= u && u <= 102 {
        Some((u - 87) as u8)
    } else if 65 <= u && u <= 70 {
        Some((u - 55) as u8)
    } else {
        None
    }
}

pub fn hex_pair_exec(a: char, b: char) -> (r: Option<u8>)
    ensures
        r == hex_pair(a, b),
{
    if a == '+' {
        match hex_value_exec(b) {
            Some(y) => Some(y),
            None => None,
        }
    } else {
        match (hex_value_exec(a), hex_value_exec(b)) {
            (Some(x), Some(y)) => Some(16 * x + y),
            _ => None,
        }
    }
}

/// Decodes hexadecimal text pair by pair; `None` for an odd length or a refused pair.
pub fn hex_decode(s: &[char]) -> (r: Option<Vec<u8>>)
    ensures
        match (r, hex_decode_spec(s@)) {
            (Some(v), Some(w)) => v@ == w,
            (None, None) => true,
            _ => false,
        },
{
    let n = s.len();
    if n % 2 != 0 {
        proof {
            lemma_hex_decode_odd(s@);
        }
        return None;
    }
    let mut out: Vec<u8> = Vec::new();
    let mut i: usize = 0;
    while i < n
        invariant
            i <= n,
            n == s@.len(),
            n % 2 == 0,
            i % 2 == 0,
            hex_decode_spec(s@.subrange(0, i as int)) == Some(out@),
        decreases n - i,
    {
        let pair = hex_pair_exec(s[i], s[i + 1]);
        proof {
            let t = s@.subrange(0, i + 2);
            assert(t.subrange(0, t.len() - 2) =~= s@.subrange(0, i as int));
            assert(t[t.len() - 2] == s@[i as int]);
            assert(t[t.len() - 1] == s@[i + 1]);
        }
        match pair {
            None => {
                proof {
                    lemma_hex_decode_prefix_none(s@, i + 2);
                }
                return None;
            },
            Some(b) => {
                out.push(b);
            },
        }
        i = i + 2;
    }
    assert(s@.subrange(0, n as int) =~= s@);
    Some(out)
}

proof fn lemma_hex_decode_odd(s: Seq<char>)
    requires
        s.len() % 2 == 1,
    ensures
        hex_decode_spec(s) is None,
    decreases s.len(),
{
    if s.len() >= 2 {
        lemma_hex_decode_odd(s.subrange(0, s.len() - 2));
    }
}

/// Once a prefix of even length is refused, so is every longer text.
proof fn lemma_hex_decode_prefix_none(s: Seq<char>, k: int)
    requires
        0 <= k <= s.len(),
        k % 2 == 0,
        s.len() % 2 == 0,
        hex_decode_spec(s.subrange(0, k)) is None,
    ensures
        hex_decode_spec(s) is None,
    decreases s.len() - k,
{
    if k == s.len() {
        assert(s.subrange(0, k) =~= s);
    } else {
        let t = s.subrange(0, k + 2);
        assert(t.subrange(0, t.len() - 2) =~= s.subrange(0, k));
        lemma_hex_decode_prefix_none(s, k + 2);
    }
}

/// Decoding the hexadecimal text of some bytes gives those bytes back.
pub proof fn lemma_hex_roundtrip(b: Seq<u8>)
    ensures
        hex_decode_spec(hex_chars(b)) == Some(b),
    decreases b.len(),
{
    if b.len() > 0 {
        lemma_hex_roundtrip(b.drop_last());
        lemma_hex_chars_len(b.drop_last());
        let h = hex_chars(b);
        let x = b.last();
        assert(h.subrange(0, h.len() - 2) =~= hex_chars(b.drop_last()));
        let hi = x as nat / 16;
        let lo = x as nat % 16;
        assert(hex_value(hex_digit(hi)) == Some(hi));
        assert(hex_value(hex_digit(lo)) == Some(lo));
        assert(hex_digit(hi) != '+');
        assert((16 * hi + lo) as u8 == x);
        assert(b.drop_last().push(x) =~= b);
    }
}

/// Every character of a hexadecimal encoding is a lowercase hexadecimal digit.
pub proof fn lemma_hex_chars_are_digits(b: Seq<u8>)
    ensures
        forall|k: int| 0 <= k < hex_chars(b).len() ==> hex_value(#[trigger] hex_chars(b)[k]) is Some,
    decreases b.len(),
{
    if b.len() > 0 {
        lemma_hex_chars_are_digits(b.drop_last());
        lemma_hex_chars_len(b.drop_last());
        let x = b.last();
        assert(hex_value(hex_digit(x as nat / 16)) is Some);
        assert(hex_value(hex_digit(x as nat % 16)) is Some);
    }
}

/// The base64 alphabet of RFC 4648 (standard, with `+` and `/`).
pub open spec fn b64_char(v: nat) -> char {
    if v < 26 {
        (65 + v) as char
    } else if v < 52 {
        (71 + v) as char
    } else if v < 62 {
        (v - 4) as char
    } else if v == 62 {
        '+'
    } else {
        '/'
    }
}

/// Standard base64 with `=` padding, three bytes to four characters.
pub open spec fn base64_standard(s: Seq<u8>) -> Seq<char>
    decreases s.len(),
{
    if s.len() == 0 {
        Seq::empty()
    } else if s.len() == 1 {
        seq![b64_char(s[0] as nat / 4), b64_char((s[0] as nat % 4) * 16), '=', '=']
    } else if s.len() == 2 {
        seq![
            b64_char(s[0] as nat / 4),
            b64_char((s[0] as nat % 4) * 16 + s[1] as nat / 16),
            b64_char((s[1] as nat % 16) * 4),
            '=',
        ]
    } else {
        seq![
            b64_char(s[0] as nat / 4),
            b64_char((s[0] as nat % 4) * 16 + s[1] as nat / 16),
            b64_char((s[1] as nat % 16) * 4 + s[2] as nat / 64),
            b64_char(s[2] as nat % 64),
        ] + base64_standard(s.subrange(3, s.len() as int))
    }
}

/// `base64::engine::general_purpose::STANDARD.encode`: standard alphabet, padded.
#[verifier::external_body]
pub(crate) fn base64_encode(data: &[u8]) -> (s: String)
    ensures
        s@ == base64_standard(data@),
{
    base64::engine::general_purpose::STANDARD.encode(data)
}

/// The SHA-1 digest of a byte sequence.
pub uninterp spec fn spec_sha1(data: Seq<u8>) -> Seq<u8>;

/// `sha1::Sha1::digest`: the 20-byte SHA-1 digest of `data`.
#[verifier::external_body]
pub(crate) fn sha1_digest(data: &[u8]) -> (d: Vec<u8>)
    ensures
        d@ == spec_sha1(data@),
        d@.len() == 20,
{
    sha1::Sha1::digest(data).to_vec()
}

} // verus!
