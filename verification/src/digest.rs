//! Domain-separated SHA-256 digests in their `sha256:<hex>` text form.

use sha2::Digest as _;
use vstd::prelude::*;
use vstd::string::is_ascii_spec_bytes;

use crate::error::CoreError;
use crate::text::{chars_of, has_prefix_str, slice_chars, starts_with, string_of};

verus! {

// ---------------------------------------------------------------------------
// Trusted items: SHA-256 and hexadecimal coding
// ---------------------------------------------------------------------------

/// The SHA-256 digest of `data`, as `sha2::Sha256` computes it.
pub uninterp spec fn sha256(data: Seq<u8>) -> Seq<u8>;

/// `sha2::Sha256::digest`: the contract claims that the 32-byte output is the
/// SHA-256 digest of exactly the given bytes.
#[verifier::external_body]
fn sha256_bytes(data: &[u8]) -> (out: Vec<u8>)
    ensures
        out@ == sha256(data@),
        out@.len() == 32,
{
    sha2::Sha256::digest(data).to_vec()
}

pub open spec fn hex_digit(v: nat) -> char {
    if v < 10 {
        (48 + v) as char
    } else {
        (87 + v) as char
    }
}

/// Lowercase hexadecimal text of `data`, two characters per byte.
pub open spec fn hex_lower(data: Seq<u8>) -> Seq<char>
    decreases data.len(),
{
    if data.len() == 0 {
        Seq::<char>::empty()
    } else {
        hex_lower(data.drop_last()) + seq![
            hex_digit((data.last() / 16) as nat),
            hex_digit((data.last() % 16) as nat),
        ]
    }
}

/// `hex::encode`: the contract claims the lowercase two-characters-per-byte
/// encoding, most significant nibble first.
#[verifier::external_body]
fn hex_encode(data: &[u8]) -> (out: String)
    ensures
        out@ == hex_lower(data@),
{
    hex::encode(data)
}

#[verifier::external_type_specification]
#[verifier::external_body]
pub struct ExFromHexError(hex::FromHexError);

pub open spec fn is_hex_byte(b: u8) -> bool {
    (48 <= b && b <= 57) || (65 <= b && b <= 70) || (97 <= b && b <= 102)
}

pub open spec fn hex_byte_value(b: u8) -> nat {
    if 48 <= b && b <= 57 {
        (b - 48) as nat
    } else if 65 <= b && b <= 70 {
        (b - 55) as nat
    } else {
        (b - 87) as nat
    }
}

pub open spec fn hex_decodes(s: Seq<u8>) -> bool {
    s.len() % 2 == 0 && forall|i: int| 0 <= i < s.len() ==> is_hex_byte(#[trigger] s[i])
}

pub open spec fn hex_decoded(s: Seq<u8>) -> Seq<u8> {
    Seq::new(
        s.len() / 2,
        |i: int| (hex_byte_value(s[2 * i]) * 16 + hex_byte_value(s[2 * i + 1])) as u8,
    )
}

/// `hex::decode`: the contract claims success exactly for even-length input
/// made of hexadecimal digits of either case, and the decoded bytes then.
#[verifier::external_body]
fn hex_decode(data: &[u8]) -> (r: Result<Vec<u8>, hex::FromHexError>)
    ensures
        r is Ok <==> hex_decodes(data@),
        r matches Ok(v) ==> v@ == hex_decoded(data@),
{
    hex::decode(data)
}

// ---------------------------------------------------------------------------
// Framing
// ---------------------------------------------------------------------------

/// The eight big-endian bytes of `n`.
pub open spec fn be_u64(n: nat) -> Seq<u8> {
    seq![
        ((n / 0x100000000000000) % 256) as u8,
        ((n / 0x1000000000000) % 256) as u8,
        ((n / 0x10000000000) % 256) as u8,
        ((n / 0x100000000) % 256) as u8,
        ((n / 0x1000000) % 256) as u8,
        ((n / 0x10000) % 256) as u8,
        ((n / 0x100) % 256) as u8,
        (n % 256) as u8,
    ]
}

/// `b"reposeal\0"`.
pub open spec fn frame_tag() -> Seq<u8> {
    seq![114u8, 101u8, 112u8, 111u8, 115u8, 101u8, 97u8, 108u8, 0u8]
}

/// The exact bytes hashed for `domain` and `payload`: a fixed tag, then each
/// part preceded by its big-endian 64-bit length.
pub open spec fn frame(domain: Seq<u8>, payload: Seq<u8>) -> Seq<u8> {
    frame_tag() + be_u64(domain.len()) + domain + be_u64(payload.len()) + payload
}

/// `sha256:` followed by the lowercase hex of the framed SHA-256.
pub open spec fn domain_digest(domain: Seq<u8>, payload: Seq<u8>) -> Seq<char> {
    "sha256:"@ + hex_lower(sha256(frame(domain, payload)))
}

fn push_be_u64(out: &mut Vec<u8>, n: u64)
    ensures
        final(out)@ == old(out)@ + be_u64(n as nat),
{
    out.push(((n / 0x100000000000000) % 256) as u8);
    out.push(((n / 0x1000000000000) % 256) as u8);
    out.push(((n / 0x10000000000) % 256) as u8);
    out.push(((n / 0x100000000) % 256) as u8);
    out.push(((n / 0x1000000) % 256) as u8);
    out.push(((n / 0x10000) % 256) as u8);
    out.push(((n / 0x100) % 256) as u8);
    out.push((n % 256) as u8);
    proof {
        assert(final(out)@ =~= old(out)@ + be_u64(n as nat));
    }
}

fn push_bytes(out: &mut Vec<u8>, data: &[u8])
    ensures
        final(out)@ == old(out)@ + data@,
{
    let mut k: usize = 0;
    while k < data.len()
        invariant
            k <= data.len(),
            out@ == old(out)@ + data@.take(k as int),
        decreases data.len() - k,
    {
        out.push(data[k]);
        proof {
            assert(data@.take(k + 1) == data@.take(k as int).push(data@[k as int]));
        }
        k += 1;
    }
    proof {
        assert(data@.take(data.len() as int) == data@);
    }
}

pub fn frame_bytes(domain: &[u8], payload: &[u8]) -> (out: Vec<u8>)
    ensures
        out@ == frame(domain@, payload@),
{
    let mut out: Vec<u8> = Vec::new();
    out.push(114u8);
    out.push(101u8);
    out.push(112u8);
    out.push(111u8);
    out.push(115u8);
    out.push(101u8);
    out.push(97u8);
    out.push(108u8);
    out.push(0u8);
    proof {
        assert(out@ =~= frame_tag());
    }
    push_be_u64(&mut out, domain.len() as u64);
    push_bytes(&mut out, domain);
    push_be_u64(&mut out, payload.len() as u64);
    push_bytes(&mut out, payload);
    out
}

// ---------------------------------------------------------------------------
// Digest values
// ---------------------------------------------------------------------------

/// A lowercase SHA-256 value with an explicit algorithm prefix.
#[derive(Clone, Debug, PartialEq, Eq, Hash, PartialOrd, Ord)]
pub struct Sha256Digest(String);

impl View for Sha256Digest {
    type V = Seq<char>;

    closed spec fn view(&self) -> Seq<char> {
        self.0@
    }
}

pub open spec fn is_lower_hex_char(c: char) -> bool {
    ('0' <= c && c <= '9') || ('a' <= c && c <= 'f')
}

/// The accepted text form: `sha256:` and 64 lowercase hexadecimal digits.
pub open spec fn valid_digest_text(s: Seq<char>) -> bool {
    &&& starts_with(s, "sha256:"@)
    &&& s.len() == 71
    &&& forall|i: int| 7 <= i < 71 ==> is_lower_hex_char(#[trigger] s[i])
}

impl Sha256Digest {
    /// Hashes a domain-separated byte sequence.
    pub fn domain(domain: &[u8], payload: &[u8]) -> (d: Self)
        ensures
            d@ == domain_digest(domain@, payload@),
            valid_digest_text(d@),
    {
        let framed = frame_bytes(domain, payload);
        let hash = sha256_bytes(framed.as_slice());
        let hex = hex_encode(hash.as_slice());
        let mut text = String::from_str("sha256:");
        proof {
            reveal_strlit("sha256:");
        }
        text.append(hex.as_str());
        proof {
            lemma_hex_lower_shape(hash@);
        }
        Sha256Digest(text)
    }

    /// Parses a prefixed 32-byte digest.
    pub fn parse(value: &str) -> (r: Result<Self, CoreError>)
        ensures
            r is Ok <==> valid_digest_text(value@),
            r matches Ok(d) ==> d@ == value@,
            r matches Err(e) ==> e == CoreError::InvalidDigest,
    {
        let chars = chars_of(value);
        if !has_prefix_str(chars.as_slice(), "sha256:") {
            return Err(CoreError::InvalidDigest);
        }
        proof {
            reveal_strlit("sha256:");
        }
        let rest = slice_chars(chars.as_slice(), 7, chars.len());
        let mut i: usize = 0;
        while i < rest.len()
            invariant
                i <= rest.len(),
                chars@ == value@,
                chars@.len() >= 7,
                rest@ == value@.subrange(7, value@.len() as int),
                forall|k: int| 0 <= k < i ==> is_lower_hex_char(#[trigger] rest@[k]),
            decreases rest.len() - i,
        {
            let c = rest[i];
            if !(('0' <= c && c <= '9') || ('a' <= c && c <= 'f')) {
                proof {
                    assert(rest@[i as int] == value@[7 + i]);
                    assert(!is_lower_hex_char(value@[7 + i]));
                }
                return Err(CoreError::InvalidDigest);
            }
            i += 1;
        }
        let rest_text = string_of(rest.as_slice());
        let rest_str = rest_text.as_str();
        proof {
            assert(vstd::string::is_ascii(rest_str)) by {
                assert forall|k: int| 0 <= k < rest_str@.len() implies (rest_str@[k] as u32)
                    < 128 by {
                    assert(is_lower_hex_char(rest@[k]));
                }
            }
            broadcast use is_ascii_spec_bytes;
        }
        let bytes = rest_str.as_bytes();
        proof {
            broadcast use is_ascii_spec_bytes;

            assert forall|k: int| 0 <= k < bytes@.len() implies is_hex_byte(#[trigger] bytes@[k]) by {
                assert(bytes@[k] == rest@[k] as u8);
                assert(is_lower_hex_char(rest@[k]));
            }
        }
        if rest.len() % 2 != 0 {
            return Err(CoreError::InvalidDigest);
        }
        match hex_decode(bytes) {
            Ok(decoded) => {
                if decoded.len() != 32 {
                    return Err(CoreError::InvalidDigest);
                }
                proof {
                    assert(value@ =~= "sha256:"@ + rest@);
                }
                Ok(Sha256Digest(String::from_str(value)))
            },
            Err(_) => Err(CoreError::InvalidDigest),
        }
    }

    /// Returns the stable textual representation.
    pub fn as_str(&self) -> (s: &str)
        ensures
            s@ == self@,
    {
        self.0.as_str()
    }

    /// A copy of this digest.
    pub fn duplicate(&self) -> (d: Sha256Digest)
        ensures
            d@ == self@,
    {
        Sha256Digest(self.0.clone())
    }

    /// Whether two digests are the same value.
    pub fn same_as(&self, other: &Sha256Digest) -> (r: bool)
        ensures
            r == (self@ == other@),
    {
        self.0 == other.0
    }
}

proof fn lemma_hex_lower_shape(data: Seq<u8>)
    requires
        data.len() == 32,
    ensures
        valid_digest_text("sha256:"@ + hex_lower(data)),
{
    reveal_strlit("sha256:");
    lemma_hex_lower_chars(data);
    let s = "sha256:"@ + hex_lower(data);
    assert(s.take(7) =~= "sha256:"@);
    assert forall|i: int| 7 <= i < 71 implies is_lower_hex_char(#[trigger] s[i]) by {
        assert(s[i] == hex_lower(data)[i - 7]);
    }
}

proof fn lemma_hex_lower_chars(data: Seq<u8>)
    ensures
        hex_lower(data).len() == 2 * data.len(),
        forall|i: int| 0 <= i < hex_lower(data).len() ==> is_lower_hex_char(#[trigger] hex_lower(data)[i]),
    decreases data.len(),
{
    if data.len() > 0 {
        lemma_hex_lower_chars(data.drop_last());
        let h = hex_lower(data);
        let p = hex_lower(data.drop_last());
        assert forall|i: int| 0 <= i < h.len() implies is_lower_hex_char(#[trigger] h[i]) by {
            if i < p.len() {
                assert(h[i] == p[i]);
            }
        }
    }
}

/// The bytes of an ASCII text.
pub open spec fn ascii_seq(s: Seq<char>) -> Seq<u8> {
    Seq::new(s.len(), |i: int| s[i] as u8)
}

/// The bytes of an ASCII literal.
pub fn ascii_bytes(s: &str) -> (out: Vec<u8>)
    requires
        vstd::string::is_ascii(s),
    ensures
        out@ == ascii_seq(s@),
{
    proof {
        broadcast use vstd::string::is_ascii_spec_bytes;
    }
    let b = s.as_bytes();
    let v = vstd::slice::slice_to_vec(b);
    proof {
        assert(v@ =~= ascii_seq(s@));
    }
    v
}

} // verus!
