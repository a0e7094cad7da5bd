//! Signed requests: a timestamp, a method and a path, signed with RSA-PSS over SHA-256.
use vstd::prelude::*;
use crate::numeral;
use crate::numeral::i64_text;
use crate::text::joined;

use base64::Engine;
use rsa::pkcs1::DecodeRsaPrivateKey;
use rsa::pkcs8::DecodePrivateKey;
use rsa::signature::{RandomizedSigner, SignatureEncoding};

verus! {

/// An RSA private key of the `rsa` crate.
#[verifier::external_type_specification]
#[verifier::external_body]
pub struct ExRsaPrivateKey(rsa::RsaPrivateKey);

/// The key that a PKCS#8 text holds.
pub uninterp spec fn pkcs8_key(pem: Seq<char>) -> Option<rsa::RsaPrivateKey>;

/// The key that a PKCS#1 text holds.
pub uninterp spec fn pkcs1_key(pem: Seq<char>) -> Option<rsa::RsaPrivateKey>;

/// The signature that `rsa::pss::SigningKey::<Sha256>` of this key, without its precomputed
/// values, gives a message under a salt; nothing where it gives none.
pub uninterp spec fn pss_signature(
    key: rsa::RsaPrivateKey,
    msg: Seq<char>,
    salt: [u8; 32],
) -> Option<Seq<u8>>;

/// The bytes of a signature that may be missing.
pub open spec fn bytes_of(r: Option<Vec<u8>>) -> Option<Seq<u8>> {
    match r {
        Some(b) => Some(b@),
        None => None,
    }
}

/// `RsaPrivateKey::from_pkcs8_pem`: the key, where the text holds one. What it reads is a
/// function of the text alone.
#[verifier::external_body]
fn read_pkcs8(pem: &str) -> (r: Option<rsa::RsaPrivateKey>)
    ensures
        r == pkcs8_key(pem@),
{
    rsa::RsaPrivateKey::from_pkcs8_pem(pem).ok()
}

/// `RsaPrivateKey::from_pkcs1_pem`: the key, where the text holds one. What it reads is a
/// function of the text alone.
#[verifier::external_body]
fn read_pkcs1(pem: &str) -> (r: Option<rsa::RsaPrivateKey>)
    ensures
        r == pkcs1_key(pem@),
{
    rsa::RsaPrivateKey::from_pkcs1_pem(pem).ok()
}

/// `rsa::pss::SigningKey::<Sha256>::try_sign_with_rng` with the system's random numbers, on
/// the bytes of a text. It draws a salt as long as the digest; what follows is a function of
/// the key, the text and that salt, whether a signature comes back and which one. The key's
/// precomputed values are cleared first (`RsaPrivateKey::clear_precomputed`), so that the
/// message is raised to the private exponent outright: with them, the call would add a factor
/// until a difference is no longer negative, which for a small factor beside a large one does
/// not end. Which salt is drawn is not said, nor for which keys a signature comes back: one
/// whose modulus is too short for the digest and the salt gives none, and that a key's factors
/// are prime is not checked when it is read. Where the system has no random numbers to give,
/// the call panics.
#[verifier::external_body]
fn sign_text(key: &rsa::RsaPrivateKey, msg: &str) -> (r: Option<Vec<u8>>)
    ensures
        exists|salt: [u8; 32]| bytes_of(r) == #[trigger] pss_signature(*key, msg@, salt),
{
    let mut rng = rand::rngs::OsRng;
    let mut plain = key.clone();
    plain.clear_precomputed();
    rsa::pss::SigningKey::<sha2::Sha256>::new(plain)
        .try_sign_with_rng(&mut rng, msg.as_bytes())
        .ok()
        .map(|s| s.to_vec())
}

/// The `i`-th character of the base64 alphabet.
pub open spec fn base64_char(i: int) -> char {
    if i < 26 {
        (65 + i) as char
    } else if i < 52 {
        (97 + i - 26) as char
    } else if i < 62 {
        (48 + i - 52) as char
    } else if i == 62 {
        '+'
    } else {
        '/'
    }
}

/// Bytes in base64: four characters for three bytes, the last group padded with `=`.
pub open spec fn base64_text(b: Seq<u8>) -> Seq<char>
    decreases b.len(),
{
    if b.len() == 0 {
        Seq::empty()
    } else if b.len() == 1 {
        seq![base64_char(b[0] as int / 4), base64_char(b[0] as int % 4 * 16), '=', '=']
    } else if b.len() == 2 {
        seq![
            base64_char(b[0] as int / 4),
            base64_char(b[0] as int % 4 * 16 + b[1] as int / 16),
            base64_char(b[1] as int % 16 * 4),
            '=',
        ]
    } else {
        seq![
            base64_char(b[0] as int / 4),
            base64_char(b[0] as int % 4 * 16 + b[1] as int / 16),
            base64_char(b[1] as int % 16 * 4 + b[2] as int / 64),
            base64_char(b[2] as int % 64),
        ] + base64_text(b.skip(3))
    }
}

/// `Engine::encode` of the standard base64 engine. It panics where the text would be longer
/// than any string, so long inputs are left out.
#[verifier::external_body]
fn encode64(b: &Vec<u8>) -> (r: String)
    requires
        b@.len() <= 0x1000_0000,
    ensures
        r@ == base64_text(b@),
{
    base64::engine::general_purpose::STANDARD.encode(b)
}

/// A signer for one account.
pub struct Signer {
    key_id: String,
    key: rsa::RsaPrivateKey,
}

/// The key that a text holds: in PKCS#8, or else in PKCS#1.
pub open spec fn key_in(pem: Seq<char>) -> Option<rsa::RsaPrivateKey> {
    match pkcs8_key(pem) {
        Some(k) => Some(k),
        None => pkcs1_key(pem),
    }
}

/// The text that is signed for a request.
pub open spec fn signed_text(method: Seq<char>, path: Seq<char>, ts_ms: i64) -> Seq<char> {
    numeral::int_text(ts_ms as int) + method + path
}

/// What goes with a request under a signature: the timestamp as text, and the signature in
/// base64. Without a signature there is nothing, nor with one that is too long to encode.
pub open spec fn credentials_of(ts_ms: i64, sig: Option<Seq<u8>>) -> Option<(Seq<char>, Seq<char>)> {
    match sig {
        Some(b) => if b.len() <= 0x1000_0000 {
            Some((numeral::int_text(ts_ms as int), base64_text(b)))
        } else {
            None
        },
        None => None,
    }
}

/// The texts of a pair that may be missing.
pub open spec fn texts_of(r: Option<(String, String)>) -> Option<(Seq<char>, Seq<char>)> {
    match r {
        Some((ts, sig)) => Some((ts@, sig@)),
        None => None,
    }
}

/// What goes with a signed request: the timestamp as text, and the signature in base64. A
/// signature that no key gives, for its length, makes none.
pub fn credentials(ts_ms: i64, sig: &Vec<u8>) -> (r: Option<(String, String)>)
    ensures
        texts_of(r) == credentials_of(ts_ms, Some(sig@)),
{
    if sig.len() > 0x1000_0000 {
        return None;
    }
    Some((i64_text(ts_ms), encode64(sig)))
}

impl Signer {
    /// The key.
    pub closed spec fn key_of(&self) -> rsa::RsaPrivateKey {
        self.key
    }

    /// The id of the key.
    pub closed spec fn id(&self) -> Seq<char> {
        self.key_id@
    }

    /// A signer with the key that a PEM text holds.
    pub fn load(key_id: &str, pem: &str) -> (r: Option<Signer>)
        ensures
            match r {
                Some(s) => s.id() == key_id@ && key_in(pem@) == Some(s.key_of()),
                None => key_in(pem@) is None,
            },
    {
        let found = match read_pkcs8(pem) {
            Some(k) => Some(k),
            None => read_pkcs1(pem),
        };
        match found {
            Some(key) => Some(Signer { key_id: key_id.to_string(), key }),
            None => None,
        }
    }

    /// The id of the key.
    pub fn key_id(&self) -> (r: &str)
        ensures
            r@ == self.id(),
    {
        self.key_id.as_str()
    }

    /// Signs a request: the timestamp as text, and the signature in base64. What comes back
    /// is what the key's signature under a fresh salt makes of it: nothing only where the key
    /// gives no signature under that salt, or one that is too long to encode.
    pub fn sign(&self, method: &str, path: &str, ts_ms: i64) -> (r: Option<(String, String)>)
        ensures
            ({
                let msg = signed_text(method@, path@, ts_ms);
                exists|salt: [u8; 32]|
                    texts_of(r) == credentials_of(
                        ts_ms,
                        #[trigger] pss_signature(self.key_of(), msg, salt),
                    )
            }),
    {
        let ts = i64_text(ts_ms);
        let head = joined(ts.as_str(), method);
        let msg = joined(head.as_str(), path);
        let ghost text = signed_text(method@, path@, ts_ms);
        assert(msg@ == text);
        let sig = sign_text(&self.key, msg.as_str());
        let ghost salt = choose|salt: [u8; 32]|
            bytes_of(sig) == #[trigger] pss_signature(self.key_of(), text, salt);
        assert(bytes_of(sig) == pss_signature(self.key_of(), text, salt));
        match sig {
            Some(b) => credentials(ts_ms, &b),
            None => None,
        }
    }
}

/// What is signed is the time, then the method, then the path.
pub proof fn law_what_is_signed(method: Seq<char>, path: Seq<char>, ts_ms: i64)
    ensures
        ({
            let t = numeral::int_text(ts_ms as int);
            let s = signed_text(method, path, ts_ms);
            &&& s.len() == t.len() + method.len() + path.len()
            &&& s.take(t.len() as int) == t
            &&& s.subrange(t.len() as int, (t.len() + method.len()) as int) == method
            &&& s.skip((t.len() + method.len()) as int) == path
        }),
{
    let t = numeral::int_text(ts_ms as int);
    let s = signed_text(method, path, ts_ms);
    assert(s.take(t.len() as int) =~= t);
    assert(s.subrange(t.len() as int, (t.len() + method.len()) as int) =~= method);
    assert(s.skip((t.len() + method.len()) as int) =~= path);
}

/// Four characters of base64 hold the bits of three bytes: read as digits to the base 64 they
/// are the number that the bytes are to the base 256.
pub proof fn law_base64_holds_the_bits(b: Seq<u8>, p: int, q: int, r: int, s: int)
    requires
        b.len() == 3,
        0 <= p < 64 && 0 <= q < 64 && 0 <= r < 64 && 0 <= s < 64,
        base64_text(b) == seq![base64_char(p), base64_char(q), base64_char(r), base64_char(s)],
    ensures
        p * 262_144 + q * 4_096 + r * 64 + s == b[0] * 65_536 + b[1] * 256 + b[2],
{
    let t = base64_text(b);
    let i = b[0] as int / 4;
    let j = b[0] as int % 4 * 16 + b[1] as int / 16;
    let k = b[1] as int % 16 * 4 + b[2] as int / 64;
    let l = b[2] as int % 64;
    assert(t[0] == base64_char(i) && t[1] == base64_char(j) && t[2] == base64_char(k) && t[3]
        == base64_char(l));
    law_base64_digits_differ(p, i);
    law_base64_digits_differ(q, j);
    law_base64_digits_differ(r, k);
    law_base64_digits_differ(s, l);
}

/// No two digits of base64 have one character, and none has that of the padding.
pub proof fn law_base64_digits_differ(i: int, j: int)
    requires
        0 <= i < 64,
        0 <= j < 64,
    ensures
        base64_char(i) == base64_char(j) ==> i == j,
        base64_char(i) != '=',
{
}

/// Base64 has four characters for every three bytes or part of them.
pub proof fn law_base64_is_a_third_longer(b: Seq<u8>)
    ensures
        base64_text(b).len() == (b.len() as int + 2) / 3 * 4,
    decreases b.len(),
{
    if b.len() > 2 {
        law_base64_is_a_third_longer(b.skip(3));
    }
}

/// Credentials are the time that was signed and the signature; without a signature there are
/// none.
pub proof fn law_credentials_carry_the_signature(ts_ms: i64, sig: Seq<u8>)
    requires
        sig.len() <= 0x1000_0000,
    ensures
        credentials_of(ts_ms, Some(sig)) matches Some(c) && c.0 == numeral::int_text(ts_ms as int)
            && c.1 == base64_text(sig),
        credentials_of(ts_ms, None) is None,
{
}

} // verus!
