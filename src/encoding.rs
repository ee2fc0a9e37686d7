use data_encoding::BASE32_NOPAD;
use ed25519_dalek::{Keypair, Signer};
use rand::rngs::OsRng;
use sha2::{Digest, Sha256};
use vstd::prelude::*;

verus! {

#[verifier::external_type_specification]
#[verifier::external_body]
pub struct ExKeypair(Keypair);

/// The SHA-256 digest of a byte sequence.
pub uninterp spec fn sha256_of(data: Seq<u8>) -> Seq<u8>;

/// The RFC 4648 base32 text of a byte sequence, without padding.
pub uninterp spec fn base32_of(data: Seq<u8>) -> Seq<char>;

/// Whether a text decodes as RFC 4648 base32 without padding.
pub uninterp spec fn base32_decodes(text: Seq<char>) -> bool;

/// Whether 64 bytes, secret key then public key, form an Ed25519 key pair.
pub uninterp spec fn keypair_parses(keypair: Seq<u8>) -> bool;

/// The Ed25519 signature made with a key pair, given as its 64 bytes, over a message.
pub uninterp spec fn ed25519_signature_of(keypair: Seq<u8>, message: Seq<u8>) -> Seq<u8>;

/// Number of base32 characters that encode `n` bytes without padding.
pub open spec fn base32_len(n: nat) -> nat {
    (8 * n + 4) / 5
}

/// Decimal digits of a natural number, most significant first.
pub open spec fn decimal_of(n: nat) -> Seq<char>
    decreases n,
{
    if n < 10 {
        seq![digit_char(n)]
    } else {
        decimal_of(n / 10).push(digit_char(n % 10))
    }
}

pub open spec fn digit_char(d: nat) -> char {
    ((d + 48) as u32) as char
}

/// Decimal text of a signed integer, with a leading minus when negative.
pub open spec fn signed_decimal_of(n: int) -> Seq<char> {
    if n < 0 {
        seq!['-'] + decimal_of((-n) as nat)
    } else {
        decimal_of(n as nat)
    }
}

/// Relies on sha2::Sha256 (Digest::digest): the digest of the input, 32 bytes long.
#[verifier::external_body]
pub(crate) fn sha256(data: &[u8]) -> (r: Vec<u8>)
    ensures
        r@ == sha256_of(data@),
        r@.len() == 32,
{
    Sha256::digest(data).to_vec()
}

/// Relies on data_encoding::BASE32_NOPAD.encode: ASCII text of `encode_len` characters,
/// which `decode` accepts back.
#[verifier::external_body]
pub(crate) fn base32_encode(data: &[u8]) -> (r: String)
    ensures
        r@ == base32_of(data@),
        r@.len() == base32_len(data@.len()),
        vstd::utf8::is_ascii_chars(r@),
        base32_decodes(r@),
{
    BASE32_NOPAD.encode(data)
}

/// Relies on data_encoding::BASE32_NOPAD.decode: whether it returns `Ok`.
#[verifier::external_body]
pub(crate) fn is_base32(text: &str) -> (r: bool)
    ensures
        r == base32_decodes(text@),
{
    BASE32_NOPAD.decode(text.as_bytes()).is_ok()
}

/// Relies on ed25519_dalek::Keypair::generate with rand's OsRng: a fresh key pair.
#[verifier::external_body]
pub(crate) fn generate_keypair() -> (r: Keypair) {
    let mut csprng = OsRng {};
    Keypair::generate(&mut csprng)
}

/// Relies on ed25519_dalek::Keypair::to_bytes: secret then public key, 64 bytes.
#[verifier::external_body]
pub(crate) fn keypair_bytes(keypair: &Keypair) -> (r: Vec<u8>)
    ensures
        r@.len() == 64,
{
    keypair.to_bytes().to_vec()
}

/// Relies on ed25519_dalek::Keypair::from_bytes and Signer::sign: the 64-byte
/// signature of the message, or `None` where the bytes are no key pair.
#[verifier::external_body]
pub(crate) fn sign_message(keypair: &[u8], message: &[u8]) -> (r: Option<Vec<u8>>)
    ensures
        r is Some <==> keypair_parses(keypair@),
        r matches Some(s) ==> s@ == ed25519_signature_of(keypair@, message@),
{
    match Keypair::from_bytes(keypair) {
        Ok(kp) => Some(kp.sign(message).to_bytes().to_vec()),
        Err(_) => None,
    }
}

/// Relies on the `Display` of u128: its decimal digits.
#[verifier::external_body]
pub(crate) fn decimal_u128(n: u128) -> (r: String)
    ensures
        r@ == decimal_of(n as nat),
{
    n.to_string()
}

/// Relies on the `Display` of i32: its decimal digits, after a minus when negative.
#[verifier::external_body]
pub(crate) fn decimal_i32(n: i32) -> (r: String)
    ensures
        r@ == signed_decimal_of(n as int),
{
    n.to_string()
}

/// `b` followed by the base32 text of `data`.
pub open spec fn tagged_base32(data: Seq<u8>) -> Seq<char> {
    seq!['b'] + base32_of(data)
}

/// The tagged hash of a byte sequence: `b` and the base32 text of its SHA-256 digest.
pub open spec fn hash_text_of(data: Seq<u8>) -> Seq<char> {
    tagged_base32(sha256_of(data))
}

/// Writes `b` followed by the base32 text of `data`.
pub fn encode_tagged(data: &[u8]) -> (r: String)
    ensures
        r@ == tagged_base32(data@),
        r@.len() == 1 + base32_len(data@.len()),
        vstd::utf8::is_ascii_chars(r@),
        base32_decodes(r@.subrange(1, r@.len() as int)),
{
    let body = base32_encode(data);
    let r = String::from_str("b").concat(body.as_str());
    proof {
        reveal_strlit("b");
        assert(r@.subrange(1, r@.len() as int) =~= body@);
    }
    r
}

/// The tagged SHA-256 hash of a byte sequence, 53 characters long.
pub fn encode_hash(data: &[u8]) -> (r: String)
    ensures
        r@ == hash_text_of(data@),
        r@.len() == 53,
        vstd::utf8::is_ascii_chars(r@),
        base32_decodes(r@.subrange(1, r@.len() as int)),
{
    let digest = sha256(data);
    encode_tagged(digest.as_slice())
}

} // verus!
