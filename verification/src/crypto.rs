use vstd::prelude::*;
use chacha20poly1305::aead::{Aead, KeyInit};
use rand::{RngCore, SeedableRng};
use base64::Engine;

verus! {

#[verifier::external_type_specification]
#[verifier::external_body]
pub struct ExChaCha8Rng(rand_chacha::ChaCha8Rng);

/// A generator seeded from the operating system (`SeedableRng::from_entropy`).
/// Nothing is stated of its state: it is random.
#[verifier::external_body]
fn rng_from_entropy() -> rand_chacha::ChaCha8Rng {
    rand_chacha::ChaCha8Rng::from_entropy()
}

/// The next word of the generator (`RngCore::next_u32`); nothing is stated
/// of the value: it is random.
#[verifier::external_body]
fn rng_next_u32(rng: &mut rand_chacha::ChaCha8Rng) -> u32 {
    rng.next_u32()
}

/// `len` random bytes, each the low byte of a fresh word of a generator
/// seeded from the operating system.
pub fn random_bytes(len: usize) -> (res: Vec<u8>)
    ensures
        res@.len() == len,
{
    let mut rng = rng_from_entropy();
    let mut res: Vec<u8> = Vec::new();
    let mut i: usize = 0;
    while i < len
        invariant
            i <= len,
            res@.len() == i,
        decreases len - i,
    {
        let w = rng_next_u32(&mut rng);
        res.push((w % 256) as u8);
        i = i + 1;
    }
    res
}

/// The bytes of `v` as an array (std's `TryFrom<Vec<u8>>` for arrays, on a
/// vector of the array's length).
#[verifier::external_body]
pub(crate) fn vec_to_array<const LEN: usize>(v: Vec<u8>) -> (res: [u8; LEN])
    requires
        v@.len() == LEN,
    ensures
        res@ == v@,
{
    v.try_into().unwrap()
}

/// `LEN` random bytes as an array.
pub fn random_array<const LEN: usize>() -> (res: [u8; LEN])
    ensures
        res@.len() == LEN,
{
    let bytes = random_bytes(LEN);
    vec_to_array(bytes)
}

/// What ChaCha20-Poly1305 gives when it seals `msg` with `key`, `nonce`
/// and associated data `aad`.
pub uninterp spec fn spec_aead_seal(key: Seq<u8>, nonce: Seq<u8>, msg: Seq<u8>, aad: Seq<u8>) -> Seq<u8>;

/// What ChaCha20-Poly1305 gives when it opens `ct` with `key`, `nonce`
/// and associated data `aad`: the plaintext, or `None` when the tag does
/// not authenticate.
pub uninterp spec fn spec_aead_open(key: Seq<u8>, nonce: Seq<u8>, ct: Seq<u8>, aad: Seq<u8>) -> Option<Seq<u8>>;

/// Seals `msg` with ChaCha20-Poly1305 (`Aead::encrypt` with a `Payload`).
/// The crate fails only when the message has `u32::MAX` 64-byte blocks or
/// more; the ciphertext is the message's length plus the 16-byte tag, and
/// opening it with the same key, nonce and associated data gives the
/// message back (the AEAD's correctness).
#[verifier::external_body]
pub(crate) fn aead_seal(key: &[u8; 32], nonce: &[u8], msg: &[u8], aad: &[u8]) -> (res: Option<Vec<u8>>)
    requires
        nonce@.len() == 12,
    ensures
        res.is_some() == (msg@.len() / 64 < 4294967295),
        res matches Some(ct) ==> ct@ == spec_aead_seal(key@, nonce@, msg@, aad@) && ct@.len()
            == msg@.len() + 16 && spec_aead_open(key@, nonce@, ct@, aad@) == Some(msg@),
{
    let cipher = chacha20poly1305::ChaCha20Poly1305::new_from_slice(key).unwrap();
    let nonce = chacha20poly1305::Nonce::from_slice(nonce);
    cipher.encrypt(nonce, chacha20poly1305::aead::Payload { msg, aad }).ok()
}

/// Opens `ct` with ChaCha20-Poly1305 (`Aead::decrypt` with a `Payload`).
#[verifier::external_body]
pub(crate) fn aead_open(key: &[u8; 32], nonce: &[u8], ct: &[u8], aad: &[u8]) -> (res: Option<Vec<u8>>)
    requires
        nonce@.len() == 12,
    ensures
        match spec_aead_open(key@, nonce@, ct@, aad@) {
            Some(m) => res.is_some() && res.unwrap()@ == m,
            None => res.is_none(),
        },
{
    let cipher = chacha20poly1305::ChaCha20Poly1305::new_from_slice(key).unwrap();
    let nonce = chacha20poly1305::Nonce::from_slice(nonce);
    cipher.decrypt(nonce, chacha20poly1305::aead::Payload { msg: ct, aad }).ok()
}

/// The version byte that leads an encrypted value.
pub open spec fn format_version() -> u8 {
    1
}

/// What decrypting a stored value gives: `None` unless it is longer than
/// the version byte and the 12-byte nonce and starts with the version
/// byte; otherwise what opening the rest with that nonce gives.
pub open spec fn spec_decrypt(key: Seq<u8>, value: Seq<u8>, aad: Seq<u8>) -> Option<Seq<u8>> {
    if value.len() > 13 && value[0] == format_version() {
        spec_aead_open(key, value.subrange(1, 13), value.skip(13), aad)
    } else {
        None
    }
}

/// Copies `s[from..to]`.
pub fn copy_range(s: &[u8], from: usize, to: usize) -> (res: Vec<u8>)
    requires
        from <= to <= s@.len(),
    ensures
        res@ == s@.subrange(from as int, to as int),
{
    let mut res: Vec<u8> = Vec::new();
    let mut i: usize = from;
    while i < to
        invariant
            from <= i <= to <= s@.len(),
            res@ == s@.subrange(from as int, i as int),
        decreases to - i,
    {
        res.push(s[i]);
        assert(s@.subrange(from as int, i + 1) =~= s@.subrange(from as int, i as int).push(s@[i as int]));
        i = i + 1;
    }
    res
}

/// Encrypts `value` under `key`, bound to `aad`: the version byte, a fresh
/// random 12-byte nonce, then the sealed value. `None` when the cipher
/// refuses the length.
pub fn encrypt_with_key(key: &[u8; 32], value: &[u8], aad: &[u8]) -> (res: Option<Vec<u8>>)
    ensures
        res.is_some() == (value@.len() / 64 < 4294967295),
        res matches Some(ct) ==> ct@.len() == 13 + value@.len() + 16 && ct@[0] == format_version()
            && spec_decrypt(key@, ct@, aad@) == Some(value@),
{
    let nonce = random_bytes(12);
    let sealed = match aead_seal(key, nonce.as_slice(), value, aad) {
        Some(c) => c,
        None => return None,
    };
    let mut result: Vec<u8> = Vec::new();
    result.push(1u8);
    let mut i: usize = 0;
    while i < 12
        invariant
            i <= 12,
            nonce@.len() == 12,
            result@ == seq![1u8] + nonce@.take(i as int),
        decreases 12 - i,
    {
        result.push(nonce[i]);
        assert(nonce@.take(i + 1) =~= nonce@.take(i as int).push(nonce@[i as int]));
        i = i + 1;
    }
    let mut j: usize = 0;
    while j < sealed.len()
        invariant
            j <= sealed.len(),
            nonce@.len() == 12,
            result@ == seq![1u8] + nonce@ + sealed@.take(j as int),
        decreases sealed.len() - j,
    {
        result.push(sealed[j]);
        assert(sealed@.take(j + 1) =~= sealed@.take(j as int).push(sealed@[j as int]));
        j = j + 1;
    }
    assert(nonce@.take(12) =~= nonce@);
    assert(sealed@.take(j as int) =~= sealed@);
    assert(result@.subrange(1, 13) =~= nonce@);
    assert(result@.skip(13) =~= sealed@);
    Some(result)
}

/// Decrypts a value that `encrypt_with_key` produced under `key` and `aad`.
pub fn decrypt_with_key(key: &[u8; 32], value: &[u8], aad: &[u8]) -> (res: Option<Vec<u8>>)
    ensures
        match spec_decrypt(key@, value@, aad@) {
            Some(m) => res.is_some() && res.unwrap()@ == m,
            None => res.is_none(),
        },
{
    if value.len() <= 13 || value[0] != 1u8 {
        return None;
    }
    let nonce = copy_range(value, 1, 13);
    let ct = copy_range(value, 13, value.len());
    assert(ct@ =~= value@.skip(13));
    aead_open(key, nonce.as_slice(), ct.as_slice(), aad)
}

/// The standard base64 text of `b`.
pub uninterp spec fn spec_base64_encode(b: Seq<u8>) -> Seq<char>;

/// What decoding standard base64 text gives: the bytes, or `None` when
/// the text is not standard base64.
pub uninterp spec fn spec_base64_decode(t: Seq<char>) -> Option<Seq<u8>>;

/// Standard base64 encoding (`BASE64_STANDARD.encode`); decoding its text
/// gives the bytes back.
#[verifier::external_body]
pub fn base64_encode(bytes: &[u8]) -> (res: String)
    ensures
        res@ == spec_base64_encode(bytes@),
        spec_base64_decode(res@) == Some(bytes@),
{
    base64::prelude::BASE64_STANDARD.encode(bytes)
}

/// Standard base64 decoding (`BASE64_STANDARD.decode`).
#[verifier::external_body]
pub fn base64_decode(text: &str) -> (res: Option<Vec<u8>>)
    ensures
        match spec_base64_decode(text@) {
            Some(b) => res.is_some() && res.unwrap()@ == b,
            None => res.is_none(),
        },
{
    base64::prelude::BASE64_STANDARD.decode(text).ok()
}

} // verus!
