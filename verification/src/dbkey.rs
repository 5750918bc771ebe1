use vstd::prelude::*;
use vstd::utf8::encode_utf8;
use hkdf::Hkdf;
use rand::SeedableRng;
use crate::crypto::{aead_open, aead_seal, base64_decode, base64_encode, copy_range, random_array, spec_aead_open, spec_base64_decode, spec_base64_encode, vec_to_array};

verus! {

/// The X25519 public key of the secret key `secret` (x25519-dalek's
/// `PublicKey::from(&StaticSecret::from(secret))`).
pub uninterp spec fn spec_x25519_public(secret: Seq<u8>) -> Seq<u8>;

/// The X25519 shared secret of the secret key `secret` with the public
/// key `public` (x25519-dalek's `StaticSecret::diffie_hellman`).
pub uninterp spec fn spec_x25519_shared(secret: Seq<u8>, public: Seq<u8>) -> Seq<u8>;

/// What HKDF-SHA256 without salt derives as 32 bytes from `ikm` and `info`
/// (hkdf's `Hkdf::<Sha256>::new(None, ikm).expand(info, ..)`).
pub uninterp spec fn spec_hkdf_sha256(ikm: Seq<u8>, info: Seq<u8>) -> Seq<u8>;

/// The public key of the X25519 secret key `secret`.
#[verifier::external_body]
fn x25519_public(secret: &[u8; 32]) -> (res: [u8; 32])
    ensures
        res@ == spec_x25519_public(secret@),
{
    let s = x25519_dalek::StaticSecret::from(*secret);
    x25519_dalek::PublicKey::from(&s).to_bytes()
}

/// The X25519 shared secret of `secret` with `public`.
#[verifier::external_body]
fn x25519_shared(secret: &[u8; 32], public: &[u8; 32]) -> (res: [u8; 32])
    ensures
        res@ == spec_x25519_shared(secret@, public@),
{
    let s = x25519_dalek::StaticSecret::from(*secret);
    s.diffie_hellman(&x25519_dalek::PublicKey::from(*public)).to_bytes()
}

/// A fresh ephemeral X25519 key pair drawn from a ChaCha20 generator seeded
/// by the operating system (`EphemeralSecret::random_from_rng`), used once
/// with `recipient`: its public key and the shared secret. Of the random
/// key nothing is stated but Diffie-Hellman agreement: whoever holds a
/// 32-byte secret key whose public key is `recipient` computes the same shared
/// secret with the ephemeral public key.
#[verifier::external_body]
fn x25519_ephemeral(recipient: &[u8; 32]) -> (res: ([u8; 32], [u8; 32]))
    ensures
        forall|s: Seq<u8>| s.len() == 32 && #[trigger] spec_x25519_public(s) == recipient@ ==> spec_x25519_shared(s, res.0@) == res.1@,
{
    let rng = rand_chacha::ChaCha20Rng::from_entropy();
    let ephemeral = x25519_dalek::EphemeralSecret::random_from_rng(rng);
    let public = x25519_dalek::PublicKey::from(&ephemeral);
    let shared = ephemeral.diffie_hellman(&x25519_dalek::PublicKey::from(*recipient));
    (public.to_bytes(), shared.to_bytes())
}

/// HKDF-SHA256 without salt, expanded to 32 bytes; the crate refuses only
/// outputs longer than 255 blocks, so 32 bytes always come.
#[verifier::external_body]
fn hkdf_sha256(ikm: &[u8; 32], info: &[u8]) -> (res: [u8; 32])
    ensures
        res@ == spec_hkdf_sha256(ikm@, info@),
{
    let mut okm = [0u8; 32];
    Hkdf::<sha2::Sha256>::new(None, ikm).expand(info, &mut okm).unwrap();
    okm
}

/// The info string of the key-wrapping HKDF.
pub open spec fn hkdf_info() -> Seq<u8> {
    encode_utf8("vout-wrap-aes-key"@)
}

/// The key that wraps the database key, derived from a shared secret.
pub open spec fn wrap_key(shared: Seq<u8>) -> Seq<u8> {
    spec_hkdf_sha256(shared, hkdf_info())
}

/// The twelve zero bytes of the wrapping nonce; each wrapping key is used
/// once, with a fresh ephemeral key.
pub open spec fn zero_nonce() -> Seq<u8> {
    Seq::new(12, |i: int| 0u8)
}

/// What unwrapping `blob` with the recipient's secret key gives: `None`
/// unless it is longer than the 32-byte ephemeral public key and the
/// 12-byte nonce; otherwise what opening the rest gives, under the key
/// derived from the shared secret.
pub open spec fn spec_unwrap_key(blob: Seq<u8>, secret: Seq<u8>) -> Option<Seq<u8>> {
    if blob.len() > 44 {
        spec_aead_open(
            wrap_key(spec_x25519_shared(secret, blob.take(32))),
            blob.subrange(32, 44),
            blob.skip(44),
            Seq::empty(),
        )
    } else {
        None
    }
}

/// Wraps the database key `key` for the holder of the secret key behind
/// `recipient`: an ephemeral public key, a zero nonce and the sealed key.
/// Whoever holds a 32-byte secret key whose public key is `recipient`
/// unwraps it.
pub fn encrypt_key(key: &[u8; 32], recipient: &[u8; 32]) -> (res: Vec<u8>)
    ensures
        res@.len() == 92,
        forall|s: Seq<u8>| s.len() == 32 && #[trigger] spec_x25519_public(s) == recipient@ ==> spec_unwrap_key(res@, s) == Some(key@),
{
    let (ephemeral_public, shared) = x25519_ephemeral(recipient);
    let wrapping = hkdf_sha256(&shared, "vout-wrap-aes-key".as_bytes());
    let nonce: [u8; 12] = [0u8; 12];
    assert(nonce@ =~= zero_nonce());
    let empty: [u8; 0] = [];
    let sealed = aead_seal(&wrapping, &nonce, key, &empty).unwrap();
    let mut result: Vec<u8> = Vec::new();
    let mut i: usize = 0;
    while i < 32
        invariant
            i <= 32,
            result@ == ephemeral_public@.take(i as int),
        decreases 32 - i,
    {
        result.push(ephemeral_public[i]);
        assert(ephemeral_public@.take(i + 1) =~= ephemeral_public@.take(i as int).push(ephemeral_public@[i as int]));
        i = i + 1;
    }
    let mut j: usize = 0;
    while j < 12
        invariant
            j <= 12,
            result@ == ephemeral_public@ + zero_nonce().take(j as int),
        decreases 12 - j,
    {
        result.push(0u8);
        assert(zero_nonce().take(j + 1) =~= zero_nonce().take(j as int).push(0u8));
        j = j + 1;
    }
    let mut k: usize = 0;
    while k < sealed.len()
        invariant
            k <= sealed.len(),
            result@ == ephemeral_public@ + zero_nonce() + sealed@.take(k as int),
        decreases sealed.len() - k,
    {
        result.push(sealed[k]);
        assert(sealed@.take(k + 1) =~= sealed@.take(k as int).push(sealed@[k as int]));
        k = k + 1;
    }
    assert(ephemeral_public@.take(32) =~= ephemeral_public@);
    assert(zero_nonce().take(12) =~= zero_nonce());
    assert(sealed@.take(k as int) =~= sealed@);
    assert(result@.take(32) =~= ephemeral_public@);
    assert(result@.subrange(32, 44) =~= nonce@);
    assert(result@.skip(44) =~= sealed@);
    assert(empty@ =~= Seq::<u8>::empty());
    result
}

/// Unwraps a database key with the recipient's secret key.
pub fn decrypt_key(blob: &[u8], secret: &[u8; 32]) -> (res: Option<Vec<u8>>)
    ensures
        match spec_unwrap_key(blob@, secret@) {
            Some(k) => res matches Some(r) && r@ == k,
            None => res is None,
        },
{
    if blob.len() <= 44 {
        return None;
    }
    let public_bytes = copy_range(blob, 0, 32);
    let public: [u8; 32] = vec_to_array(public_bytes);
    let nonce = copy_range(blob, 32, 44);
    let sealed = copy_range(blob, 44, blob.len());
    assert(public@ =~= blob@.take(32));
    assert(sealed@ =~= blob@.skip(44));
    let shared = x25519_shared(secret, &public);
    let wrapping = hkdf_sha256(&shared, "vout-wrap-aes-key".as_bytes());
    let empty: [u8; 0] = [];
    assert(empty@ =~= Seq::<u8>::empty());
    aead_open(&wrapping, nonce.as_slice(), sealed.as_slice(), &empty)
}

/// Standard base64 text decoded into exactly `LEN` bytes; `None` when it
/// is not base64 or decodes to another length.
pub fn base64_fixed_decode<const LEN: usize>(value: &str) -> (res: Option<[u8; LEN]>)
    ensures
        match spec_base64_decode(value@) {
            Some(b) => if b.len() == LEN {
                res matches Some(a) && a@ == b
            } else {
                res is None
            },
            None => res is None,
        },
{
    let bytes = match base64_decode(value) {
        Some(b) => b,
        None => return None,
    };
    if bytes.len() != LEN {
        return None;
    }
    Some(vec_to_array(bytes))
}

/// A fresh random database key of 32 bytes.
pub fn create_key() -> (res: [u8; 32]) {
    random_array()
}

/// The keyring's secret key read from its base64 text, with its public
/// key; `None` when the text is not base64 of 32 bytes.
pub fn decode_keyring_key(text: &str) -> (res: Option<([u8; 32], [u8; 32])>)
    ensures
        match spec_base64_decode(text@) {
            Some(b) => if b.len() == 32 {
                res matches Some((s, p)) && s@ == b && p@ == spec_x25519_public(b)
            } else {
                res is None
            },
            None => res is None,
        },
{
    let secret = match base64_fixed_decode::<32>(text) {
        Some(s) => s,
        None => return None,
    };
    let public = x25519_public(&secret);
    Some((secret, public))
}

/// A fresh random X25519 key pair for the keyring.
pub fn create_keyring_key() -> (res: ([u8; 32], [u8; 32]))
    ensures
        res.1@ == spec_x25519_public(res.0@),
{
    let secret: [u8; 32] = random_array();
    let public = x25519_public(&secret);
    (secret, public)
}

/// Why a stored database key could not be loaded.
#[derive(PartialEq, Eq, Structural, Clone, Copy, Debug)]
pub enum DbKeyError {
    /// The keyring's text is not base64 of a 32-byte secret key.
    InvalidKeyringKey,
    /// The stored key is not base64.
    InvalidStoredKey,
    /// The stored key is too short or does not unwrap.
    UnwrapFailed,
    /// The unwrapped key is not 32 bytes long.
    InvalidLength,
}

/// What loading the stored database key `stored` with the keyring's text
/// `keyring` gives: the 32-byte key, or why it cannot be had.
pub open spec fn spec_load_db_key(stored: Seq<char>, keyring: Seq<char>) -> Result<Seq<u8>, DbKeyError> {
    match spec_base64_decode(keyring) {
        Some(secret) => if secret.len() != 32 {
            Err(DbKeyError::InvalidKeyringKey)
        } else {
            match spec_base64_decode(stored) {
                None => Err(DbKeyError::InvalidStoredKey),
                Some(blob) => match spec_unwrap_key(blob, secret) {
                    None => Err(DbKeyError::UnwrapFailed),
                    Some(k) => if k.len() == 32 {
                        Ok(k)
                    } else {
                        Err(DbKeyError::InvalidLength)
                    },
                },
            }
        },
        None => Err(DbKeyError::InvalidKeyringKey),
    }
}

/// Loads the stored database key with the keyring's secret key text.
pub fn load_db_key(stored: &str, keyring: &str) -> (res: Result<[u8; 32], DbKeyError>)
    ensures
        match spec_load_db_key(stored@, keyring@) {
            Ok(k) => res matches Ok(a) && a@ == k,
            Err(e) => res == Err::<[u8; 32], DbKeyError>(e),
        },
{
    let (secret, _public) = match decode_keyring_key(keyring) {
        Some(p) => p,
        None => return Err(DbKeyError::InvalidKeyringKey),
    };
    let blob = match base64_decode(stored) {
        Some(b) => b,
        None => return Err(DbKeyError::InvalidStoredKey),
    };
    let key = match decrypt_key(blob.as_slice(), &secret) {
        Some(k) => k,
        None => return Err(DbKeyError::UnwrapFailed),
    };
    if key.len() != 32 {
        return Err(DbKeyError::InvalidLength);
    }
    Ok(vec_to_array(key))
}

/// A new database key as it is kept: the keyring's secret key in base64,
/// and the database key wrapped for it, in base64, for the settings table.
pub struct NewDbKey {
    pub keyring_secret: String,
    pub stored_key: String,
}

/// Makes a database key: a fresh keyring key pair and a fresh random key
/// wrapped for it. The stored key loads back with the keyring's secret.
pub fn new_db_key() -> (res: NewDbKey)
    ensures
        exists|k: Seq<u8>| #[trigger] spec_load_db_key(res.stored_key@, res.keyring_secret@) == Ok::<Seq<u8>, DbKeyError>(k)
            && k.len() == 32,
{
    let (secret, public) = create_keyring_key();
    let keyring_secret = base64_encode(&secret);
    let key = create_key();
    let wrapped = encrypt_key(&key, &public);
    let stored_key = base64_encode(wrapped.as_slice());
    assert(spec_unwrap_key(wrapped@, secret@) == Some(key@));
    assert(spec_load_db_key(stored_key@, keyring_secret@) == Ok::<Seq<u8>, DbKeyError>(key@));
    NewDbKey { keyring_secret, stored_key }
}

} // verus!
