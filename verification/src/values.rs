use vstd::prelude::*;
use vstd::utf8::{decode_utf8, encode_utf8, valid_utf8};
use crate::crypto::{base64_encode, copy_range, decrypt_with_key, encrypt_with_key, format_version, spec_base64_encode, spec_decrypt};
use crate::error::{ApiError, ErrorCode, internal_service_error};
use crate::model::{ParameterType, parameter_type_name, spec_value_aad, value_aad};
use crate::text::{str_eq, string_from_utf8};

verus! {

/// The settings the service runs with: the key that encrypts secure values.
pub struct Settings {
    pub db_key: [u8; 32],
}

/// Encrypts `value` bound to `aad` under the service's key.
pub fn encrypt(settings: &Settings, value: &[u8], aad: &[u8]) -> (res: Option<Vec<u8>>)
    ensures
        res.is_some() == (value@.len() / 64 < 4294967295),
        res matches Some(ct) ==> ct@.len() == value@.len() + 29 && ct@[0] == format_version()
            && spec_decrypt(settings.db_key@, ct@, aad@) == Some(value@),
{
    encrypt_with_key(&settings.db_key, value, aad)
}

/// Decrypts a value encrypted under the service's key and bound to `aad`.
pub fn decrypt(settings: &Settings, value: &[u8], aad: &[u8]) -> (res: Option<Vec<u8>>)
    ensures
        match spec_decrypt(settings.db_key@, value@, aad@) {
            Some(m) => res.is_some() && res.unwrap()@ == m,
            None => res.is_none(),
        },
{
    decrypt_with_key(&settings.db_key, value, aad)
}

/// The associated data of a stored value, as bytes.
pub open spec fn aad_bytes(name: Seq<char>, version: i64, parameter_type: Seq<char>) -> Seq<u8> {
    encode_utf8(spec_value_aad(name, version, parameter_type))
}

/// Whether `stored` is how the store keeps `value` for `version` of
/// parameter `name` of type `t`: plain UTF-8, or for a secure string an
/// encryption under `key` that decrypts to the UTF-8 of `value`.
pub open spec fn encodes(key: Seq<u8>, stored: Seq<u8>, value: Seq<char>, name: Seq<char>, version: i64, t: ParameterType) -> bool {
    match t {
        ParameterType::SecureString => spec_decrypt(key, stored, aad_bytes(name, version, parameter_type_name(t)))
            == Some(encode_utf8(value)),
        _ => stored == encode_utf8(value),
    }
}

/// The bytes the store keeps for `value` as `version` of parameter `name`:
/// its UTF-8, encrypted under `key` for a secure string. Fails only when
/// the cipher refuses the length.
pub fn encode_value(value: &str, parameter_name: &str, version: i64, parameter_type: ParameterType, key: &[u8; 32]) -> (res: Result<Vec<u8>, ApiError>)
    ensures
        match res {
            Ok(b) => encodes(key@, b@, value@, parameter_name@, version, parameter_type),
            Err(e) => parameter_type == ParameterType::SecureString && encode_utf8(value@).len() / 64
                >= 4294967295 && e.is(ErrorCode::InternalServiceError, "An internal service error occurred."@),
        },
{
    let bytes = value.as_bytes();
    match parameter_type {
        ParameterType::SecureString => {
            let aad = value_aad(parameter_name, version, parameter_type.as_str());
            match encrypt_with_key(key, bytes, aad.as_str().as_bytes()) {
                Some(ct) => Ok(ct),
                None => Err(internal_service_error()),
            }
        },
        _ => {
            let b = copy_range(bytes, 0, bytes.len());
            assert(b@ =~= encode_utf8(value@));
            Ok(b)
        },
    }
}

/// What a stored value reads as in an answer: decrypted when it is a
/// secure string and decryption is asked for, its base64 when it is a
/// secure string and decryption is not asked for, and its UTF-8 text
/// otherwise; `None` when decryption fails or the bytes are not UTF-8.
pub open spec fn spec_decode(key: Seq<u8>, value: Seq<u8>, name: Seq<char>, version: i64, parameter_type: Seq<char>, with_decryption: bool) -> Option<Seq<char>> {
    if parameter_type == "SecureString"@ && with_decryption {
        match spec_decrypt(key, value, aad_bytes(name, version, parameter_type)) {
            Some(b) => if valid_utf8(b) { Some(decode_utf8(b)) } else { None },
            None => None,
        }
    } else if parameter_type == "SecureString"@ {
        Some(spec_base64_encode(value))
    } else if valid_utf8(value) {
        Some(decode_utf8(value))
    } else {
        None
    }
}

/// Reads a stored value for an answer; a value that cannot be read is an
/// internal error.
pub fn decode_stored_value(value: &[u8], parameter_name: &str, version: i64, parameter_type: &str, with_decryption: bool, key: &[u8; 32]) -> (res: Result<String, ApiError>)
    ensures
        match spec_decode(key@, value@, parameter_name@, version, parameter_type@, with_decryption) {
            Some(t) => res.is_ok() && res.unwrap()@ == t,
            None => res.is_err() && res.unwrap_err().is(ErrorCode::InternalServiceError, "An internal service error occurred."@),
        },
{
    let secure = str_eq(parameter_type, "SecureString");
    if secure && with_decryption {
        let aad = value_aad(parameter_name, version, parameter_type);
        let plain = match decrypt_with_key(key, value, aad.as_str().as_bytes()) {
            Some(p) => p,
            None => return Err(internal_service_error()),
        };
        return match string_from_utf8(plain) {
            Some(s) => Ok(s),
            None => Err(internal_service_error()),
        };
    }
    if secure {
        return Ok(base64_encode(value));
    }
    let copied = copy_range(value, 0, value.len());
    assert(copied@ =~= value@);
    match string_from_utf8(copied) {
        Some(s) => Ok(s),
        None => Err(internal_service_error()),
    }
}

/// A value stored by `encode_value` reads back as the value that was
/// stored, for a plain string and for a secure string read with
/// decryption.
pub proof fn lemma_stored_value_reads_back(key: Seq<u8>, stored: Seq<u8>, value: Seq<char>, name: Seq<char>, version: i64, t: ParameterType)
    requires
        encodes(key, stored, value, name, version, t),
    ensures
        spec_decode(key, stored, name, version, parameter_type_name(t), true) == Some(value),
        t != ParameterType::SecureString ==> spec_decode(key, stored, name, version, parameter_type_name(t), false) == Some(value),
{
    vstd::utf8::encode_utf8_valid_utf8(value);
    vstd::utf8::encode_utf8_decode_utf8(value);
    reveal_strlit("SecureString");
    reveal_strlit("String");
    reveal_strlit("StringList");
}

} // verus!
