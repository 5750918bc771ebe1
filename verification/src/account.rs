use vstd::prelude::*;
use crate::crypto::random_bytes;
use crate::text::{chars_of, string_from_chars};

verus! {

/// The characters that generated keys are made of: capitals, small
/// letters and digits.
pub open spec fn key_alphabet() -> Seq<char> {
    "ABCDEFGHIJKLMNOPQRSTUVWXYZabcdefghijklmnopqrstuvwxyz0123456789"@
}

/// The key whose characters are the alphabet's characters at each byte
/// modulo the alphabet's length.
pub open spec fn spec_key_from_bytes(b: Seq<u8>) -> Seq<char> {
    Seq::new(b.len(), |i: int| key_alphabet()[(b[i] % 62) as int])
}

/// The key that `bytes` choose from the alphabet.
pub fn key_from_bytes(bytes: &[u8]) -> (res: String)
    ensures
        res@ == spec_key_from_bytes(bytes@),
{
    proof {
        reveal_strlit("ABCDEFGHIJKLMNOPQRSTUVWXYZabcdefghijklmnopqrstuvwxyz0123456789");
    }
    let alphabet = chars_of("ABCDEFGHIJKLMNOPQRSTUVWXYZabcdefghijklmnopqrstuvwxyz0123456789");
    let mut out: Vec<char> = Vec::new();
    let mut i: usize = 0;
    while i < bytes.len()
        invariant
            i <= bytes.len(),
            alphabet@ == key_alphabet(),
            alphabet@.len() == 62,
            out@ == spec_key_from_bytes(bytes@).take(i as int),
        decreases bytes.len() - i,
    {
        let c = alphabet[(bytes[i] % 62) as usize];
        out.push(c);
        assert(spec_key_from_bytes(bytes@).take(i + 1) =~= spec_key_from_bytes(bytes@).take(i as int).push(c));
        i = i + 1;
    }
    assert(spec_key_from_bytes(bytes@).take(i as int) =~= spec_key_from_bytes(bytes@));
    string_from_chars(&out)
}

/// A random access key of 32 characters of the alphabet.
pub fn access_key() -> (res: String)
    ensures
        exists|b: Seq<u8>| b.len() == 32 && res@ == #[trigger] spec_key_from_bytes(b),
{
    let bytes = random_bytes(32);
    key_from_bytes(bytes.as_slice())
}

/// A random secret key of 32 characters of the alphabet.
pub fn secret_key() -> (res: String)
    ensures
        exists|b: Seq<u8>| b.len() == 32 && res@ == #[trigger] spec_key_from_bytes(b),
{
    let bytes = random_bytes(32);
    key_from_bytes(bytes.as_slice())
}

} // verus!
