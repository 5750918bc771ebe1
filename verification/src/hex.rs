use vstd::prelude::*;
use vstd::utf8::{encode_utf8, is_ascii_chars, is_ascii_chars_encode_utf8};
use crate::text::string_from_chars;

verus! {

/// The lower-case hexadecimal digit of `n` (below 16).
pub open spec fn hex_char(n: nat) -> char {
    if n < 10 {
        ((n + 48) as u32) as char
    } else {
        ((n + 87) as u32) as char
    }
}

/// The lower-case hexadecimal text of `b`, two digits per byte.
pub open spec fn spec_hex_encode(b: Seq<u8>) -> Seq<char> {
    Seq::new(
        2 * b.len(),
        |i: int|
            if i % 2 == 0 {
                hex_char((b[i / 2] / 16) as nat)
            } else {
                hex_char((b[i / 2] % 16) as nat)
            },
    )
}

/// The value of a hexadecimal digit byte of either case.
pub open spec fn hex_value(c: u8) -> Option<nat> {
    if 48 <= c <= 57 {
        Some((c - 48) as nat)
    } else if 97 <= c <= 102 {
        Some((c - 87) as nat)
    } else if 65 <= c <= 70 {
        Some((c - 55) as nat)
    } else {
        None
    }
}

/// The bytes that the hexadecimal text `t` (as UTF-8 bytes) names: `None`
/// when its length is odd or a byte is not a hexadecimal digit.
pub open spec fn spec_hex_decode(t: Seq<u8>) -> Option<Seq<u8>> {
    if t.len() % 2 != 0 {
        None
    } else if exists|i: int| 0 <= i < t.len() && (#[trigger] hex_value(t[i])).is_none() {
        None
    } else {
        Some(
            Seq::new(
                t.len() / 2,
                |i: int| (16 * hex_value(t[2 * i]).unwrap() + hex_value(t[2 * i + 1]).unwrap()) as u8,
            ),
        )
    }
}

fn hex_digit(n: u8) -> (c: char)
    requires
        n < 16,
    ensures
        c == hex_char(n as nat),
{
    if n < 10 {
        (n + 48) as char
    } else {
        (n + 87) as char
    }
}

/// The lower-case hexadecimal text of `bytes`.
pub fn hex_encode(bytes: &[u8]) -> (res: String)
    ensures
        res@ == spec_hex_encode(bytes@),
{
    let mut out: Vec<char> = Vec::new();
    let mut i: usize = 0;
    while i < bytes.len()
        invariant
            i <= bytes.len(),
            out@ =~= spec_hex_encode(bytes@.take(i as int)),
        decreases bytes.len() - i,
    {
        let b = bytes[i];
        assert(b >> 4 == b / 16) by (bit_vector);
        assert(b & 0x0f == b % 16) by (bit_vector);
        out.push(hex_digit(b >> 4));
        out.push(hex_digit(b & 0x0f));
        proof {
            let s = spec_hex_encode(bytes@.take(i + 1));
            assert forall|k: int| 0 <= k < s.len() implies out@[k] == s[k] by {
                if k < 2 * i {
                    assert(bytes@.take(i + 1)[k / 2] == bytes@.take(i as int)[k / 2]);
                }
            }
        }
        i = i + 1;
    }
    assert(bytes@.take(i as int) =~= bytes@);
    string_from_chars(&out)
}

fn hex_digit_value(c: u8) -> (res: Option<u8>)
    ensures
        match hex_value(c) {
            Some(v) => res == Some(v as u8) && v < 16,
            None => res.is_none(),
        },
{
    if 48 <= c && c <= 57 {
        Some(c - 48)
    } else if 97 <= c && c <= 102 {
        Some(c - 87)
    } else if 65 <= c && c <= 70 {
        Some(c - 55)
    } else {
        None
    }
}

/// The bytes that a hexadecimal text names, either case; `None` when its
/// length is odd or it holds another character.
pub fn hex_decode(value: &str) -> (res: Option<Vec<u8>>)
    ensures
        match spec_hex_decode(encode_utf8(value@)) {
            Some(b) => res.is_some() && res.unwrap()@ == b,
            None => res.is_none(),
        },
{
    let t = value.as_bytes();
    if t.len() % 2 != 0 {
        return None;
    }
    let mut out: Vec<u8> = Vec::new();
    let mut i: usize = 0;
    while i < t.len() / 2
        invariant
            t.len() % 2 == 0,
            t@ == encode_utf8(value@),
            i <= t.len() / 2,
            forall|k: int| 0 <= k < 2 * i ==> (#[trigger] hex_value(t@[k])).is_some(),
            out@.len() == i,
            forall|k: int|
                0 <= k < i ==> #[trigger] out@[k] == (16 * hex_value(t@[2 * k]).unwrap()
                    + hex_value(t@[2 * k + 1]).unwrap()) as u8,
        decreases t.len() / 2 - i,
    {
        let high = match hex_digit_value(t[2 * i]) {
            Some(v) => v,
            None => return None,
        };
        let low = match hex_digit_value(t[2 * i + 1]) {
            Some(v) => v,
            None => return None,
        };
        out.push(high * 16 + low);
        i = i + 1;
    }
    assert(out@ =~= spec_hex_decode(encode_utf8(value@)).unwrap());
    Some(out)
}

proof fn lemma_hex_char_value(n: nat)
    requires
        n < 16,
    ensures
        '\0' <= hex_char(n) <= '\u{7f}',
        hex_value(hex_char(n) as u8) == Some(n),
{
}

/// Reading back the hexadecimal text of some bytes gives those bytes.
pub proof fn lemma_hex_roundtrip(b: Seq<u8>)
    ensures
        spec_hex_decode(encode_utf8(spec_hex_encode(b))) == Some(b),
{
    let s = spec_hex_encode(b);
    assert forall|i: int| 0 <= i < s.len() implies '\0' <= #[trigger] s[i] <= '\u{7f}' by {
        lemma_hex_char_value((b[i / 2] / 16) as nat);
        lemma_hex_char_value((b[i / 2] % 16) as nat);
    }
    assert(is_ascii_chars(s));
    is_ascii_chars_encode_utf8(s);
    let t = encode_utf8(s);
    assert forall|i: int| 0 <= i < t.len() implies (#[trigger] hex_value(t[i])).is_some() by {
        assert(t[i] == s[i] as u8);
        lemma_hex_char_value((b[i / 2] / 16) as nat);
        lemma_hex_char_value((b[i / 2] % 16) as nat);
    }
    assert(t.len() % 2 == 0);
    let d = spec_hex_decode(t).unwrap();
    assert forall|k: int| 0 <= k < b.len() implies d[k] == b[k] by {
        assert(t[2 * k] == s[2 * k] as u8);
        assert(t[2 * k + 1] == s[2 * k + 1] as u8);
        assert((2 * k) / 2 == k);
        assert((2 * k + 1) / 2 == k);
        assert((2 * k) % 2 == 0);
        assert((2 * k + 1) % 2 == 1);
        lemma_hex_char_value((b[k] / 16) as nat);
        lemma_hex_char_value((b[k] % 16) as nat);
        assert(16 * (b[k] / 16) + b[k] % 16 == b[k]);
    }
    assert(d =~= b);
}

} // verus!
