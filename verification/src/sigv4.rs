use vstd::prelude::*;
use vstd::utf8::encode_utf8;
use sha2::Digest;
use crate::split::{char_range, collapse_whitespace, collapse_ws, join, join_strings, split_char, split_on, split_once, split_once_chars, trim, trim_chars, trim_start, trim_start_chars};
use crate::store::ov;
use crate::text::{chars_eq, chars_occur_at, chars_of, concat, push_all, sort_seq, sort_strings, spec_starts_with, str_eq, string_from_chars, views};

verus! {

/// What SHA-256 gives for `b`.
pub uninterp spec fn spec_sha256(b: Seq<u8>) -> Seq<u8>;

/// The SHA-256 digest of `bytes` (sha2's `Digest::digest` for `Sha256`).
#[verifier::external_body]
pub(crate) fn sha256(bytes: &[u8]) -> (res: [u8; 32])
    ensures
        res@ == spec_sha256(bytes@),
{
    sha2::Sha256::digest(bytes).into()
}

/// The HMAC key block of `key`: the key, or its SHA-256 digest when it is
/// longer than the 64-byte block, padded with zero bytes to 64.
pub open spec fn hmac_block(key: Seq<u8>) -> Seq<u8> {
    let k = if key.len() > 64 { spec_sha256(key) } else { key };
    Seq::new(64, |i: int| if i < k.len() { k[i] } else { 0u8 })
}

/// The bytes of a 64-byte block each combined with `pad` by exclusive or.
pub open spec fn xor_pad(block: Seq<u8>, pad: u8) -> Seq<u8> {
    Seq::new(64, |i: int| block[i] ^ pad)
}

/// HMAC-SHA256 of `msg` under `key` (RFC 2104): the digest of the outer
/// padded key followed by the digest of the inner padded key and the
/// message.
pub open spec fn spec_hmac_sha256(key: Seq<u8>, msg: Seq<u8>) -> Seq<u8> {
    let b = hmac_block(key);
    spec_sha256(xor_pad(b, 0x5cu8) + spec_sha256(xor_pad(b, 0x36u8) + msg))
}

/// Copies the bytes of a digest.
fn digest_bytes(d: &[u8; 32]) -> (res: Vec<u8>)
    ensures
        res@ == d@,
{
    let mut res: Vec<u8> = Vec::new();
    let mut i: usize = 0;
    while i < 32
        invariant
            i <= 32,
            d@.len() == 32,
            res@ == d@.take(i as int),
        decreases 32 - i,
    {
        res.push(d[i]);
        assert(d@.take(i + 1) =~= d@.take(i as int).push(d@[i as int]));
        i = i + 1;
    }
    assert(d@.take(32) =~= d@);
    res
}

/// `pad` combined by exclusive or with each byte of `block`, followed by
/// `rest`.
fn padded_then(block: &Vec<u8>, pad: u8, rest: &[u8]) -> (res: Vec<u8>)
    requires
        block@.len() == 64,
    ensures
        res@ == xor_pad(block@, pad) + rest@,
{
    let mut res: Vec<u8> = Vec::new();
    let mut i: usize = 0;
    while i < 64
        invariant
            i <= 64,
            block@.len() == 64,
            res@ == xor_pad(block@, pad).take(i as int),
        decreases 64 - i,
    {
        res.push(block[i] ^ pad);
        assert(xor_pad(block@, pad).take(i + 1) =~= xor_pad(block@, pad).take(i as int).push(block@[i as int] ^ pad));
        i = i + 1;
    }
    let mut j: usize = 0;
    while j < rest.len()
        invariant
            j <= rest.len(),
            res@ == xor_pad(block@, pad) + rest@.take(j as int),
        decreases rest.len() - j,
    {
        res.push(rest[j]);
        assert(rest@.take(j + 1) =~= rest@.take(j as int).push(rest@[j as int]));
        j = j + 1;
    }
    assert(xor_pad(block@, pad).take(64) =~= xor_pad(block@, pad));
    assert(rest@.take(j as int) =~= rest@);
    res
}

/// HMAC-SHA256 of `message` under `key`.
pub fn hmac_sha256(key: &[u8], message: &[u8]) -> (res: [u8; 32])
    ensures
        res@ == spec_hmac_sha256(key@, message@),
{
    let k: Vec<u8> = if key.len() > 64 {
        let d = sha256(key);
        digest_bytes(&d)
    } else {
        let mut c: Vec<u8> = Vec::new();
        let mut i: usize = 0;
        while i < key.len()
            invariant
                i <= key.len(),
                c@ == key@.take(i as int),
            decreases key.len() - i,
        {
            c.push(key[i]);
            assert(key@.take(i + 1) =~= key@.take(i as int).push(key@[i as int]));
            i = i + 1;
        }
        assert(key@.take(i as int) =~= key@);
        c
    };
    let ghost kk = if key@.len() > 64 { spec_sha256(key@) } else { key@ };
    assert(k@ == kk);
    let mut block: Vec<u8> = Vec::new();
    let mut i: usize = 0;
    while i < 64
        invariant
            i <= 64,
            k@ == kk,
            kk == (if key@.len() > 64 { spec_sha256(key@) } else { key@ }),
            block@ == hmac_block(key@).take(i as int),
        decreases 64 - i,
    {
        let b: u8 = if i < k.len() { k[i] } else { 0u8 };
        block.push(b);
        assert(hmac_block(key@).take(i + 1) =~= hmac_block(key@).take(i as int).push(b));
        i = i + 1;
    }
    assert(hmac_block(key@).take(64) =~= hmac_block(key@));
    let inner_input = padded_then(&block, 0x36u8, message);
    let inner = sha256(inner_input.as_slice());
    let outer_input = padded_then(&block, 0x5cu8, &inner);
    sha256(outer_input.as_slice())
}

/// The SigV4 signing key: the secret key, prefixed with `AWS4`, keys an
/// HMAC chain over the date, the region, the service and `aws4_request`.
pub open spec fn spec_sigv4_key(secret: Seq<char>, date: Seq<char>, region: Seq<char>, service: Seq<char>) -> Seq<u8> {
    let k_date = spec_hmac_sha256(encode_utf8("AWS4"@ + secret), encode_utf8(date));
    let k_region = spec_hmac_sha256(k_date, encode_utf8(region));
    let k_service = spec_hmac_sha256(k_region, encode_utf8(service));
    spec_hmac_sha256(k_service, encode_utf8("aws4_request"@))
}

/// The SigV4 signing key for a secret key, date, region and service.
pub fn sigv4_key(secret_key: &str, date: &str, region: &str, service: &str) -> (res: [u8; 32])
    ensures
        res@ == spec_sigv4_key(secret_key@, date@, region@, service@),
{
    let prefixed = concat("AWS4", secret_key);
    let k_date = hmac_sha256(prefixed.as_str().as_bytes(), date.as_bytes());
    let k_region = hmac_sha256(&k_date, region.as_bytes());
    let k_service = hmac_sha256(&k_region, service.as_bytes());
    hmac_sha256(&k_service, "aws4_request".as_bytes())
}

/// The algorithm name that leads a SigV4 `Authorization` header.
pub open spec fn algorithm() -> Seq<char> {
    "AWS4-HMAC-SHA256"@
}

/// The credential, signed headers and signature named by the parts of an
/// `Authorization` header, the last of each kind winning; `None` when a
/// part, trimmed, has no `=`.
pub open spec fn auth_fields(parts: Seq<Seq<char>>) -> Option<(Option<Seq<char>>, Option<Seq<Seq<char>>>, Option<Seq<char>>)>
    decreases parts.len(),
{
    if parts.len() == 0 {
        Some((None, None, None))
    } else {
        match auth_fields(parts.drop_last()) {
            None => None,
            Some((c, h, g)) => match split_once(trim(parts.last()), '=') {
                None => None,
                Some((k, v)) => if k == "Credential"@ {
                    Some((Some(v), h, g))
                } else if k == "SignedHeaders"@ {
                    Some((c, Some(split_on(v, ';')), g))
                } else if k == "Signature"@ {
                    Some((c, h, Some(v)))
                } else {
                    Some((c, h, g))
                },
            },
        }
    }
}

/// The credential, the signed header names and the signature of a SigV4
/// `Authorization` header: after the algorithm name, comma-separated
/// `key=value` parts; `None` when the algorithm differs, a part has no
/// `=`, or one of the three is missing.
pub open spec fn spec_parse_authorization(value: Seq<char>) -> Option<(Seq<char>, Seq<Seq<char>>, Seq<char>)> {
    if !spec_starts_with(value, algorithm()) {
        None
    } else {
        match auth_fields(split_on(trim_start(value.skip(algorithm().len() as int)), ',')) {
            Some((Some(c), Some(h), Some(g))) => Some((c, h, g)),
            _ => None,
        }
    }
}

/// A part without `=` spoils every longer list of parts.
proof fn lemma_auth_fields_none(parts: Seq<Seq<char>>, i: int)
    requires
        0 <= i < parts.len(),
        auth_fields(parts.take(i + 1)) is None,
    ensures
        auth_fields(parts) is None,
    decreases parts.len() - i,
{
    if i + 1 < parts.len() {
        assert(parts.take(i + 2).drop_last() =~= parts.take(i + 1));
        lemma_auth_fields_none(parts, i + 1);
    } else {
        assert(parts.take(i + 1) =~= parts);
    }
}

/// The text of an optional list of strings.
pub open spec fn ovs(o: Option<Vec<String>>) -> Option<Seq<Seq<char>>> {
    match o {
        Some(v) => Some(views(v@)),
        None => None,
    }
}

/// Reads the credential, the signed header names and the signature of a
/// SigV4 `Authorization` header.
pub fn parse_authorization(value: &str) -> (res: Option<(String, Vec<String>, String)>)
    ensures
        match spec_parse_authorization(value@) {
            Some((c, h, g)) => res matches Some((x, y, z)) && x@ == c && views(y@) == h && z@ == g,
            None => res is None,
        },
{
    proof {
        reveal_strlit("AWS4-HMAC-SHA256");
    }
    let chars = chars_of(value);
    let alg = chars_of("AWS4-HMAC-SHA256");
    if alg.len() > chars.len() || !chars_occur_at(&chars, &alg, 0) {
        proof {
            if alg@.len() <= chars@.len() {
                assert(chars@.subrange(0, alg@.len() as int) =~= chars@.take(alg@.len() as int));
            }
        }
        return None;
    }
    assert(chars@.subrange(0, alg@.len() as int) =~= chars@.take(alg@.len() as int));
    let after = char_range(&chars, alg.len(), chars.len());
    assert(after@ =~= value@.skip(algorithm().len() as int));
    let rest = trim_start_chars(&after);
    let rest_text = string_from_chars(&rest);
    let parts = split_char(rest_text.as_str(), ',');
    let ghost ps = views(parts@);
    let mut credential: Option<String> = None;
    let mut signed_headers: Option<Vec<String>> = None;
    let mut signature: Option<String> = None;
    let mut i: usize = 0;
    assert(ps.take(0) =~= Seq::<Seq<char>>::empty());
    while i < parts.len()
        invariant
            i <= parts.len(),
            ps == views(parts@),
            ps == split_on(trim_start(value@.skip(algorithm().len() as int)), ','),
            spec_starts_with(value@, algorithm()),
            auth_fields(ps.take(i as int)) == Some((ov(credential), ovs(signed_headers), ov(signature))),
        decreases parts.len() - i,
    {
        assert(ps.take(i + 1).drop_last() =~= ps.take(i as int));
        assert(ps.take(i + 1).last() == parts@[i as int]@);
        let p = chars_of(parts[i].as_str());
        let t = trim_chars(&p);
        match split_once_chars(&t, '=') {
            None => {
                proof {
                    lemma_auth_fields_none(ps, i as int);
                }
                return None;
            },
            Some((k, v)) => {
                let key = string_from_chars(&k);
                let val = string_from_chars(&v);
                if str_eq(key.as_str(), "Credential") {
                    credential = Some(val);
                } else if str_eq(key.as_str(), "SignedHeaders") {
                    signed_headers = Some(split_char(val.as_str(), ';'));
                } else if str_eq(key.as_str(), "Signature") {
                    signature = Some(val);
                }
            },
        }
        i = i + 1;
    }
    assert(ps.take(i as int) =~= ps);
    match (credential, signed_headers, signature) {
        (Some(c), Some(h), Some(g)) => Some((c, h, g)),
        _ => None,
    }
}

/// A header of a request: its name, in lower case as the HTTP layer keeps
/// header names, and its raw value.
pub struct Header {
    pub name: String,
    pub value: Vec<u8>,
}

/// What a signature covers of a request: the method, the path, the query
/// string if there is one, and the headers in the order they came.
pub struct SignedRequest {
    pub method: String,
    pub path: String,
    pub query: Option<String>,
    pub headers: Vec<Header>,
}

/// `c` in lower case when it is an ASCII capital.
pub open spec fn lower_char(c: char) -> char {
    if 'A' <= c && c <= 'Z' {
        ((c as u32) + 32) as char
    } else {
        c
    }
}

/// `s` with its ASCII capitals in lower case.
pub open spec fn ascii_lower(s: Seq<char>) -> Seq<char> {
    Seq::new(s.len(), |i: int| lower_char(s[i]))
}

/// The value of the first header named `name`, compared without regard
/// to ASCII case.
pub open spec fn header_value(hs: Seq<Header>, name: Seq<char>) -> Option<Seq<u8>>
    decreases hs.len(),
{
    if hs.len() == 0 {
        None
    } else if hs[0].name@ == ascii_lower(name) {
        Some(hs[0].value@)
    } else {
        header_value(hs.drop_first(), name)
    }
}

/// Whether `b` may stand in a header value read as text: visible ASCII or
/// a tab.
pub open spec fn visible_ascii(b: u8) -> bool {
    (32 <= b && b < 127) || b == 9
}

/// A header value as text: `None` unless every byte is visible ASCII or a
/// tab (http's `HeaderValue::to_str`).
pub open spec fn header_text(v: Seq<u8>) -> Option<Seq<char>> {
    if forall|i: int| 0 <= i < v.len() ==> visible_ascii(#[trigger] v[i]) {
        Some(Seq::new(v.len(), |i: int| v[i] as char))
    } else {
        None
    }
}

/// The text of the first header named `name`, if it has one.
pub open spec fn header_str(hs: Seq<Header>, name: Seq<char>) -> Option<Seq<char>> {
    match header_value(hs, name) {
        Some(v) => header_text(v),
        None => None,
    }
}

/// `c` in lower case when it is an ASCII capital.
fn to_lower(c: char) -> (res: char)
    ensures
        res == lower_char(c),
{
    if 'A' <= c && c <= 'Z' {
        ((c as u8) + 32) as char
    } else {
        c
    }
}

/// The text of the first header named `name`.
pub fn find_header(hs: &Vec<Header>, name: &str) -> (res: Option<String>)
    ensures
        ov(res) == header_str(hs@, name@),
{
    let n = chars_of(name);
    let mut lower: Vec<char> = Vec::new();
    let mut k: usize = 0;
    while k < n.len()
        invariant
            k <= n.len(),
            n@ == name@,
            lower@ == ascii_lower(name@).take(k as int),
        decreases n.len() - k,
    {
        lower.push(to_lower(n[k]));
        assert(ascii_lower(name@).take(k + 1) =~= ascii_lower(name@).take(k as int).push(lower_char(n@[k as int])));
        k = k + 1;
    }
    assert(ascii_lower(name@).take(k as int) =~= ascii_lower(name@));
    let mut i: usize = 0;
    assert(hs@.skip(0) =~= hs@);
    while i < hs.len()
        invariant
            i <= hs.len(),
            lower@ == ascii_lower(name@),
            header_value(hs@, name@) == header_value(hs@.skip(i as int), name@),
        decreases hs.len() - i,
    {
        assert(hs@.skip(i as int)[0] == hs@[i as int]);
        assert(hs@.skip(i as int).drop_first() =~= hs@.skip(i + 1));
        let hn = chars_of(hs[i].name.as_str());
        if chars_eq(&hn, &lower) {
            return header_text_of(&hs[i].value);
        }
        i = i + 1;
    }
    None
}

/// A header value as text.
fn header_text_of(v: &Vec<u8>) -> (res: Option<String>)
    ensures
        ov(res) == header_text(v@),
{
    let mut out: Vec<char> = Vec::new();
    let mut i: usize = 0;
    while i < v.len()
        invariant
            i <= v.len(),
            forall|j: int| 0 <= j < i ==> visible_ascii(#[trigger] v@[j]),
            out@ == Seq::new(i as nat, |j: int| v@[j] as char),
        decreases v.len() - i,
    {
        let b = v[i];
        if !((32 <= b && b < 127) || b == 9) {
            assert(!visible_ascii(v@[i as int]));
            return None;
        }
        out.push(b as char);
        assert(out@ =~= Seq::new((i + 1) as nat, |j: int| v@[j] as char));
        i = i + 1;
    }
    assert(out@ =~= Seq::new(v@.len(), |j: int| v@[j] as char));
    Some(string_from_chars(&out))
}

/// The line feed.
pub open spec fn nl() -> Seq<char> {
    seq!['\n']
}

/// The canonical header lines of a SigV4 request for the signed header
/// names: each name, a colon, its value with runs of whitespace made
/// single spaces, and a line feed; `None` when a signed header is missing
/// or its value is not text.
pub open spec fn canonical_headers(hs: Seq<Header>, signed: Seq<Seq<char>>) -> Option<Seq<char>>
    decreases signed.len(),
{
    if signed.len() == 0 {
        Some(Seq::empty())
    } else {
        match canonical_headers(hs, signed.drop_last()) {
            None => None,
            Some(acc) => match header_str(hs, signed.last()) {
                None => None,
                Some(t) => Some(acc + signed.last() + seq![':'] + collapse_ws(t) + nl()),
            },
        }
    }
}

/// The canonical query string: its `&`-separated pairs sorted and joined
/// again; empty when there is no query.
pub open spec fn spec_canonical_query(query: Option<Seq<char>>) -> Seq<char> {
    match query {
        None => Seq::empty(),
        Some(q) => join(sort_seq(split_on(q, '&')), seq!['&']),
    }
}

/// The canonical query string.
pub fn canonical_query(query: Option<&str>) -> (res: String)
    ensures
        res@ == spec_canonical_query(match query {
            Some(q) => Some(q@),
            None => None,
        }),
{
    match query {
        None => {
            let e = String::new();
            assert(e@ =~= spec_canonical_query(None));
            e
        },
        Some(q) => {
            let pairs = split_char(q, '&');
            let sorted = sort_strings(pairs);
            proof {
                reveal_strlit("&");
                assert("&"@ =~= seq!['&']);
            }
            join_strings(sorted.as_slice(), "&")
        },
    }
}

/// The canonical request of SigV4: method, path, canonical query,
/// canonical headers, the signed header names joined with `;`, and the
/// payload hash, on lines of their own; `None` when a signed header is
/// missing.
pub open spec fn spec_canonical_request(r: SignedRequest, signed: Seq<Seq<char>>, payload_hash: Seq<char>) -> Option<Seq<char>> {
    match canonical_headers(r.headers@, signed) {
        None => None,
        Some(ch) => Some(
            r.method@ + nl() + r.path@ + nl() + spec_canonical_query(ov(r.query)) + nl() + ch + nl() + join(signed, seq![';'])
                + nl() + payload_hash,
        ),
    }
}

/// The canonical request of SigV4 for `req`.
pub fn canonical_request(req: &SignedRequest, signed_headers: &Vec<String>, payload_hash: &str) -> (res: Option<String>)
    ensures
        ov(res) == spec_canonical_request(*req, views(signed_headers@), payload_hash@),
{
    proof {
        reveal_strlit("\n");
        reveal_strlit(":");
    }
    let ghost signed = views(signed_headers@);
    let mut headers: Vec<char> = Vec::new();
    let mut i: usize = 0;
    assert(signed.take(0) =~= Seq::<Seq<char>>::empty());
    while i < signed_headers.len()
        invariant
            i <= signed_headers.len(),
            signed == views(signed_headers@),
            canonical_headers(req.headers@, signed.take(i as int)) == Some(headers@),
        decreases signed_headers.len() - i,
    {
        assert(signed.take(i + 1).drop_last() =~= signed.take(i as int));
        assert(signed.take(i + 1).last() == signed_headers@[i as int]@);
        let name = signed_headers[i].as_str();
        let text = match find_header(&req.headers, name) {
            Some(t) => t,
            None => {
                proof {
                    lemma_canonical_headers_none(req.headers@, signed, i as int);
                }
                return None;
            },
        };
        let tc = chars_of(text.as_str());
        let value = collapse_whitespace(&tc);
        let nc = chars_of(name);
        let ghost before = headers@;
        push_all(&mut headers, &nc);
        headers.push(':');
        push_all(&mut headers, &value);
        headers.push('\n');
        assert(headers@ =~= before + name@ + seq![':'] + collapse_ws(text@) + nl());
        i = i + 1;
    }
    assert(signed.take(i as int) =~= signed);
    let query: Option<&str> = match &req.query {
        Some(q) => Some(q.as_str()),
        None => None,
    };
    assert(match query {
        Some(q) => Some(q@),
        None => None,
    } == ov(req.query));
    let cq = canonical_query(query);
    assert(cq@ == spec_canonical_query(ov(req.query)));
    let names = join_strings(signed_headers.as_slice(), ";");
    proof {
        reveal_strlit(";");
        assert(";"@ =~= seq![';']);
    }
    assert(names@ == join(signed, seq![';']));
    let mut out: Vec<char> = chars_of(req.method.as_str());
    out.push('\n');
    push_all(&mut out, &chars_of(req.path.as_str()));
    out.push('\n');
    push_all(&mut out, &chars_of(cq.as_str()));
    out.push('\n');
    push_all(&mut out, &headers);
    out.push('\n');
    push_all(&mut out, &chars_of(names.as_str()));
    out.push('\n');
    push_all(&mut out, &chars_of(payload_hash));
    assert(out@ =~= req.method@ + nl() + req.path@ + nl() + spec_canonical_query(ov(req.query)) + nl() + headers@ + nl()
        + join(signed, seq![';']) + nl() + payload_hash@);
    Some(string_from_chars(&out))
}

/// A missing signed header spoils every longer list of names.
proof fn lemma_canonical_headers_none(hs: Seq<Header>, signed: Seq<Seq<char>>, i: int)
    requires
        0 <= i < signed.len(),
        canonical_headers(hs, signed.take(i + 1)) is None,
    ensures
        canonical_headers(hs, signed) is None,
    decreases signed.len() - i,
{
    if i + 1 < signed.len() {
        assert(signed.take(i + 2).drop_last() =~= signed.take(i + 1));
        lemma_canonical_headers_none(hs, signed, i + 1);
    } else {
        assert(signed.take(i + 1) =~= signed);
    }
}

/// The header block of a SigV4 canonical request for header names
/// `names` with values `values`: one line per header, `name:value`, the
/// value's whitespace runs made single spaces, each line ended by a line
/// feed.
pub open spec fn header_block(names: Seq<Seq<char>>, values: Seq<Seq<char>>) -> Seq<char>
    decreases names.len(),
{
    if names.len() == 0 || values.len() == 0 {
        Seq::empty()
    } else {
        header_block(names.drop_last(), values.drop_last()) + names.last() + seq![':'] + collapse_ws(values.last())
            + seq!['\n']
    }
}

proof fn lemma_canonical_headers_block(hs: Seq<Header>, signed: Seq<Seq<char>>, values: Seq<Seq<char>>)
    requires
        values.len() == signed.len(),
        forall|i: int| 0 <= i < signed.len() ==> header_str(hs, #[trigger] signed[i]) == Some(values[i]),
    ensures
        canonical_headers(hs, signed) == Some(header_block(signed, values)),
    decreases signed.len(),
{
    if signed.len() > 0 {
        let d = signed.drop_last();
        assert forall|i: int| 0 <= i < d.len() implies header_str(hs, #[trigger] d[i]) == Some(values.drop_last()[i]) by {
            assert(d[i] == signed[i]);
        }
        lemma_canonical_headers_block(hs, d, values.drop_last());
        assert(header_str(hs, signed[signed.len() - 1]) == Some(values[values.len() - 1]));
    }
}

/// The SigV4 layout of a canonical request: the method, the path and the
/// canonical query each on a line; then one `name:value` line per signed
/// header, in the order given; then an empty line; then the signed header
/// names joined with `;` on a line; then the payload hash. With no query
/// the query line is empty, so the path is followed by two line feeds.
pub proof fn lemma_canonical_request_layout(r: SignedRequest, signed: Seq<Seq<char>>, values: Seq<Seq<char>>, payload_hash: Seq<char>)
    requires
        values.len() == signed.len(),
        forall|i: int| 0 <= i < signed.len() ==> header_str(r.headers@, #[trigger] signed[i]) == Some(values[i]),
    ensures
        spec_canonical_request(r, signed, payload_hash) == Some(
            r.method@ + seq!['\n'] + r.path@ + seq!['\n'] + spec_canonical_query(ov(r.query)) + seq!['\n']
                + header_block(signed, values) + seq!['\n'] + join(signed, seq![';']) + seq!['\n'] + payload_hash,
        ),
        r.query is None ==> spec_canonical_request(r, signed, payload_hash) == Some(
            r.method@ + seq!['\n'] + r.path@ + seq!['\n', '\n'] + header_block(signed, values) + seq!['\n']
                + join(signed, seq![';']) + seq!['\n'] + payload_hash,
        ),
{
    lemma_canonical_headers_block(r.headers@, signed, values);
    if r.query is None {
        assert(spec_canonical_query(ov(r.query)) =~= Seq::<char>::empty());
        assert(r.method@ + seq!['\n'] + r.path@ + seq!['\n'] + spec_canonical_query(ov(r.query)) + seq!['\n']
            + header_block(signed, values) + seq!['\n'] + join(signed, seq![';']) + seq!['\n'] + payload_hash
            =~= r.method@ + seq!['\n'] + r.path@ + seq!['\n', '\n'] + header_block(signed, values) + seq!['\n']
                + join(signed, seq![';']) + seq!['\n'] + payload_hash);
    }
}

} // verus!
