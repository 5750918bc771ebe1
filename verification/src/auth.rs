use vstd::prelude::*;
use vstd::utf8::{decode_utf8, encode_utf8, valid_utf8};
use crate::crypto::{base64_decode, base64_encode, decrypt_with_key, encrypt_with_key, spec_base64_decode, spec_decrypt};
use crate::error::{ApiError, ErrorCode, invalid_parameter};
use crate::hex::{hex_decode, hex_encode, lemma_hex_roundtrip, spec_hex_decode, spec_hex_encode};
use crate::sigv4::{
    SignedRequest, algorithm, canonical_request, find_header, header_str, hmac_sha256, nl, parse_authorization, sha256,
    sigv4_key, spec_canonical_request, spec_hmac_sha256, spec_parse_authorization, spec_sha256, spec_sigv4_key,
};
use crate::split::{split_char, split_on};
use crate::store::ov;
use crate::text::{chars_of, concat, push_all, spec_starts_with, starts_with, str_eq, string_from_chars, string_from_utf8, views};

verus! {

/// An instant in UTC: whole seconds since the Unix epoch and the
/// nanoseconds past them.
#[derive(PartialEq, Eq, Structural, Clone, Copy, Debug)]
pub struct UtcTime {
    pub secs: i64,
    pub nanos: u32,
}

/// Whether `a` is not later than `b`.
pub open spec fn time_le(a: UtcTime, b: UtcTime) -> bool {
    a.secs < b.secs || (a.secs == b.secs && a.nanos <= b.nanos)
}

/// The current time (chrono's `Utc::now`, read with `timestamp` and
/// `timestamp_subsec_nanos`). Nothing is stated of it: it is the clock's.
#[verifier::external_body]
fn utc_now() -> UtcTime {
    let now = chrono::Utc::now();
    UtcTime { secs: now.timestamp(), nanos: now.timestamp_subsec_nanos() }
}

/// What chrono's `NaiveDateTime::parse_from_str(text, format)` gives, read
/// as a UTC time in whole seconds since the epoch (`and_utc().timestamp()`);
/// `None` when the text does not parse.
pub uninterp spec fn spec_parse_date_time(text: Seq<char>, format: Seq<char>) -> Option<i64>;

/// Parses `text` with the chrono `format`, as seconds since the epoch in UTC.
#[verifier::external_body]
fn parse_date_time(text: &str, format: &str) -> (res: Option<i64>)
    ensures
        res == spec_parse_date_time(text@, format@),
{
    match chrono::NaiveDateTime::parse_from_str(text, format) {
        Ok(t) => Some(t.and_utc().timestamp()),
        Err(_) => None,
    }
}

/// The format of the `X-Amz-Date` header.
pub open spec fn amz_date_format() -> Seq<char> {
    "%Y%m%dT%H%M%SZ"@
}

/// The distance in whole seconds between `now` and the time `t` (whole
/// seconds), the fraction dropped.
pub open spec fn skew_seconds(now: UtcTime, t: i64) -> int {
    let total: int = (now.secs - t) * 1_000_000_000 + now.nanos;
    (if total >= 0 { total } else { -total }) / 1_000_000_000
}

/// The distance in whole seconds between `now` and `t`.
fn skew(now: UtcTime, t: i64) -> (res: i128)
    ensures
        res == skew_seconds(now, t),
{
    let total: i128 = (now.secs as i128 - t as i128) * 1_000_000_000 + now.nanos as i128;
    let magnitude: i128 = if total >= 0 { total } else { -total };
    magnitude / 1_000_000_000
}

/// The string a SigV4 signature signs: the algorithm, the request time,
/// the credential scope and the hash of the canonical request.
pub open spec fn string_to_sign(amz_date: Seq<char>, date: Seq<char>, region: Seq<char>, service: Seq<char>, hash: Seq<char>) -> Seq<char> {
    algorithm() + nl() + amz_date + nl() + date + seq!['/'] + region + seq!['/'] + service + "/aws4_request"@ + nl() + hash
}

/// What is left to check of a request once its signature is read: the
/// access key to look up, the credential scope, the string it signs and
/// the signature it carries.
#[derive(Debug)]
pub struct AuthPlan {
    pub access_key: String,
    pub date: String,
    pub region: String,
    pub service: String,
    pub string_to_sign: String,
    pub signature: String,
}

/// An `AuthPlan`, as text.
pub struct AuthPlanView {
    pub access_key: Seq<char>,
    pub date: Seq<char>,
    pub region: Seq<char>,
    pub service: Seq<char>,
    pub string_to_sign: Seq<char>,
    pub signature: Seq<char>,
}

impl View for AuthPlan {
    type V = AuthPlanView;

    open spec fn view(&self) -> AuthPlanView {
        AuthPlanView {
            access_key: self.access_key@,
            date: self.date@,
            region: self.region@,
            service: self.service@,
            string_to_sign: self.string_to_sign@,
            signature: self.signature@,
        }
    }
}

/// The most a request's time may differ from the server's, in seconds.
pub open spec fn max_skew() -> int {
    900
}

/// The first check of a SigV4 request, before any account is looked up:
/// the `Authorization` header is read, the credential scope must have
/// five parts ending in `aws4_request` for the `ssm` service, a given
/// payload hash must be the body's, the `X-Amz-Date` header must start
/// with the scope's date, parse, and lie within 900 seconds of `now`, and
/// every signed header must be present. The answer is the plan of the
/// rest, or the message the request is refused with.
pub open spec fn spec_auth_check(r: SignedRequest, body: Seq<u8>, now: UtcTime) -> Result<AuthPlanView, Seq<char>> {
    match header_str(r.headers@, "authorization"@) {
        None => Err("Missing Authorization header."@),
        Some(auth) => match spec_parse_authorization(auth) {
            None => Err("Invalid Authorization header."@),
            Some((credential, signed, signature)) => {
                let parts = split_on(credential, '/');
                let payload_hash = spec_hex_encode(spec_sha256(body));
                if parts.len() != 5 || parts[4] != "aws4_request"@ {
                    Err("Invalid credential scope."@)
                } else if parts[3] != "ssm"@ {
                    Err("Invalid credential service."@)
                } else if header_str(r.headers@, "x-amz-content-sha256"@) is Some && header_str(
                    r.headers@,
                    "x-amz-content-sha256"@,
                ).unwrap() != payload_hash {
                    Err("Invalid payload hash."@)
                } else {
                    match header_str(r.headers@, "x-amz-date"@) {
                        None => Err("Missing X-Amz-Date header."@),
                        Some(amz_date) => if !spec_starts_with(amz_date, parts[1]) {
                            Err("Invalid credential date."@)
                        } else {
                            match spec_parse_date_time(amz_date, amz_date_format()) {
                                None => Err("Invalid X-Amz-Date header."@),
                                Some(t) => if skew_seconds(now, t) > max_skew() {
                                    Err("Request timestamp is outside the allowed time window."@)
                                } else {
                                    match spec_canonical_request(r, signed, payload_hash) {
                                        None => Err("Signed header is missing."@),
                                        Some(cr) => Ok(
                                            AuthPlanView {
                                                access_key: parts[0],
                                                date: parts[1],
                                                region: parts[2],
                                                service: parts[3],
                                                string_to_sign: string_to_sign(
                                                    amz_date,
                                                    parts[1],
                                                    parts[2],
                                                    parts[3],
                                                    spec_hex_encode(spec_sha256(encode_utf8(cr))),
                                                ),
                                                signature,
                                            },
                                        ),
                                    }
                                }
                            }
                        },
                    }
                }
            },
        },
    }
}

/// Whether `res` is the answer `expected` describes, every refusal being
/// an invalid-parameter error with the expected message.
pub open spec fn auth_answer<T: View>(res: Result<T, ApiError>, expected: Result<T::V, Seq<char>>) -> bool {
    match expected {
        Ok(v) => res is Ok && res->Ok_0@ == v,
        Err(m) => res is Err && res->Err_0.is(ErrorCode::InvalidParameter, m),
    }
}

/// The first check of a SigV4 request at time `now`.
pub fn check_signed_request(req: &SignedRequest, body: &[u8], now: UtcTime) -> (res: Result<AuthPlan, ApiError>)
    ensures
        auth_answer(res, spec_auth_check(*req, body@, now)),
{
    let authorization = match find_header(&req.headers, "authorization") {
        Some(a) => a,
        None => return Err(invalid_parameter("Missing Authorization header.")),
    };
    let (credential, signed_headers, signature) = match parse_authorization(authorization.as_str()) {
        Some(p) => p,
        None => return Err(invalid_parameter("Invalid Authorization header.")),
    };
    let parts = split_char(credential.as_str(), '/');
    if parts.len() != 5 || !str_eq(parts[4].as_str(), "aws4_request") {
        proof {
            if parts@.len() == 5 {
                assert(views(parts@)[4] == parts@[4]@);
            }
        }
        return Err(invalid_parameter("Invalid credential scope."));
    }
    assert(views(parts@)[4] == parts@[4]@);
    assert(views(parts@)[3] == parts@[3]@);
    assert(views(parts@)[2] == parts@[2]@);
    assert(views(parts@)[1] == parts@[1]@);
    assert(views(parts@)[0] == parts@[0]@);
    if !str_eq(parts[3].as_str(), "ssm") {
        return Err(invalid_parameter("Invalid credential service."));
    }
    let digest = sha256(body);
    let payload_hash = hex_encode(&digest);
    if let Some(given) = find_header(&req.headers, "x-amz-content-sha256") {
        if !str_eq(given.as_str(), payload_hash.as_str()) {
            return Err(invalid_parameter("Invalid payload hash."));
        }
    }
    let amz_date = match find_header(&req.headers, "x-amz-date") {
        Some(d) => d,
        None => return Err(invalid_parameter("Missing X-Amz-Date header.")),
    };
    if !starts_with(amz_date.as_str(), parts[1].as_str()) {
        return Err(invalid_parameter("Invalid credential date."));
    }
    let t = match parse_date_time(amz_date.as_str(), "%Y%m%dT%H%M%SZ") {
        Some(t) => t,
        None => return Err(invalid_parameter("Invalid X-Amz-Date header.")),
    };
    if skew(now, t) > 900 {
        return Err(invalid_parameter("Request timestamp is outside the allowed time window."));
    }
    let canonical = match canonical_request(req, &signed_headers, payload_hash.as_str()) {
        Some(c) => c,
        None => return Err(invalid_parameter("Signed header is missing.")),
    };
    let canonical_digest = sha256(canonical.as_str().as_bytes());
    let canonical_hash = hex_encode(&canonical_digest);
    proof {
        reveal_strlit("AWS4-HMAC-SHA256");
        reveal_strlit("/aws4_request");
    }
    let mut text: Vec<char> = chars_of("AWS4-HMAC-SHA256");
    text.push('\n');
    push_all(&mut text, &chars_of(amz_date.as_str()));
    text.push('\n');
    push_all(&mut text, &chars_of(parts[1].as_str()));
    text.push('/');
    push_all(&mut text, &chars_of(parts[2].as_str()));
    text.push('/');
    push_all(&mut text, &chars_of(parts[3].as_str()));
    push_all(&mut text, &chars_of("/aws4_request"));
    text.push('\n');
    push_all(&mut text, &chars_of(canonical_hash.as_str()));
    assert(text@ =~= string_to_sign(amz_date@, parts@[1]@, parts@[2]@, parts@[3]@, canonical_hash@));
    let mut parts = parts;
    let service = parts.pop().unwrap();
    let service = parts.pop().unwrap();
    let region = parts.pop().unwrap();
    let date = parts.pop().unwrap();
    let access_key = parts.pop().unwrap();
    Ok(AuthPlan {
        access_key,
        date,
        region,
        service,
        string_to_sign: string_from_chars(&text),
        signature,
    })
}

/// An account as the service keeps it: the access key, the secret key
/// encrypted under the service's key and written in base64, when it was
/// created and when it expires, if ever.
#[derive(Debug)]
pub struct AccountRecord {
    pub access_key: String,
    pub secret_key: String,
    pub created_at: UtcTime,
    pub expires_at: Option<UtcTime>,
}

/// An account record, as text.
pub struct AccountView {
    pub access_key: Seq<char>,
    pub secret_key: Seq<char>,
    pub created_at: UtcTime,
    pub expires_at: Option<UtcTime>,
}

impl View for AccountRecord {
    type V = AccountView;

    open spec fn view(&self) -> AccountView {
        AccountView {
            access_key: self.access_key@,
            secret_key: self.secret_key@,
            created_at: self.created_at,
            expires_at: self.expires_at,
        }
    }
}

/// The text that leads the associated data of an account's secret.
pub open spec fn account_aad_prefix() -> Seq<char> {
    "vout-account-secret"@
}

/// The associated data that binds an encrypted secret key to its account.
pub open spec fn account_secret_aad(access_key: Seq<char>) -> Seq<u8> {
    encode_utf8(account_aad_prefix() + seq!['\0'] + access_key)
}

/// The associated data that binds an encrypted secret key to its account.
fn account_aad(access_key: &str) -> (res: String)
    ensures
        encode_utf8(res@) == account_secret_aad(access_key@),
{
    proof {
        reveal_strlit("vout-account-secret\0");
        reveal_strlit("vout-account-secret");
        assert("vout-account-secret\0"@ =~= account_aad_prefix() + seq!['\0']);
    }
    concat("vout-account-secret\0", access_key)
}

/// Whether account `a` keeps `secret` as its secret key under `key`.
pub open spec fn stores_secret(key: Seq<u8>, a: AccountView, secret: Seq<char>) -> bool {
    match spec_base64_decode(a.secret_key) {
        Some(enc) => spec_decrypt(key, enc, account_secret_aad(a.access_key)) == Some(encode_utf8(secret)),
        None => false,
    }
}

/// The record of a new account with `access_key` and `secret_key`, the
/// secret encrypted under `key`; `None` when the cipher refuses the
/// secret's length.
pub fn new_account_record(key: &[u8; 32], access_key: &str, secret_key: &str, created_at: UtcTime, expires_at: Option<UtcTime>) -> (res: Option<AccountRecord>)
    ensures
        res is Some == (encode_utf8(secret_key@).len() / 64 < 4294967295),
        res matches Some(a) ==> a.access_key@ == access_key@ && a.created_at == created_at && a.expires_at == expires_at
            && stores_secret(key@, a@, secret_key@),
{
    let aad = account_aad(access_key);
    let sealed = match encrypt_with_key(key, secret_key.as_bytes(), aad.as_str().as_bytes()) {
        Some(c) => c,
        None => return None,
    };
    let text = base64_encode(sealed.as_slice());
    Some(AccountRecord { access_key: access_key.to_owned(), secret_key: text, created_at, expires_at })
}

/// The message that refuses an unknown or unreadable account.
pub open spec fn msg_token_invalid() -> Seq<char> {
    "The security token included in the request is invalid."@
}

/// The message that refuses an expired account.
pub open spec fn msg_token_expired() -> Seq<char> {
    "The security token included in the request is expired."@
}

/// The message that refuses a signature that does not match.
pub open spec fn msg_signature_mismatch() -> Seq<char> {
    "The request signature we calculated does not match the signature you provided."@
}

/// The signature a request must carry: HMAC-SHA256 of the string to sign
/// under the SigV4 key of `secret` for the plan's scope.
pub open spec fn expected_signature(secret: Seq<char>, plan: AuthPlanView) -> Seq<u8> {
    spec_hmac_sha256(spec_sigv4_key(secret, plan.date, plan.region, plan.service), encode_utf8(plan.string_to_sign))
}

/// The last check of a SigV4 request, with the account its access key
/// names (if any) and at time `now`: the account must exist and not have
/// expired, its secret must decrypt under `key` to UTF-8, and the
/// signature, read as hexadecimal, must be the expected one.
pub open spec fn spec_auth_finish(key: Seq<u8>, plan: AuthPlanView, account: Option<AccountView>, now: UtcTime) -> Result<(), Seq<char>> {
    match account {
        None => Err(msg_token_invalid()),
        Some(a) => if a.expires_at is Some && time_le(a.expires_at.unwrap(), now) {
            Err(msg_token_expired())
        } else {
            match spec_base64_decode(a.secret_key) {
                None => Err(msg_token_invalid()),
                Some(enc) => match spec_decrypt(key, enc, account_secret_aad(a.access_key)) {
                    None => Err(msg_token_invalid()),
                    Some(b) => if !valid_utf8(b) {
                        Err(msg_token_invalid())
                    } else {
                        match spec_hex_decode(encode_utf8(plan.signature)) {
                            None => Err("Invalid request signature."@),
                            Some(p) => if p != expected_signature(decode_utf8(b), plan) {
                                Err(msg_signature_mismatch())
                            } else {
                                Ok(())
                            },
                        }
                    },
                },
            }
        },
    }
}

/// The view of an account that was looked up, if one was found.
pub open spec fn account_view(account: Option<&AccountRecord>) -> Option<AccountView> {
    match account {
        Some(a) => Some(a@),
        None => None,
    }
}

/// The last check of a SigV4 request with the account looked up for its
/// access key, at time `now`.
pub fn finish_signed_request(key: &[u8; 32], plan: &AuthPlan, account: Option<&AccountRecord>, now: UtcTime) -> (res: Result<(), ApiError>)
    ensures
        match spec_auth_finish(key@, plan@, account_view(account), now) {
            Ok(()) => res is Ok,
            Err(m) => res is Err && res->Err_0.is(ErrorCode::InvalidParameter, m),
        },
{
    let a = match account {
        Some(a) => a,
        None => return Err(invalid_parameter("The security token included in the request is invalid.")),
    };
    if let Some(e) = a.expires_at {
        if e.secs < now.secs || (e.secs == now.secs && e.nanos <= now.nanos) {
            return Err(invalid_parameter("The security token included in the request is expired."));
        }
    }
    let sealed = match base64_decode(a.secret_key.as_str()) {
        Some(b) => b,
        None => return Err(invalid_parameter("The security token included in the request is invalid.")),
    };
    let aad = account_aad(a.access_key.as_str());
    let plain = match decrypt_with_key(key, sealed.as_slice(), aad.as_str().as_bytes()) {
        Some(p) => p,
        None => return Err(invalid_parameter("The security token included in the request is invalid.")),
    };
    let secret = match string_from_utf8(plain) {
        Some(s) => s,
        None => return Err(invalid_parameter("The security token included in the request is invalid.")),
    };
    let signing_key = sigv4_key(secret.as_str(), plan.date.as_str(), plan.region.as_str(), plan.service.as_str());
    let expected = hmac_sha256(&signing_key, plan.string_to_sign.as_str().as_bytes());
    let provided = match hex_decode(plan.signature.as_str()) {
        Some(p) => p,
        None => return Err(invalid_parameter("Invalid request signature.")),
    };
    let mut same = provided.len() == 32;
    let mut i: usize = 0;
    while same && i < 32
        invariant
            i <= 32,
            same ==> provided@.len() == 32,
            same ==> forall|j: int| 0 <= j < i ==> provided@[j] == expected@[j],
            !same ==> provided@ != expected@,
        decreases 32 - i,
    {
        if provided[i] != expected[i] {
            same = false;
        }
        i = i + 1;
    }
    if !same {
        return Err(invalid_parameter("The request signature we calculated does not match the signature you provided."));
    }
    assert(provided@ =~= expected@);
    Ok(())
}

/// Reads the clock and makes the first check of a SigV4 request.
pub fn begin_authentication(req: &SignedRequest, body: &[u8]) -> (res: Result<AuthPlan, ApiError>)
    ensures
        exists|now: UtcTime| auth_answer(res, #[trigger] spec_auth_check(*req, body@, now)),
{
    let now = utc_now();
    check_signed_request(req, body, now)
}

/// Reads the clock and makes the last check of a SigV4 request with the
/// account its access key names.
pub fn finish_authentication(key: &[u8; 32], plan: &AuthPlan, account: Option<&AccountRecord>) -> (res: Result<(), ApiError>)
    ensures
        exists|now: UtcTime| match #[trigger] spec_auth_finish(key@, plan@, account_view(account), now) {
            Ok(()) => res is Ok,
            Err(m) => res is Err && res->Err_0.is(ErrorCode::InvalidParameter, m),
        },
{
    let now = utc_now();
    finish_signed_request(key, plan, account, now)
}

/// A request signed with the secret key its account keeps is accepted,
/// while the account has not expired.
pub proof fn lemma_signed_with_secret_accepted(key: Seq<u8>, plan: AuthPlanView, a: AccountView, secret: Seq<char>, now: UtcTime)
    requires
        stores_secret(key, a, secret),
        !(a.expires_at is Some && time_le(a.expires_at.unwrap(), now)),
        plan.signature == spec_hex_encode(expected_signature(secret, plan)),
    ensures
        spec_auth_finish(key, plan, Some(a), now) == Ok::<(), Seq<char>>(()),
{
    vstd::utf8::encode_utf8_valid_utf8(secret);
    vstd::utf8::encode_utf8_decode_utf8(secret);
    lemma_hex_roundtrip(expected_signature(secret, plan));
}

/// A signature that reads as other bytes than the expected ones is
/// refused, whatever else holds of the account.
pub proof fn lemma_other_signature_refused(key: Seq<u8>, plan: AuthPlanView, a: AccountView, secret: Seq<char>, now: UtcTime, provided: Seq<u8>)
    requires
        stores_secret(key, a, secret),
        !(a.expires_at is Some && time_le(a.expires_at.unwrap(), now)),
        spec_hex_decode(encode_utf8(plan.signature)) == Some(provided),
        provided != expected_signature(secret, plan),
    ensures
        spec_auth_finish(key, plan, Some(a), now) == Err::<(), Seq<char>>(msg_signature_mismatch()),
{
    vstd::utf8::encode_utf8_valid_utf8(secret);
    vstd::utf8::encode_utf8_decode_utf8(secret);
}

/// An account is refused from its expiry on, whatever it is signed with.
pub proof fn lemma_expired_account_refused(key: Seq<u8>, plan: AuthPlanView, a: AccountView, now: UtcTime)
    requires
        a.expires_at is Some,
        time_le(a.expires_at.unwrap(), now),
    ensures
        spec_auth_finish(key, plan, Some(a), now) == Err::<(), Seq<char>>(msg_token_expired()),
{
}

} // verus!
