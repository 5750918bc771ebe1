use vout::auth::{check_signed_request, finish_signed_request, new_account_record, AccountRecord, AuthPlan, UtcTime};
use vout::error::ErrorCode;
use vout::hex::hex_encode;
use vout::sigv4::{canonical_query, hmac_sha256, parse_authorization, sigv4_key, Header, SignedRequest};

const KEY: [u8; 32] = [9u8; 32];
const NOW: UtcTime = UtcTime { secs: 1704067230, nanos: 500 };

fn request(signature: &str, date_header: &str) -> SignedRequest {
    let auth = format!(
        "AWS4-HMAC-SHA256 Credential=local-access-key/20240101/local/ssm/aws4_request, SignedHeaders=host;x-amz-date, Signature={signature}"
    );
    SignedRequest {
        method: "POST".to_owned(),
        path: "/".to_owned(),
        query: None,
        headers: vec![
            Header { name: "host".to_owned(), value: b"127.0.0.1:4566".to_vec() },
            Header { name: "x-amz-date".to_owned(), value: date_header.as_bytes().to_vec() },
            Header { name: "authorization".to_owned(), value: auth.into_bytes() },
        ],
    }
}

fn account() -> AccountRecord {
    new_account_record(&KEY, "local-access-key", "local-secret-key", NOW, None).unwrap()
}

fn signature_for(plan: &AuthPlan, secret: &str) -> String {
    let k = sigv4_key(secret, &plan.date, &plan.region, &plan.service);
    hex_encode(&hmac_sha256(&k, plan.string_to_sign.as_bytes()))
}

#[test]
fn hmac_sha256_matches_rfc_4231() {
    let mac = hmac_sha256(b"Jefe", b"what do ya want for nothing?");
    assert_eq!(hex_encode(&mac), "5bdcc146bf60754e6a042426089575c75a003f089d2739839dec58b964ec3843");
    let long_key = [0xaau8; 131];
    let mac = hmac_sha256(&long_key, b"Test Using Larger Than Block-Size Key - Hash Key First");
    assert_eq!(hex_encode(&mac), "60e431591ee0b67f0d8a26aacbf5b77f8e0bc6213728c5140546040f0ee37f54");
}

#[test]
fn sigv4_key_matches_the_documented_example() {
    let k = sigv4_key("wJalrXUtnFEMI/K7MDENG+bPxRfiCYEXAMPLEKEY", "20120215", "us-east-1", "iam");
    assert_eq!(hex_encode(&k), "f4780e2d9f65fa895f9c67b32ce1baf0b0d8a43505a000a1a9e090d414db404d");
}

#[test]
fn parse_authorization_reads_the_three_parts() {
    let (c, h, s) = parse_authorization("AWS4-HMAC-SHA256   Credential=a/b/c/d/e,SignedHeaders=host;x-amz-date , Signature=ff").unwrap();
    assert_eq!(c, "a/b/c/d/e");
    assert_eq!(h, vec!["host".to_owned(), "x-amz-date".to_owned()]);
    assert_eq!(s, "ff");
    assert!(parse_authorization("Basic abc").is_none());
    assert!(parse_authorization("AWS4-HMAC-SHA256 Credential=a, Signature=b").is_none());
    assert!(parse_authorization("AWS4-HMAC-SHA256 Credential=a, junk, SignedHeaders=h, Signature=b").is_none());
}

#[test]
fn canonical_query_sorts_pairs() {
    assert_eq!(canonical_query(Some("b=2&a=1&c=")), "a=1&b=2&c=");
    assert_eq!(canonical_query(None), "");
}

#[test]
fn a_request_signed_with_the_secret_is_accepted() {
    let probe = check_signed_request(&request("00", "20240101T000000Z"), b"{}", NOW).unwrap();
    assert_eq!(probe.access_key, "local-access-key");
    assert!(probe.string_to_sign.starts_with("AWS4-HMAC-SHA256\n20240101T000000Z\n20240101/local/ssm/aws4_request\n"));
    let sig = signature_for(&probe, "local-secret-key");
    let plan = check_signed_request(&request(&sig, "20240101T000000Z"), b"{}", NOW).unwrap();
    let acc = account();
    assert_ne!(acc.secret_key, "local-secret-key");
    assert!(finish_signed_request(&KEY, &plan, Some(&acc), NOW).is_ok());
}

#[test]
fn a_wrong_signature_is_refused() {
    let probe = check_signed_request(&request("00", "20240101T000000Z"), b"{}", NOW).unwrap();
    let sig = signature_for(&probe, "another-secret");
    let plan = check_signed_request(&request(&sig, "20240101T000000Z"), b"{}", NOW).unwrap();
    let err = finish_signed_request(&KEY, &plan, Some(&account()), NOW).unwrap_err();
    assert_eq!(err.code, ErrorCode::InvalidParameter);
    assert_eq!(err.message, "The request signature we calculated does not match the signature you provided.");
    let plan = check_signed_request(&request("zz", "20240101T000000Z"), b"{}", NOW).unwrap();
    let err = finish_signed_request(&KEY, &plan, Some(&account()), NOW).unwrap_err();
    assert_eq!(err.message, "Invalid request signature.");
}

#[test]
fn unknown_and_expired_accounts_are_refused() {
    let plan = check_signed_request(&request("00", "20240101T000000Z"), b"{}", NOW).unwrap();
    let err = finish_signed_request(&KEY, &plan, None, NOW).unwrap_err();
    assert_eq!(err.message, "The security token included in the request is invalid.");
    let expired = new_account_record(&KEY, "local-access-key", "local-secret-key", NOW, Some(NOW)).unwrap();
    let err = finish_signed_request(&KEY, &plan, Some(&expired), NOW).unwrap_err();
    assert_eq!(err.message, "The security token included in the request is expired.");
    let other_key = [1u8; 32];
    let err = finish_signed_request(&other_key, &plan, Some(&account()), NOW).unwrap_err();
    assert_eq!(err.message, "The security token included in the request is invalid.");
}

#[test]
fn first_checks_refuse_bad_requests() {
    let mut r = request("00", "20240101T000000Z");
    r.headers.pop();
    assert_eq!(check_signed_request(&r, b"", NOW).unwrap_err().message, "Missing Authorization header.");
    let r = request("00", "20231231T000000Z");
    assert_eq!(check_signed_request(&r, b"", NOW).unwrap_err().message, "Invalid credential date.");
    let r = request("00", "20240101T999999Z");
    assert_eq!(check_signed_request(&r, b"", NOW).unwrap_err().message, "Invalid X-Amz-Date header.");
    let r = request("00", "20240101T010000Z");
    assert_eq!(
        check_signed_request(&r, b"", NOW).unwrap_err().message,
        "Request timestamp is outside the allowed time window."
    );
    let mut r = request("00", "20240101T000000Z");
    r.headers.push(Header { name: "x-amz-content-sha256".to_owned(), value: b"abc".to_vec() });
    assert_eq!(check_signed_request(&r, b"", NOW).unwrap_err().message, "Invalid payload hash.");
    let mut r = request("00", "20240101T000000Z");
    r.headers.remove(0);
    assert_eq!(check_signed_request(&r, b"", NOW).unwrap_err().message, "Signed header is missing.");
    let mut r = request("00", "20240101T000000Z");
    r.headers[2].value = b"AWS4-HMAC-SHA256 Credential=a/b/c/s3/aws4_request, SignedHeaders=host, Signature=00".to_vec();
    assert_eq!(check_signed_request(&r, b"", NOW).unwrap_err().message, "Invalid credential service.");
    r.headers[2].value = b"AWS4-HMAC-SHA256 Credential=a/b/c, SignedHeaders=host, Signature=00".to_vec();
    assert_eq!(check_signed_request(&r, b"", NOW).unwrap_err().message, "Invalid credential scope.");
    r.headers[2].value = b"AWS4-HMAC-SHA256 nothing".to_vec();
    assert_eq!(check_signed_request(&r, b"", NOW).unwrap_err().message, "Invalid Authorization header.");
}

#[test]
fn payload_hash_of_the_body_is_accepted() {
    let mut r = request("00", "20240101T000000Z");
    r.headers.push(Header {
        name: "x-amz-content-sha256".to_owned(),
        value: b"44136fa355b3678a1146ad16f7e8649e94fb4fc21fe77e8310c060f61caaff8a".to_vec(),
    });
    assert!(check_signed_request(&r, b"{}", NOW).is_ok());
}

#[test]
fn header_values_are_collapsed_in_the_canonical_request() {
    let mut r = request("00", "20240101T000000Z");
    r.headers[0].value = b"  a   b\tc ".to_vec();
    let plan = check_signed_request(&r, b"", NOW).unwrap();
    let mut r2 = request("00", "20240101T000000Z");
    r2.headers[0].value = b"a b c".to_vec();
    let plan2 = check_signed_request(&r2, b"", NOW).unwrap();
    assert_eq!(plan.string_to_sign, plan2.string_to_sign);
}
