use vout::account::{access_key, key_from_bytes, secret_key};
use vout::api::{default_request_overwrite, default_request_recursive, default_request_with_decryption};
use vout::config::{
    default_amz_error_on_unsupported, default_concurrent, default_db_dsn, default_listen_address,
    default_max_body_bytes, default_timeout, Server, Span,
};
use vout::crypto::{base64_decode, base64_encode, decrypt_with_key, encrypt_with_key, random_array};
use vout::dbkey::{base64_fixed_decode, decrypt_key, encrypt_key, load_db_key, new_db_key, create_keyring_key, DbKeyError};
use vout::error::{invalid_parameter, ErrorCode, ErrorResponse};
use vout::hex::{hex_decode, hex_encode};
use vout::model::{arn, parse_selector, value_aad, ParameterSelector, ParameterType};
use vout::num::{format_i64, parse_i64, parse_usize};
use vout::paging::{page_bounds, take_page};
use vout::routing::{check_body_chunk, route, Route};
use vout::split::{join_strings, split_char};
use vout::tls::{calculate_certificate_expiration, expiration_at, plan_tls, TlsPlan};
use vout::auth::UtcTime;
use vout::validate::{
    label_limit, max_delete_parameters_names, max_get_parameters_names, path_matches, string_matches,
    valid_label, validate_parameter_name,
};
use vout::values::{decrypt, encode_value, encrypt, Settings};

#[test]
fn hex_round_trip_and_refusals() {
    assert_eq!(hex_encode(&[0x00, 0xab, 0x10]), "00ab10");
    assert_eq!(hex_decode("00AB10"), Some(vec![0x00, 0xab, 0x10]));
    assert_eq!(hex_decode("abc"), None);
    assert_eq!(hex_decode("zz"), None);
}

#[test]
fn numbers_parse_and_format() {
    assert_eq!(parse_usize("42"), Some(42));
    assert_eq!(parse_usize("+7"), Some(7));
    assert_eq!(parse_usize("-1"), None);
    assert_eq!(parse_usize(""), None);
    assert_eq!(parse_i64("-9223372036854775808"), Some(i64::MIN));
    assert_eq!(parse_i64("9223372036854775808"), None);
    assert_eq!(format_i64(-305), "-305");
}

#[test]
fn page_bounds_and_pages() {
    assert_eq!(page_bounds(None, None, 10, 10), Some((0, 10)));
    assert_eq!(page_bounds(Some("5"), Some(0), 10, 10), Some((5, 1)));
    assert_eq!(page_bounds(None, Some(1000), 50, 50), Some((0, 50)));
    assert_eq!(page_bounds(Some("x"), None, 10, 10), None);
    let (page, token) = take_page(vec![1, 2, 3, 4, 5], 1, 2).unwrap();
    assert_eq!(page, vec![2, 3]);
    assert_eq!(token, Some("3".to_owned()));
    let (page, token) = take_page(vec![1, 2, 3], 3, 2).unwrap();
    assert!(page.is_empty());
    assert_eq!(token, None);
    assert!(take_page(vec![1, 2, 3], 4, 2).is_none());
}

#[test]
fn the_next_token_continues_the_listing() {
    let items: Vec<u32> = (0..7).collect();
    let (_, token) = take_page(items.clone(), 0, 3).unwrap();
    let (offset, limit) = page_bounds(token.as_deref(), Some(3), 10, 10).unwrap();
    let (page, _) = take_page(items, offset, limit).unwrap();
    assert_eq!(page, vec![3, 4, 5]);
}

#[test]
fn selectors_name_versions_and_labels() {
    assert!(matches!(parse_selector("a/b"), ParameterSelector::Latest(n) if n == "a/b"));
    match parse_selector("a:12") {
        ParameterSelector::Version { name, version } => {
            assert_eq!(name, "a");
            assert_eq!(version, 12);
        }
        _ => panic!("expected a version"),
    }
    let s = parse_selector("a:prod");
    assert_eq!(s.name(), "a");
    assert_eq!(s.selector(), Some(":prod".to_owned()));
    assert_eq!(parse_selector("a").selector(), None);
}

#[test]
fn names_arns_and_types() {
    assert_eq!(arn("x/y"), "arn:aws:ssm:local:000000000000:parameter/x/y");
    assert_eq!(value_aad("n", 3, "String"), "n\u{0}3\u{0}String");
    assert_eq!(ParameterType::SecureString.as_str(), "SecureString");
    assert_eq!(ParameterType::StringList.as_str(), "StringList");
}

#[test]
fn validation_rules() {
    assert!(valid_label("prod-1.x_y"));
    assert!(!valid_label("1prod"));
    assert!(!valid_label(""));
    assert!(!valid_label(&"a".repeat(101)));
    assert!(validate_parameter_name("ok/name").is_none());
    assert!(validate_parameter_name(&"n".repeat(2049)).is_some());
    assert_eq!(max_get_parameters_names(), 10);
    assert_eq!(max_delete_parameters_names(), 10);
    assert_eq!(label_limit(), 10);
    assert!(path_matches("a/b", "a", false));
    assert!(!path_matches("a/b/c", "a", false));
    assert!(path_matches("a/b/c", "a/", true));
    assert!(!path_matches("ab", "a", true));
    let vals = vec!["St".to_owned()];
    assert!(string_matches("String", "BeginsWith", &vals));
    assert!(!string_matches("String", "Equals", &vals));
    assert!(string_matches("anything", "Equals", &[]));
    assert!(!string_matches("String", "Other", &vals));
}

#[test]
fn error_answers() {
    let e = invalid_parameter("bad");
    assert_eq!(e.status(), 400);
    let r = ErrorResponse::new(&e);
    assert_eq!(r.error_type, "InvalidParameterException");
    assert_eq!(r.message, "bad");
    assert_eq!(ErrorCode::InvalidNextToken.as_str(), "InvalidNextTokenException");
    assert_eq!(ErrorCode::InvalidAllowedPattern.as_str(), "InvalidAllowedPatternException");
}

#[test]
fn values_encrypt_and_decrypt() {
    let settings = Settings { db_key: [5u8; 32] };
    let ct = encrypt(&settings, b"hello", b"aad").unwrap();
    assert_eq!(ct.len(), 1 + 12 + 5 + 16);
    assert_ne!(&ct[13..18], b"hello");
    assert_eq!(decrypt(&settings, &ct, b"aad"), Some(b"hello".to_vec()));
    assert_eq!(decrypt(&settings, &ct, b"other"), None);
    assert_eq!(decrypt_with_key(&[6u8; 32], &ct, b"aad"), None);
    let mut bad = ct.clone();
    bad[0] = 2;
    assert_eq!(decrypt(&settings, &bad, b"aad"), None);
    assert!(encrypt_with_key(&[0u8; 32], b"", b"").is_some());
    let stored = encode_value("plain", "n", 1, ParameterType::String, &[0u8; 32]).unwrap();
    assert_eq!(stored, b"plain".to_vec());
}

#[test]
fn base64_round_trip() {
    assert_eq!(base64_encode(b"hi"), "aGk=");
    assert_eq!(base64_decode("aGk="), Some(b"hi".to_vec()));
    assert_eq!(base64_decode("%%"), None);
    assert_eq!(base64_fixed_decode::<2>("aGk="), Some(*b"hi"));
    assert_eq!(base64_fixed_decode::<3>("aGk="), None);
}

#[test]
fn random_keys_have_the_asked_length() {
    let a: [u8; 16] = random_array();
    assert_eq!(a.len(), 16);
    let k = access_key();
    assert_eq!(k.chars().count(), 32);
    assert!(k.chars().all(|c| c.is_ascii_alphanumeric()));
    assert_eq!(secret_key().len(), 32);
    assert_eq!(key_from_bytes(&[0, 25, 26, 61, 62, 255]), "AZa9AH");
}

#[test]
fn database_key_round_trip() {
    let made = new_db_key();
    let key = load_db_key(&made.stored_key, &made.keyring_secret).unwrap();
    assert_eq!(key.len(), 32);
    let other = base64_encode(&[1u8; 32]);
    assert_eq!(load_db_key(&made.stored_key, &other), Err(DbKeyError::UnwrapFailed));
    assert_eq!(load_db_key(&made.stored_key, "AAAA"), Err(DbKeyError::InvalidKeyringKey));
    assert_eq!(load_db_key("%%", &made.keyring_secret), Err(DbKeyError::InvalidStoredKey));
    let (secret, public) = create_keyring_key();
    let wrapped = encrypt_key(&[4u8; 32], &public);
    assert_eq!(wrapped.len(), 92);
    assert_eq!(&wrapped[32..44], &[0u8; 12]);
    assert_eq!(decrypt_key(&wrapped, &secret), Some(vec![4u8; 32]));
    assert_eq!(decrypt_key(&wrapped[..44], &secret), None);
}

#[test]
fn configuration_defaults() {
    assert_eq!(default_listen_address(), "127.0.0.1:4566");
    assert_eq!(default_concurrent(), 50);
    assert_eq!(default_timeout(), Span { secs: 30, nanos: 0 });
    assert_eq!(default_max_body_bytes(), 1048576);
    assert_eq!(default_db_dsn(), "sqlite::memory:");
    assert!(default_amz_error_on_unsupported());
    let s = Server::default();
    assert_eq!(s.listen_address, "127.0.0.1:4566");
    assert!(s.tls.is_none());
    assert_eq!(s.max_body_bytes, 1048576);
    assert!(!default_request_with_decryption());
    assert!(!default_request_recursive());
    assert!(!default_request_overwrite());
}

#[test]
fn routes() {
    assert_eq!(route(None, "/health", "GET"), Route::Health);
    assert_eq!(route(None, "/ready", "GET"), Route::Ready);
    assert_eq!(route(None, "/ready", "POST"), Route::Unknown);
    assert_eq!(route(Some("AmazonSSM.PutParameter"), "/", "POST"), Route::PutParameter);
    assert_eq!(route(Some("AmazonSSM.GetParametersByPath"), "/", "POST"), Route::GetParametersByPath);
    assert_eq!(route(Some("AmazonSSM.Nope"), "/", "POST"), Route::Unknown);
}

#[test]
fn body_limit() {
    assert!(check_body_chunk(10, 5, 15).is_none());
    let e = check_body_chunk(10, 6, 15).unwrap();
    assert_eq!(e.message, "Request body is too large.");
    assert!(check_body_chunk(u64::MAX, u64::MAX, u64::MAX).is_some());
}

#[test]
fn certificates() {
    let t = UtcTime { secs: 100, nanos: 0 };
    assert_eq!(expiration_at(t, UtcTime { secs: 99, nanos: 7 }), Some(100));
    assert_eq!(expiration_at(t, UtcTime { secs: 100, nanos: 1 }), None);
    assert_eq!(plan_tls(None), TlsPlan::Expired);
    assert_eq!(plan_tls(Some(-1)), TlsPlan::BeforeEpoch);
    assert_eq!(plan_tls(Some(5)), TlsPlan::Serve(5));
    assert_eq!(calculate_certificate_expiration(b"not a certificate"), None);
}

#[test]
fn splitting_and_joining() {
    assert_eq!(split_char("a,,b", ','), vec!["a".to_owned(), String::new(), "b".to_owned()]);
    assert_eq!(split_char("", ','), vec![String::new()]);
    let parts = vec!["x".to_owned(), "y".to_owned()];
    assert_eq!(join_strings(&parts, "; "), "x; y");
}

#[test]
fn formatted_numbers_parse_back() {
    for n in [0u64, 7, 10, 123456789, u64::MAX] {
        assert_eq!(vout::num::parse_usize(&vout::num::format_u64(n)), Some(n as usize));
    }
    assert_eq!(parse_i64(&format_i64(i64::MIN)), Some(i64::MIN));
}

#[test]
fn selectors_rebuild_the_requested_name() {
    for text in ["a/b", "a:prod", "arn:x", "a:", "a:b:c", ":x"] {
        let s = parse_selector(text);
        assert!(!matches!(s, ParameterSelector::Version { .. }));
        assert_eq!(format!("{}{}", s.name(), s.selector().unwrap_or_default()), text);
    }
    let s = parse_selector("a:+07");
    assert!(matches!(s, ParameterSelector::Version { version: 7, .. }));
    assert_eq!(s.selector(), Some(":7".to_owned()));
}

#[test]
fn encrypted_values_carry_their_frame() {
    let settings = Settings { db_key: [9u8; 32] };
    let ct = encrypt(&settings, b"abc", b"x").unwrap();
    assert_eq!(ct.len(), 3 + 29);
    assert_eq!(ct[0], 1);
}
