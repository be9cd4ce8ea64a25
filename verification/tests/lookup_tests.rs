use breach_lookup::digest::hash_password;
use breach_lookup::digest::split_digest;
use breach_lookup::errors::LookupError;
use breach_lookup::hex::to_upper_hex;
use breach_lookup::lookup::{evaluate_response, lookup_outcome, query_prefix};
use breach_lookup::record::{breach_result_of, extract_credential, BreachResult, CredentialRecord};

const PASSWORD_DIGEST: &[u8] = b"5BAA61E4C9B93F3F0682250B6CF8331B7EE68FD8";
const PASSWORD_SUFFIX: &[u8] = b"1E4C9B93F3F0682250B6CF8331B7EE68FD8";

#[test]
fn hash_of_password_is_known_digest() {
    let h = hash_password(b"password");
    assert_eq!(h, PASSWORD_DIGEST.to_vec());
}

#[test]
fn hash_is_forty_uppercase_hex_for_any_password() {
    for pw in [&b"hello"[..], b"", b"\xff\x00\xfe", b"correct horse battery staple"] {
        let h = hash_password(pw);
        assert_eq!(h.len(), 40);
        assert!(h.iter().all(|b| (b'0'..=b'9').contains(b) || (b'A'..=b'F').contains(b)));
    }
}

#[test]
fn split_gives_prefix_five_suffix_thirty_five() {
    let h = hash_password(b"password");
    let (prefix, suffix) = split_digest(&h);
    assert_eq!(prefix, b"5BAA6".to_vec());
    assert_eq!(suffix, PASSWORD_SUFFIX.to_vec());
    let mut rejoined = prefix.clone();
    rejoined.extend_from_slice(&suffix);
    assert_eq!(rejoined, h);
}

#[test]
fn query_prefix_is_first_five_digest_chars() {
    assert_eq!(query_prefix(b"password"), b"5BAA6".to_vec());
}

#[test]
fn to_upper_hex_renders_bytes() {
    assert_eq!(to_upper_hex(&[0x5B, 0xAA, 0x0F, 0x00]), b"5BAA0F00".to_vec());
    assert_eq!(to_upper_hex(&[]), Vec::<u8>::new());
}

#[test]
fn matching_line_returns_its_count() {
    let body = b"0018A45C4D1DEF81644B54AB7F969B88D65:1\n\
                 1E4C9B93F3F0682250B6CF8331B7EE68FD8:3730471\n\
                 011053FD0102E94D6AE2F8B83D76FAF94F6:5";
    assert_eq!(lookup_outcome(b"password", 200, body), Ok(3730471));
}

#[test]
fn absent_suffix_returns_zero() {
    let body = b"0018A45C4D1DEF81644B54AB7F969B88D65:1\n\
                 011053FD0102E94D6AE2F8B83D76FAF94F6:5";
    assert_eq!(lookup_outcome(b"password", 200, body), Ok(0));
}

#[test]
fn empty_body_returns_zero() {
    assert_eq!(lookup_outcome(b"password", 200, b""), Ok(0));
}

#[test]
fn non_numeric_count_on_matching_line_is_parse_error() {
    let body = b"1E4C9B93F3F0682250B6CF8331B7EE68FD8:abc";
    assert_eq!(lookup_outcome(b"password", 200, body), Err(LookupError::ParseError));
}

#[test]
fn empty_count_on_matching_line_is_parse_error() {
    let body = b"1E4C9B93F3F0682250B6CF8331B7EE68FD8:";
    assert_eq!(lookup_outcome(b"password", 200, body), Err(LookupError::ParseError));
}

#[test]
fn count_too_large_for_u32_is_parse_error() {
    let body = b"1E4C9B93F3F0682250B6CF8331B7EE68FD8:4294967296";
    assert_eq!(lookup_outcome(b"password", 200, body), Err(LookupError::ParseError));
}

#[test]
fn count_at_u32_max_still_parses() {
    let body = b"1E4C9B93F3F0682250B6CF8331B7EE68FD8:4294967295";
    assert_eq!(lookup_outcome(b"password", 200, body), Ok(u32::MAX));
}

#[test]
fn non_success_status_is_service_error() {
    let body = b"1E4C9B93F3F0682250B6CF8331B7EE68FD8:3730471";
    assert_eq!(
        lookup_outcome(b"password", 503, body),
        Err(LookupError::ServiceError { status: 503 })
    );
    assert_eq!(
        lookup_outcome(b"password", 404, b""),
        Err(LookupError::ServiceError { status: 404 })
    );
}

#[test]
fn suffix_match_is_case_insensitive() {
    let body = b"1e4c9b93f3f0682250b6cf8331b7ee68fd8:42";
    assert_eq!(lookup_outcome(b"password", 200, body), Ok(42));
}

#[test]
fn duplicate_suffix_lines_first_occurrence_wins() {
    let body = b"1E4C9B93F3F0682250B6CF8331B7EE68FD8:7\n\
                 1E4C9B93F3F0682250B6CF8331B7EE68FD8:9";
    assert_eq!(lookup_outcome(b"password", 200, body), Ok(7));
}

#[test]
fn malformed_other_line_is_skipped() {
    let body = b"no colon on this line\n\
                 1E4C9B93F3F0682250B6CF8331B7EE68FD8:12\n";
    assert_eq!(lookup_outcome(b"password", 200, body), Ok(12));
}

#[test]
fn crlf_line_endings_are_tolerated() {
    let body = b"0018A45C4D1DEF81644B54AB7F969B88D65:1\r\n\
                 1E4C9B93F3F0682250B6CF8331B7EE68FD8:3730471\r\n";
    assert_eq!(lookup_outcome(b"password", 200, body), Ok(3730471));
}

#[test]
fn repeated_lookup_gives_same_result() {
    let body = b"1E4C9B93F3F0682250B6CF8331B7EE68FD8:3730471";
    let first = lookup_outcome(b"password", 200, body);
    let second = lookup_outcome(b"password", 200, body);
    assert_eq!(first, second);
    assert_eq!(first, Ok(3730471));
}

#[test]
fn evaluate_response_takes_any_suffix() {
    let body = b"ABCDE:3";
    assert_eq!(evaluate_response(200, body, b"abcde"), Ok(3));
    assert_eq!(evaluate_response(200, body, b"ABCDE"), Ok(3));
    assert_eq!(evaluate_response(200, body, b"EDCBA"), Ok(0));
    assert_eq!(
        evaluate_response(500, body, b"ABCDE"),
        Err(LookupError::ServiceError { status: 500 })
    );
}

#[test]
fn extraction_requires_login_username_and_password() {
    let r = extract_credential(
        "site".to_string(),
        Some((Some("user".to_string()), Some("pw".to_string()))),
    );
    let rec = r.expect("complete login must yield a record");
    assert_eq!(rec.name, "site");
    assert_eq!(rec.username, "user");
    assert_eq!(rec.password, "pw");

    assert!(extract_credential("site".to_string(), None).is_none());
    assert!(extract_credential("site".to_string(), Some((None, Some("pw".to_string())))).is_none());
    assert!(
        extract_credential("site".to_string(), Some((Some("user".to_string()), None))).is_none()
    );
}

#[test]
fn pairing_keeps_record_and_count() {
    let rec = CredentialRecord {
        name: "site".to_string(),
        username: "user".to_string(),
        password: "password".to_string(),
    };
    let paired = BreachResult::pair(rec, 3);
    assert_eq!(paired.record.name, "site");
    assert_eq!(paired.breach_count, 3);
    assert!(paired.is_breached());
    let rec2 = CredentialRecord {
        name: "other".to_string(),
        username: "user".to_string(),
        password: "unique".to_string(),
    };
    assert!(!BreachResult::pair(rec2, 0).is_breached());
}

#[test]
fn breach_result_of_pairs_record_with_count() {
    let rec = CredentialRecord {
        name: "site".to_string(),
        username: "user".to_string(),
        password: "password".to_string(),
    };
    let body = b"1E4C9B93F3F0682250B6CF8331B7EE68FD8:3730471";
    let out = breach_result_of(rec, 200, body).expect("matching line must yield a count");
    assert_eq!(out.breach_count, 3730471);
    assert_eq!(out.record.username, "user");

    let rec = CredentialRecord {
        name: "site".to_string(),
        username: "user".to_string(),
        password: "password".to_string(),
    };
    assert_eq!(
        breach_result_of(rec, 503, body).err(),
        Some(LookupError::ServiceError { status: 503 })
    );
}
