use lexgate::codec::{extract_query_values, DecodeError};
use lexgate::domain::GatewayError;
use lexgate::readplan::{plan_document_read, plan_read, DocReadPlan, ReadPlan};

#[test]
fn empty_input_is_rejected() {
    assert_eq!(extract_query_values("").unwrap_err(), DecodeError::EmptyInput);
}

#[test]
fn whitespace_only_input_is_rejected() {
    assert_eq!(extract_query_values("   \t ").unwrap_err(), DecodeError::EmptyInput);
}

#[test]
fn two_pairs_decode() {
    let p = extract_query_values("a=1&b=2").unwrap();
    assert_eq!(p.get("a").unwrap(), "1");
    assert_eq!(p.get("b").unwrap(), "2");
    assert!(p.get("c").is_none());
}

#[test]
fn segment_without_equals_is_malformed() {
    assert_eq!(
        extract_query_values("a=1&bad").unwrap_err(),
        DecodeError::MalformedPair("bad".to_string())
    );
}

#[test]
fn segment_with_two_equals_is_malformed() {
    assert_eq!(
        extract_query_values("a=b=c").unwrap_err(),
        DecodeError::MalformedPair("a=b=c".to_string())
    );
}

#[test]
fn empty_key_is_malformed() {
    assert_eq!(
        extract_query_values("=x").unwrap_err(),
        DecodeError::MalformedPair("=x".to_string())
    );
}

#[test]
fn plus_reads_as_space() {
    let p = extract_query_values("k=a+b").unwrap();
    assert_eq!(p.get("k").unwrap(), "a b");
}

#[test]
fn percent_escapes_decode() {
    let p = extract_query_values("k=a%20b&e=x%40y.z").unwrap();
    assert_eq!(p.get("k").unwrap(), "a b");
    assert_eq!(p.get("e").unwrap(), "x@y.z");
}

#[test]
fn invalid_utf8_escape_is_an_encoding_error() {
    assert_eq!(
        extract_query_values("k=%FF").unwrap_err(),
        DecodeError::EncodingError("k=%FF".to_string())
    );
}

#[test]
fn last_value_wins_on_duplicate_keys() {
    let p = extract_query_values("a=1&a=2").unwrap();
    assert_eq!(p.get("a").unwrap(), "2");
}

#[test]
fn empty_value_is_kept() {
    let p = extract_query_values("a=").unwrap();
    assert_eq!(p.get("a").unwrap(), "");
}

#[test]
fn read_plan_lists_on_decode_failure() {
    let d = extract_query_values("");
    assert_eq!(plan_read(&d).unwrap(), ReadPlan::ListAll);
}

#[test]
fn read_plan_lists_without_id() {
    let d = extract_query_values("nome=Ana");
    assert_eq!(plan_read(&d).unwrap(), ReadPlan::ListAll);
}

#[test]
fn read_plan_gets_one_by_id() {
    let d = extract_query_values("id=7");
    assert_eq!(plan_read(&d).unwrap(), ReadPlan::GetOne(7));
}

#[test]
fn read_plan_rejects_non_integer_id() {
    let d = extract_query_values("id=abc");
    assert_eq!(plan_read(&d).unwrap_err(), GatewayError::InvalidId);
}

#[test]
fn document_plan_download_needs_true() {
    let d = extract_query_values("id=3&download=true");
    assert_eq!(plan_document_read(&d).unwrap(), DocReadPlan::Download(3));
    let d = extract_query_values("id=3&download=yes");
    assert_eq!(plan_document_read(&d).unwrap(), DocReadPlan::GetOne(3));
    let d = extract_query_values("download=true");
    assert_eq!(plan_document_read(&d).unwrap(), DocReadPlan::ListAll);
}
