use device_bus::error::Error;
use device_bus::num::{parse_bool, parse_i64};
use device_bus::response::{decode_response, Response, Return};

#[test]
fn result_reply_hands_out_the_payload() {
    let r = decode_response(&b"{\"type\":\"result\",\"data\":5}".to_vec()).unwrap();
    match r {
        Response::Response(Some(blob)) => assert_eq!(blob, b"5".to_vec()),
        _ => panic!("expected a payload"),
    }
}

#[test]
fn list_and_methods_tags_are_result_aliases() {
    let l = decode_response(&b"{\"type\":\"list\",\"data\":[]}".to_vec()).unwrap();
    assert!(matches!(l, Response::Response(Some(_))));
    let m = decode_response(&b"{\"type\":\"methods\",\"data\":[]}".to_vec()).unwrap();
    assert!(matches!(m, Response::Response(Some(_))));
}

#[test]
fn unknown_tag_fails_deserialization() {
    let r = decode_response(&b"{\"type\":\"shutdown\",\"data\":5}".to_vec());
    assert_eq!(r.unwrap_err(), Error::SerializationFailure);
}

#[test]
fn malformed_reply_fails_deserialization() {
    assert!(decode_response(&b"".to_vec()).is_err());
    assert!(decode_response(&b"{\"type\":\"result\",\"data\":}".to_vec()).is_err());
    assert!(decode_response(&b"{\"type\":\"result\",\"data\":5".to_vec()).is_err());
    assert!(decode_response(&b"{\"type\":\"error\",\"data\":5}".to_vec()).is_err());
}

#[test]
fn error_reply_converts_to_application_error() {
    let r = decode_response(&b"{\"type\":\"error\",\"data\":\"device not found\"}".to_vec())
        .unwrap();
    let e = r.into_result().unwrap_err();
    assert_eq!(e, Error::ApplicationError(b"device not found".to_vec()));
    assert_ne!(e, Error::SerializationFailure);
    assert_ne!(e, Error::MessageTooLarge);
}

#[test]
fn result_reply_converts_to_ok() {
    let r = decode_response(&b"{\"type\":\"result\",\"data\":true}".to_vec()).unwrap();
    assert_eq!(r.into_result().unwrap(), Some(b"true".to_vec()));
}

#[test]
fn absent_and_null_data_agree_for_void_returns() {
    let absent = decode_response(&b"{\"type\":\"result\"}".to_vec()).unwrap();
    let data_absent = absent.into_result().unwrap();
    assert_eq!(data_absent, None);
    let null = decode_response(&b"{\"type\":\"result\",\"data\":null}".to_vec()).unwrap();
    let data_null = null.into_result().unwrap();
    assert_eq!(data_null, Some(b"null".to_vec()));
    let ret_absent = Return::from_data(data_absent, true).unwrap();
    let ret_null = Return::from_data(data_null, true).unwrap();
    assert_eq!(ret_absent.0, None);
    assert_eq!(ret_null.0, None);
}

#[test]
fn absent_data_is_a_missing_field_for_value_returns() {
    let absent = decode_response(&b"{\"type\":\"result\"}".to_vec()).unwrap();
    let data = absent.into_result().unwrap();
    assert_eq!(Return::from_data(data, false), Err(Error::SerializationFailure));
}

#[test]
fn null_data_is_a_missing_field_for_value_returns() {
    assert_eq!(
        Return::from_data(Some(b"null".to_vec()), false),
        Err(Error::SerializationFailure)
    );
}

#[test]
fn present_value_is_rejected_for_void_returns() {
    assert_eq!(Return::from_data(Some(b"5".to_vec()), true), Err(Error::SerializationFailure));
}

#[test]
fn invoke_reply_with_integer_yields_the_integer() {
    let r = decode_response(&b"{\"type\":\"result\",\"data\":5}".to_vec()).unwrap();
    let data = r.into_result().unwrap();
    let ret = Return::from_data(data, false).unwrap();
    assert_eq!(parse_i64(&ret.0.unwrap()).unwrap(), 5);
}

#[test]
fn invoke_reply_with_error_yields_that_exact_message() {
    let r = decode_response(&b"{\"type\":\"error\",\"data\":\"side invalid\"}".to_vec()).unwrap();
    assert_eq!(
        r.into_result().unwrap_err(),
        Error::ApplicationError(b"side invalid".to_vec())
    );
}

#[test]
fn escaped_error_message_is_unescaped() {
    let r = decode_response(&b"{\"type\":\"error\",\"data\":\"a\\\"b\\\\c\"}".to_vec()).unwrap();
    assert_eq!(r.into_result().unwrap_err(), Error::ApplicationError(b"a\"b\\c".to_vec()));
}

#[test]
fn integers_parse_exactly() {
    assert_eq!(parse_i64(&b"5".to_vec()).unwrap(), 5);
    assert_eq!(parse_i64(&b"0".to_vec()).unwrap(), 0);
    assert_eq!(parse_i64(&b"-1".to_vec()).unwrap(), -1);
    assert_eq!(parse_i64(&b"15".to_vec()).unwrap(), 15);
    assert_eq!(parse_i64(&b"9223372036854775807".to_vec()).unwrap(), i64::MAX);
    assert_eq!(parse_i64(&b"-9223372036854775808".to_vec()).unwrap(), i64::MIN);
}

#[test]
fn non_canonical_integers_are_rejected() {
    assert!(parse_i64(&b"".to_vec()).is_err());
    assert!(parse_i64(&b"05".to_vec()).is_err());
    assert!(parse_i64(&b"-0".to_vec()).is_err());
    assert!(parse_i64(&b"1.5".to_vec()).is_err());
    assert!(parse_i64(&b"12a".to_vec()).is_err());
    assert!(parse_i64(&b"9223372036854775808".to_vec()).is_err());
    assert!(parse_i64(&b"-9223372036854775809".to_vec()).is_err());
    assert!(parse_i64(&b"99999999999999999999999".to_vec()).is_err());
}

#[test]
fn booleans_parse_exactly() {
    assert_eq!(parse_bool(&b"true".to_vec()).unwrap(), true);
    assert_eq!(parse_bool(&b"false".to_vec()).unwrap(), false);
    assert!(parse_bool(&b"1".to_vec()).is_err());
}
