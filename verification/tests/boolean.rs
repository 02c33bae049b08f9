use from_ascii::FromAscii;
use from_ascii::ParseBoolError;

#[test]
fn test_parse_bool() {
    assert_eq!(bool::from_ascii(b"true"), Ok(true));
    assert_eq!(bool::from_ascii(b"false"), Ok(false));
    assert!(bool::from_ascii(b"").is_err());
    assert!(bool::from_ascii(b"true ").is_err());
    assert!(bool::from_ascii(b" false").is_err());
}

#[test]
fn test_parse_bool_is_case_sensitive() {
    assert!(bool::from_ascii(b"True").is_err());
    assert!(bool::from_ascii(b"FALSE").is_err());
    assert!(bool::from_ascii(b"tRue").is_err());
}

#[test]
fn test_parse_bool_rejects_partial_matches() {
    assert!(bool::from_ascii(b"tru").is_err());
    assert!(bool::from_ascii(b"truee").is_err());
    assert!(bool::from_ascii(b"falsetrue").is_err());
    assert!(bool::from_ascii(b"t").is_err());
}

#[test]
fn test_parse_bool_error_description() {
    let e: ParseBoolError = bool::from_ascii(b"yes").unwrap_err();
    assert_eq!(e.description(), "failed to parse bool");
}

#[test]
fn test_parse_bool_is_deterministic() {
    assert_eq!(bool::from_ascii(b"true"), bool::from_ascii(b"true"));
    assert_eq!(bool::from_ascii(b"nope"), bool::from_ascii(b"nope"));
}
