use weekend_at_joes::identifiers::{ChatUuid, ParseError, ThreadUuid};

const TEXT: &str = "67e55044-10b1-426f-9247-bb680e5fe0c8";
const VALUE: u128 = 0x67e55044_10b1_426f_9247_bb680e5fe0c8;

#[test]
fn chat_key_as_query_parameter() {
    assert_eq!(ChatUuid(VALUE).to_query_parameter(), format!("chat_uuid={}", TEXT));
    assert_eq!(ChatUuid(0).to_query_parameter(), "chat_uuid=00000000-0000-0000-0000-000000000000");
}

#[test]
fn thread_key_as_query_parameter() {
    assert_eq!(ThreadUuid(VALUE).to_query_parameter(), format!("thread_uuid={}", TEXT));
}

#[test]
fn keys_are_read_from_text() {
    assert_eq!(ChatUuid::parse_str(TEXT), Ok(ChatUuid(VALUE)));
    assert_eq!(ThreadUuid::parse_str("67E55044-10B1-426F-9247-BB680E5FE0C8"), Ok(ThreadUuid(VALUE)));
    assert_eq!(ThreadUuid::parse_str("67e5504410b1426f9247bb680e5fe0c8"), Ok(ThreadUuid(VALUE)));
}

#[test]
fn malformed_keys_are_refused() {
    assert_eq!(ChatUuid::parse_str("not a uuid"), Err(ParseError));
    assert_eq!(ThreadUuid::parse_str(""), Err(ParseError));
    assert_eq!(ChatUuid::parse_str("67e55044-10b1-426f-9247-bb680e5fe0c"), Err(ParseError));
}

#[test]
fn keys_as_text() {
    assert_eq!(ChatUuid(VALUE).to_string(), TEXT);
    assert_eq!(ThreadUuid(1).to_string(), "00000000-0000-0000-0000-000000000001");
}
