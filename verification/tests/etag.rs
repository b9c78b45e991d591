use http::headers::etag::{strong_etag, weak_etag, EntityTag};
use http::headers::HeaderValueByteIterator;
use http::memstream::MemWriterFakeStream;

fn from_stream_with_str(s: &str) -> Option<EntityTag> {
    let mut iter = HeaderValueByteIterator::new(s.as_bytes().to_vec());
    EntityTag::from_stream(&mut iter)
}

fn to_stream_into_str(v: &EntityTag) -> String {
    let mut writer = MemWriterFakeStream::new();
    v.to_stream(&mut writer).unwrap();
    String::from_utf8(writer.get_ref().to_vec()).unwrap()
}

fn assert_invalid(string: &str) {
    assert_eq!(from_stream_with_str(string), None);
}

fn assert_conversion_correct(string: &str, value: EntityTag) {
    assert_eq!(from_stream_with_str(string), Some(value.clone()));
    let s = to_stream_into_str(&value);
    assert_eq!(&s[..], string);
    let s = String::from_utf8(value.http_value()).unwrap();
    assert_eq!(&s[..], string);
}

fn assert_interpretation_correct(string: &str, value: EntityTag) {
    assert_eq!(from_stream_with_str(string), Some(value));
}

#[test]
fn test_etag() {
    assert_conversion_correct("\"\"", strong_etag(Vec::new()));
    assert_conversion_correct("\"fO0\"", strong_etag(b"fO0".to_vec()));
    assert_conversion_correct("\"fO0 bar\"", strong_etag(b"fO0 bar".to_vec()));
    assert_conversion_correct("\"fO0 \\\"bar\"", strong_etag(b"fO0 \"bar".to_vec()));
    assert_conversion_correct("\"fO0 \\\"bar\\\"\"", strong_etag(b"fO0 \"bar\"".to_vec()));

    assert_conversion_correct("W/\"\"", weak_etag(Vec::new()));
    assert_conversion_correct("W/\"fO0\"", weak_etag(b"fO0".to_vec()));
    assert_conversion_correct("W/\"fO0 bar\"", weak_etag(b"fO0 bar".to_vec()));
    assert_conversion_correct("W/\"fO0 \\\"bar\"", weak_etag(b"fO0 \"bar".to_vec()));
    assert_conversion_correct("W/\"fO0 \\\"bar\\\"\"", weak_etag(b"fO0 \"bar\"".to_vec()));
    assert_interpretation_correct("w/\"fO0\"", weak_etag(b"fO0".to_vec()));

    assert_invalid("");
    assert_invalid("fO0");
    assert_invalid("\"\\\"");
    assert_invalid("\"\"\"\"");
}

#[test]
fn weak_etag_parses_and_serializes_exactly() {
    let parsed = from_stream_with_str("W/\"abc\"").unwrap();
    assert_eq!(parsed.weak, true);
    assert_eq!(parsed.opaque_tag, b"abc".to_vec());
    assert_eq!(to_stream_into_str(&parsed), "W/\"abc\"");
}

#[test]
fn escaped_quote_in_etag_decodes() {
    let parsed = from_stream_with_str("\"a\\\"b\"").unwrap();
    assert_eq!(parsed.weak, false);
    assert_eq!(parsed.opaque_tag, b"a\"b".to_vec());
}

#[test]
fn surplus_bytes_after_etag_fail() {
    assert_invalid("\"a\" ");
    assert_invalid("W/\"a\"x");
}
