use orderbook_stream::decoder::{decode, is_compressed_frame, text_of_frame, DecodeError};
use orderbook_stream::json::{interpret, items_of, items_or_empty, payload_from, read_payload, Payload};

fn compress(text: &[u8]) -> Vec<u8> {
    zstd::encode_all(text, 0).unwrap()
}

fn parse(text: &str) -> serde_json::Value {
    serde_json::from_str(text).unwrap()
}

#[test]
fn magic_number_marks_a_frame() {
    assert!(is_compressed_frame(&[0x28, 0xB5, 0x2F, 0xFD]));
    assert!(is_compressed_frame(&[0x28, 0xB5, 0x2F, 0xFD, 0, 1, 2]));
    assert!(!is_compressed_frame(&[0x28, 0xB5, 0x2F]));
    assert!(!is_compressed_frame(&[]));
    assert!(!is_compressed_frame(&[0x28, 0xB5, 0x2F, 0xFE]));
    assert!(!is_compressed_frame(&[0x29, 0xB5, 0x2F, 0xFD]));
    assert!(!is_compressed_frame(&[0x28, 0xB4, 0x2F, 0xFD]));
    assert!(!is_compressed_frame(&[0x28, 0xB5, 0x2E, 0xFD]));
    assert!(!is_compressed_frame(&[0xFD, 0x2F, 0xB5, 0x28]));
}

#[test]
fn compressed_frames_start_with_the_magic_number() {
    assert!(is_compressed_frame(&compress(b"hello")));
}

#[test]
fn plain_text_is_returned_as_it_is() {
    assert_eq!(decode(b"{\"a\": 1}"), Ok("{\"a\": 1}".to_string()));
    assert_eq!(decode(b""), Ok(String::new()));
    assert_eq!(decode(b"abc"), Ok("abc".to_string()));
    assert_eq!(decode("grüße €".as_bytes()), Ok("grüße €".to_string()));
}

#[test]
fn plain_text_with_bad_bytes_gets_substitutes() {
    assert_eq!(decode(&[b'a', 0xFF, b'b']), Ok("a\u{FFFD}b".to_string()));
    assert_eq!(decode(&[0xC3]), Ok("\u{FFFD}".to_string()));
    assert_eq!(decode(&[0x28, 0xB5, 0x2F]), Ok("(\u{FFFD}/".to_string()));
}

#[test]
fn compressed_text_round_trips() {
    for text in ["", "x", "{\"order_statuses\": []}", "grüße € 你好", "line\nline\n"] {
        assert_eq!(decode(&compress(text.as_bytes())), Ok(text.to_string()));
    }
    let long = "abcdefghij".repeat(20_000);
    assert_eq!(decode(&compress(long.as_bytes())), Ok(long));
}

#[test]
fn corrupt_frame_is_a_decode_error() {
    assert_eq!(decode(&[0x28, 0xB5, 0x2F, 0xFD]), Err(DecodeError::CorruptFrame));
    assert_eq!(
        decode(&[0x28, 0xB5, 0x2F, 0xFD, 0xFF, 0xFF, 0xFF, 0xFF, 0xFF]),
        Err(DecodeError::CorruptFrame)
    );
    let mut truncated = compress(b"some text that is long enough to be cut");
    truncated.truncate(truncated.len() - 3);
    assert_eq!(decode(&truncated), Err(DecodeError::CorruptFrame));
}

#[test]
fn compressed_bytes_that_are_no_text_are_a_decode_error() {
    assert_eq!(decode(&compress(&[b'a', 0xFF, b'b'])), Err(DecodeError::InvalidText));
    assert_eq!(decode(&compress(&[0xC3])), Err(DecodeError::InvalidText));
}

#[test]
fn text_of_frame_sorts_the_outcomes() {
    assert_eq!(text_of_frame(Ok(b"abc".to_vec())), Ok("abc".to_string()));
    assert_eq!(text_of_frame(Ok(Vec::new())), Ok(String::new()));
    assert_eq!(text_of_frame(Ok(vec![0xE2, 0x82, 0xAC])), Ok("€".to_string()));
    assert_eq!(text_of_frame(Ok(vec![0xE2, 0x82])), Err(DecodeError::InvalidText));
    let broken = std::io::Error::new(std::io::ErrorKind::InvalidData, "broken");
    assert_eq!(text_of_frame(Err(broken)), Err(DecodeError::CorruptFrame));
}

#[test]
fn text_that_parses_is_structured() {
    assert_eq!(interpret("{\"a\": [1, 2]}".to_string()), Payload::Structured(parse("{\"a\":[1,2]}")));
    assert_eq!(interpret("17".to_string()), Payload::Structured(parse("17")));
    assert_eq!(interpret(" null ".to_string()), Payload::Structured(serde_json::Value::Null));
}

#[test]
fn text_that_does_not_parse_is_kept() {
    assert_eq!(interpret("not json".to_string()), Payload::Unstructured("not json".to_string()));
    assert_eq!(interpret(String::new()), Payload::Unstructured(String::new()));
    assert_eq!(interpret("{\"a\": ".to_string()), Payload::Unstructured("{\"a\": ".to_string()));
}

#[test]
fn payload_from_sorts_the_outcomes() {
    let ok: Result<serde_json::Value, serde_json::Error> = serde_json::from_str("[1]");
    assert_eq!(payload_from("[1]".to_string(), ok), Payload::Structured(parse("[1]")));
    let failed: Result<serde_json::Value, serde_json::Error> = serde_json::from_str("[1");
    assert_eq!(payload_from("[1".to_string(), failed), Payload::Unstructured("[1".to_string()));
}

#[test]
fn read_payload_decodes_then_parses() {
    assert_eq!(read_payload(b"{\"k\": true}"), Ok(Payload::Structured(parse("{\"k\":true}"))));
    assert_eq!(
        read_payload(&compress(b"{\"k\": true}")),
        Ok(Payload::Structured(parse("{\"k\":true}")))
    );
    assert_eq!(read_payload(b"hello"), Ok(Payload::Unstructured("hello".to_string())));
    assert_eq!(
        read_payload(&compress(b"hello")),
        Ok(Payload::Unstructured("hello".to_string()))
    );
    assert_eq!(read_payload(&[0x28, 0xB5, 0x2F, 0xFD, 1]), Err(DecodeError::CorruptFrame));
    assert_eq!(read_payload(&compress(&[0xFF])), Err(DecodeError::InvalidText));
}

#[test]
fn items_of_takes_the_array_under_a_key() {
    let doc = parse("{\"a\": [1, \"two\", {\"x\": 3}], \"b\": {\"c\": []}, \"e\": []}");
    assert_eq!(items_of(&doc, "a"), vec![parse("1"), parse("\"two\""), parse("{\"x\":3}")]);
    assert_eq!(items_of(&doc, "e"), Vec::<serde_json::Value>::new());
    assert_eq!(items_of(&doc, "b"), Vec::<serde_json::Value>::new());
    assert_eq!(items_of(&doc, "missing"), Vec::<serde_json::Value>::new());
    assert_eq!(items_of(&parse("[1, 2]"), "a"), Vec::<serde_json::Value>::new());
    assert_eq!(items_of(&parse("null"), "a"), Vec::<serde_json::Value>::new());
}

#[test]
fn items_or_empty_fills_in_for_a_missing_array() {
    assert_eq!(items_or_empty(None), Vec::<serde_json::Value>::new());
    assert_eq!(items_or_empty(Some(vec![parse("1")])), vec![parse("1")]);
    assert_eq!(items_or_empty(Some(Vec::new())), Vec::<serde_json::Value>::new());
}
