use orderbook_stream::decoder::DecodeError;
use orderbook_stream::json::Payload;
use orderbook_stream::stream_type::StreamType;
use orderbook_stream::subscribe::{
    parse_filter, read_update, Filter, StreamContent, StreamUpdate, Subscription,
};

fn filter(field: &str, values: &[&str]) -> Filter {
    Filter { field: field.to_string(), values: values.iter().map(|v| v.to_string()).collect() }
}

#[test]
fn filter_arguments() {
    assert_eq!(parse_filter("coin=ETH,BTC"), Some(filter("coin", &["ETH", "BTC"])));
    assert_eq!(parse_filter("coin=ETH"), Some(filter("coin", &["ETH"])));
    assert_eq!(parse_filter("coin="), Some(filter("coin", &[""])));
    assert_eq!(parse_filter("=x"), Some(filter("", &["x"])));
    assert_eq!(parse_filter("="), Some(filter("", &[""])));
    assert_eq!(parse_filter("a=b=c,d"), Some(filter("a", &["b=c", "d"])));
    assert_eq!(parse_filter("a=,b,,"), Some(filter("a", &["", "b", "", ""])));
    assert_eq!(parse_filter("münze=€,日"), Some(filter("münze", &["€", "日"])));
    assert_eq!(parse_filter("coin"), None);
    assert_eq!(parse_filter(""), None);
    assert_eq!(parse_filter("coin,ETH"), None);
}

#[test]
fn filter_arguments_agree_with_the_standard_library() {
    for arg in ["a=b", "a", "=", "a=", "=b", "a=b,c", "a==b", ",=,", "a,b=c,d=e", "x=1,2,3,"] {
        let expected = arg.split_once('=').map(|(field, values)| Filter {
            field: field.to_string(),
            values: values.split(',').map(|s| s.to_string()).collect(),
        });
        assert_eq!(parse_filter(arg), expected, "{:?}", arg);
    }
}

#[test]
fn subscription_starts_at_the_current_block() {
    let s = Subscription::new("book_updates", vec![filter("coin", &["ETH"])]);
    assert_eq!(
        s,
        Subscription {
            stream_type: StreamType::BookUpdates,
            start_block: 0,
            filters: vec![filter("coin", &["ETH"])],
            filter_name: String::new(),
        }
    );
    assert_eq!(Subscription::new("nothing", Vec::new()).stream_type, StreamType::Trades);
}

#[test]
fn update_with_data_is_decoded_and_parsed() {
    let parsed: serde_json::Value = serde_json::from_str("{\"px\": \"1.5\"}").unwrap();
    let plain = StreamUpdate::Data { block_number: 9, timestamp: 10, data: b"{\"px\": \"1.5\"}".to_vec() };
    assert_eq!(
        read_update(plain),
        Ok(StreamContent::Data { block_number: 9, timestamp: 10, payload: Payload::Structured(parsed.clone()) })
    );
    let packed = StreamUpdate::Data {
        block_number: 9,
        timestamp: 10,
        data: zstd::encode_all(&b"{\"px\": \"1.5\"}"[..], 0).unwrap(),
    };
    assert_eq!(
        read_update(packed),
        Ok(StreamContent::Data { block_number: 9, timestamp: 10, payload: Payload::Structured(parsed) })
    );
    let text = StreamUpdate::Data { block_number: 1, timestamp: 2, data: b"hello".to_vec() };
    assert_eq!(
        read_update(text),
        Ok(StreamContent::Data {
            block_number: 1,
            timestamp: 2,
            payload: Payload::Unstructured("hello".to_string())
        })
    );
}

#[test]
fn update_that_does_not_decode_is_an_error() {
    let corrupt = StreamUpdate::Data { block_number: 1, timestamp: 2, data: vec![0x28, 0xB5, 0x2F, 0xFD, 9] };
    assert_eq!(read_update(corrupt), Err(DecodeError::CorruptFrame));
    let no_text = StreamUpdate::Data {
        block_number: 1,
        timestamp: 2,
        data: zstd::encode_all(&[0xC0u8, 0x80][..], 0).unwrap(),
    };
    assert_eq!(read_update(no_text), Err(DecodeError::InvalidText));
}

#[test]
fn pong_is_handed_on() {
    assert_eq!(read_update(StreamUpdate::Pong(1_700_000_000_123)), Ok(StreamContent::Pong(1_700_000_000_123)));
    assert_eq!(read_update(StreamUpdate::Pong(-1)), Ok(StreamContent::Pong(-1)));
}
