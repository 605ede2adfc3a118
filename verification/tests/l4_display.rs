use orderbook_stream::l4::{sample, short_user, RawOrder, SAMPLE_ORDERS, SHORT_USER_BYTES};

#[test]
fn long_user_is_shortened() {
    assert_eq!(SHORT_USER_BYTES, 10);
    assert_eq!(short_user("0x1234567890abcdef"), "0x12345678...");
    assert_eq!(short_user("0x123456789"), "0x12345678...");
    assert_eq!(short_user("0x12345678"), "0x12345678");
    assert_eq!(short_user("0x1"), "0x1");
    assert_eq!(short_user(""), "");
    assert_eq!(short_user("ééééé"), "ééééé");
    assert_eq!(short_user("éééééé"), "ééééé...");
    assert_eq!(short_user("abcdefg€"), "abcdefg€");
    assert_eq!(short_user("abcdefg€x"), "abcdefg€...");
    assert_eq!(short_user("abcdefghij€"), "abcdefghij...");
}

#[test]
fn snapshot_sample_has_at_most_five_orders() {
    assert_eq!(SAMPLE_ORDERS, 5);
    let orders: Vec<RawOrder> = (0..8u64)
        .map(|oid| RawOrder {
            oid,
            user: format!("0x{:040x}", oid),
            limit_px: "10".to_string(),
            sz: "1".to_string(),
        })
        .collect();
    assert_eq!(sample(&orders), &orders[..5]);
    assert_eq!(sample(&orders[..5].iter().map(copy).collect()), &orders[..5]);
    assert_eq!(sample(&orders[..3].iter().map(copy).collect()), &orders[..3]);
    assert_eq!(sample(&Vec::new()), &orders[..0]);
}

fn copy(order: &RawOrder) -> RawOrder {
    RawOrder {
        oid: order.oid,
        user: order.user.clone(),
        limit_px: order.limit_px.clone(),
        sz: order.sz.clone(),
    }
}
