use orderbook_stream::backoff::Backoff;
use orderbook_stream::l2::{
    display, spread, top_levels, top_levels_reversed, L2Display, L2Outcome, L2Report, L2Session,
    L2Update, PriceLevel, Spread, DISPLAY_LEVELS,
};
use orderbook_stream::session::{Directive, StopReason, StreamEvent};

fn level(px: &str, sz: &str, n: u32) -> PriceLevel {
    PriceLevel { px: px.to_string(), sz: sz.to_string(), n }
}

fn levels(start: u32, count: u32, step: i32) -> Vec<PriceLevel> {
    (0..count)
        .map(|i| level(&format!("{}", start as i32 + step * i as i32), "0.5", i + 1))
        .collect()
}

fn book(block: u64, bids: u32, asks: u32) -> L2Update {
    L2Update {
        coin: "BTC".to_string(),
        block_number: block,
        time: 1_700_000_000_000,
        bids: levels(100, bids, -1),
        asks: levels(101, asks, 1),
    }
}

#[test]
fn best_bid_and_ask_of_a_book() {
    let update = L2Update {
        coin: "BTC".to_string(),
        block_number: 100,
        time: 1_700_000_000_000,
        bids: vec![level("100.0", "1", 3), level("99.5", "2", 1), level("99.0", "4", 7)],
        asks: vec![level("100.5", "1", 2), level("101.0", "3", 1), level("101.5", "2", 5)],
    };
    let shown = display(&update);
    assert_eq!(
        shown,
        L2Display {
            coin: "BTC".to_string(),
            block_number: 100,
            time: 1_700_000_000_000,
            asks: vec![level("101.5", "2", 5), level("101.0", "3", 1), level("100.5", "1", 2)],
            spread: Some(Spread { best_bid: "100.0".to_string(), best_ask: "100.5".to_string() }),
            bids: vec![level("100.0", "1", 3), level("99.5", "2", 1), level("99.0", "4", 7)],
        }
    );
    let found = spread(&update).unwrap();
    assert_eq!(found.best_bid, update.bids[0].px);
    assert_eq!(found.best_ask, update.asks[0].px);
}

#[test]
fn display_shows_at_most_ten_levels() {
    assert_eq!(DISPLAY_LEVELS, 10);
    let update = book(1, 12, 25);
    let shown = display(&update);
    assert_eq!(shown.bids, levels(100, 10, -1));
    let mut asks = levels(101, 10, 1);
    asks.reverse();
    assert_eq!(shown.asks, asks);
    assert_eq!(shown.asks[9].px, "101");
    assert_eq!(shown.asks[0].px, "110");
    assert_eq!(update.bids.len(), 12);
    assert_eq!(update.asks.len(), 25);
}

#[test]
fn top_levels_at_the_cap() {
    for count in [0u32, 1, 9, 10, 11, 20] {
        let all = levels(100, count, -1);
        let kept = count.min(10);
        assert_eq!(top_levels(&all), levels(100, kept, -1));
        let mut reversed = levels(100, kept, -1);
        reversed.reverse();
        assert_eq!(top_levels_reversed(&all), reversed);
    }
}

#[test]
fn one_sided_book_has_no_spread() {
    assert_eq!(spread(&book(1, 0, 3)), None);
    assert_eq!(spread(&book(1, 3, 0)), None);
    assert_eq!(spread(&book(1, 0, 0)), None);
    let shown = display(&book(1, 0, 2));
    assert_eq!(shown.spread, None);
    assert_eq!(shown.bids, Vec::<PriceLevel>::new());
    assert_eq!(shown.asks.len(), 2);
    assert_eq!(
        spread(&book(1, 1, 1)),
        Some(Spread { best_bid: "100".to_string(), best_ask: "101".to_string() })
    );
}

#[test]
fn level_clone_is_equal() {
    let l = level("1.25", "7", 4);
    assert_eq!(l.clone(), l);
}

#[test]
fn new_session_has_no_book() {
    let s = L2Session::new(Backoff::standard());
    assert_eq!(s.book(), None);
    assert_eq!(s.current_display(), None);
    assert_eq!(s.messages(), 0);
    assert_eq!(s.stopped(), None);
    assert_eq!(s.begin(), Directive::Connect);
    assert_eq!(s.backoff(), Backoff::standard());
}

#[test]
fn session_without_attempts_never_connects() {
    let s = L2Session::new(Backoff::new(0, 1).unwrap());
    assert_eq!(s.begin(), Directive::Stop(StopReason::RetriesExhausted));
}

#[test]
fn every_message_replaces_the_book() {
    let mut s = L2Session::new(Backoff::standard());
    let out = s.on_event(StreamEvent::Message(book(1, 3, 3)));
    assert_eq!(
        out,
        L2Outcome {
            report: Some(L2Report { display: display(&book(1, 3, 3)), first_of_stream: true, messages: 1 }),
            directive: Directive::Receive,
        }
    );
    assert_eq!(s.book(), Some(&book(1, 3, 3)));
    let out = s.on_event(StreamEvent::Message(book(2, 15, 0)));
    assert_eq!(
        out,
        L2Outcome {
            report: Some(L2Report { display: display(&book(2, 15, 0)), first_of_stream: false, messages: 2 }),
            directive: Directive::Receive,
        }
    );
    assert_eq!(s.book(), Some(&book(2, 15, 0)));
    assert_eq!(s.current_display(), Some(display(&book(2, 15, 0))));
    assert_eq!(s.messages(), 2);
}

#[test]
fn first_message_after_reconnect_is_the_recovery() {
    let mut s = L2Session::new(Backoff::standard());
    s.on_event(StreamEvent::Message(book(1, 1, 1)));
    let mut seen = Vec::new();
    for _ in 0..3 {
        seen.push(s.on_event(StreamEvent::Failed { code: 15 }).directive);
    }
    assert_eq!(
        seen,
        vec![
            Directive::Reconnect { attempt: 1, delay_secs: 2 },
            Directive::Reconnect { attempt: 2, delay_secs: 4 },
            Directive::Reconnect { attempt: 3, delay_secs: 8 },
        ]
    );
    assert_eq!(s.backoff().attempt(), 3);
    assert_eq!(s.messages(), 0);
    assert_eq!(s.book(), Some(&book(1, 1, 1)));
    let out = s.on_event(StreamEvent::Message(book(2, 1, 1)));
    assert_eq!(out.report.unwrap().first_of_stream, true);
    assert_eq!(s.backoff().attempt(), 0);
    assert_eq!(s.messages(), 1);
}

#[test]
fn session_gives_up_after_the_last_attempt() {
    let mut s = L2Session::new(Backoff::new(3, 1).unwrap());
    assert_eq!(
        s.on_event(StreamEvent::Failed { code: 15 }).directive,
        Directive::Reconnect { attempt: 1, delay_secs: 1 }
    );
    assert_eq!(
        s.on_event(StreamEvent::Failed { code: 15 }).directive,
        Directive::Reconnect { attempt: 2, delay_secs: 2 }
    );
    assert_eq!(
        s.on_event(StreamEvent::Failed { code: 15 }).directive,
        Directive::Stop(StopReason::RetriesExhausted)
    );
    assert_eq!(s.stopped(), Some(StopReason::RetriesExhausted));
    let out = s.on_event(StreamEvent::Message(book(1, 1, 1)));
    assert_eq!(
        out,
        L2Outcome { report: None, directive: Directive::Stop(StopReason::RetriesExhausted) }
    );
    assert_eq!(s.book(), None);
    assert_eq!(
        s.on_event(StreamEvent::Failed { code: 15 }).directive,
        Directive::Stop(StopReason::RetriesExhausted)
    );
    assert_eq!(s.backoff().attempt(), 3);
}

#[test]
fn session_ends_on_fatal_failure_end_and_connect_failure() {
    let mut s = L2Session::new(Backoff::standard());
    assert_eq!(
        s.on_event(StreamEvent::Failed { code: 2 }),
        L2Outcome { report: None, directive: Directive::Stop(StopReason::Fatal) }
    );
    assert_eq!(s.backoff().attempt(), 0);
    let mut s = L2Session::new(Backoff::standard());
    assert_eq!(
        s.on_event(StreamEvent::Ended),
        L2Outcome { report: None, directive: Directive::Stop(StopReason::StreamEnded) }
    );
    let mut s = L2Session::new(Backoff::standard());
    assert_eq!(
        s.on_event(StreamEvent::ConnectFailed),
        L2Outcome { report: None, directive: Directive::Stop(StopReason::ConnectFailed) }
    );
    assert_eq!(s.on_event(StreamEvent::Ended).directive, Directive::Stop(StopReason::ConnectFailed));
}
