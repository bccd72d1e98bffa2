use orderbook_aggregator::num::Num;
use orderbook_aggregator::orderbook::{
    decode_depths, merge, precedes, to_levels, Error, Exchange, Exchanges, InTick, Level,
    OrderDepths, OutTick, RawLevel, Side,
};
use orderbook_aggregator::DEPTH;

/// One unit of price per 10^-8 fixed-point step: 1.0 as a `Num`.
const ONE: i64 = 100_000_000;

fn num(x: i64) -> Num {
    Num { units: x * ONE }
}

fn raw(price: i64, amount: i64) -> RawLevel {
    RawLevel { price: num(price), amount: num(amount) }
}

fn level(side: Side, price: i64, amount: i64, exchange: Exchange) -> Level {
    Level::new(side, num(price), num(amount), exchange)
}

fn tick(exchange: Exchange, bids: Vec<Level>, asks: Vec<Level>) -> InTick {
    InTick { exchange, bids, asks }
}

fn bid_tick(exchange: Exchange, bids: Vec<(i64, i64)>) -> InTick {
    let bids = bids
        .into_iter()
        .map(|(p, a)| level(Side::Bid, p, a, exchange))
        .collect();
    tick(exchange, bids, vec![])
}

#[test]
fn single_side_single_exchange() {
    let mut exchanges = Exchanges::new();
    exchanges.update(bid_tick(Exchange::Bitstamp, vec![(100, 1), (99, 2)]));
    let out = exchanges.to_tick();
    assert_eq!(
        out.bids,
        vec![
            level(Side::Bid, 100, 1, Exchange::Bitstamp),
            level(Side::Bid, 99, 2, Exchange::Bitstamp),
        ]
    );
    assert!(out.asks.is_empty());
    assert_eq!(out.spread, Num { units: 0 });
}

#[test]
fn simple_merge() {
    let mut exchanges = Exchanges::new();
    exchanges.update(bid_tick(Exchange::Bitstamp, vec![(100, 1)]));
    exchanges.update(bid_tick(Exchange::Binance, vec![(101, 1)]));
    let out = exchanges.to_tick();
    assert_eq!(
        out.bids,
        vec![
            level(Side::Bid, 101, 1, Exchange::Binance),
            level(Side::Bid, 100, 1, Exchange::Bitstamp),
        ]
    );
    assert_eq!(out.spread, Num { units: 0 });
}

#[test]
fn price_tie_on_bid_side() {
    let mut exchanges = Exchanges::new();
    exchanges.update(bid_tick(Exchange::Bitstamp, vec![(100, 2)]));
    exchanges.update(bid_tick(Exchange::Binance, vec![(100, 5)]));
    let out = exchanges.to_tick();
    // Larger amount first on the bid side.
    assert_eq!(
        out.bids,
        vec![
            level(Side::Bid, 100, 5, Exchange::Binance),
            level(Side::Bid, 100, 2, Exchange::Bitstamp),
        ]
    );
}

#[test]
fn price_tie_on_ask_side() {
    let mut exchanges = Exchanges::new();
    exchanges.update(tick(
        Exchange::Bitstamp,
        vec![],
        vec![level(Side::Ask, 100, 2, Exchange::Bitstamp)],
    ));
    exchanges.update(tick(
        Exchange::Binance,
        vec![],
        vec![level(Side::Ask, 100, 5, Exchange::Binance)],
    ));
    let out = exchanges.to_tick();
    // Smaller amount first on the ask side.
    assert_eq!(
        out.asks,
        vec![
            level(Side::Ask, 100, 2, Exchange::Bitstamp),
            level(Side::Ask, 100, 5, Exchange::Binance),
        ]
    );
}

#[test]
fn full_tie_breaks_by_exchange() {
    let mut exchanges = Exchanges::new();
    exchanges.update(bid_tick(Exchange::Binance, vec![(100, 2)]));
    exchanges.update(bid_tick(Exchange::Bitstamp, vec![(100, 2)]));
    let out = exchanges.to_tick();
    assert_eq!(
        out.bids,
        vec![
            level(Side::Bid, 100, 2, Exchange::Bitstamp),
            level(Side::Bid, 100, 2, Exchange::Binance),
        ]
    );
}

#[test]
fn depth_truncation_keeps_ten_highest() {
    let mut exchanges = Exchanges::new();
    // 15 bids per exchange, all 30 prices distinct.
    let bitstamp: Vec<(i64, i64)> = (1..=15).map(|p| (2 * p - 1, 1)).collect();
    let binance: Vec<(i64, i64)> = (1..=15).map(|p| (2 * p, 1)).collect();
    exchanges.update(bid_tick(Exchange::Bitstamp, bitstamp));
    exchanges.update(bid_tick(Exchange::Binance, binance));
    let out = exchanges.to_tick();
    assert_eq!(out.bids.len(), DEPTH);
    // The ten highest prices across both exchanges are 30, 29, ..., 21.
    for (i, l) in out.bids.iter().enumerate() {
        let price = 30 - i as i64;
        let exchange = if price % 2 == 0 { Exchange::Binance } else { Exchange::Bitstamp };
        assert_eq!(*l, level(Side::Bid, price, 1, exchange));
    }
}

#[test]
fn spread_follows_best_levels() {
    let mut exchanges = Exchanges::new();
    exchanges.update(tick(
        Exchange::Bitstamp,
        vec![level(Side::Bid, 100, 1, Exchange::Bitstamp)],
        vec![level(Side::Ask, 101, 1, Exchange::Bitstamp)],
    ));
    let out = exchanges.to_tick();
    assert_eq!(out.spread, num(1));

    // A crossed book yields a negative spread: 99.5 - 100 = -0.5.
    exchanges.update(tick(
        Exchange::Bitstamp,
        vec![level(Side::Bid, 100, 1, Exchange::Bitstamp)],
        vec![Level::new(
            Side::Ask,
            Num { units: 99 * ONE + ONE / 2 },
            num(1),
            Exchange::Bitstamp,
        )],
    ));
    let out = exchanges.to_tick();
    assert_eq!(out.spread, Num { units: -ONE / 2 });
}

#[test]
fn same_tick_twice_is_idempotent() {
    let mut once = Exchanges::new();
    let mut twice = Exchanges::new();
    once.update(bid_tick(Exchange::Bitstamp, vec![(100, 1), (99, 3)]));
    twice.update(bid_tick(Exchange::Bitstamp, vec![(100, 1), (99, 3)]));
    twice.update(bid_tick(Exchange::Bitstamp, vec![(100, 1), (99, 3)]));
    assert_eq!(once.to_tick(), twice.to_tick());
}

#[test]
fn ticks_from_one_exchange_leave_the_other_alone() {
    let mut exchanges = Exchanges::new();
    exchanges.update(bid_tick(Exchange::Bitstamp, vec![(100, 1)]));
    let before = exchanges.to_tick();
    // Binance reports and then clears; Bitstamp's contribution is unchanged.
    exchanges.update(bid_tick(Exchange::Binance, vec![(50, 1)]));
    exchanges.update(bid_tick(Exchange::Binance, vec![]));
    let after = exchanges.to_tick();
    assert_eq!(before, after);
}

#[test]
fn empty_tick_wipes_the_cache() {
    let mut exchanges = Exchanges::new();
    exchanges.update(bid_tick(Exchange::Binance, vec![(101, 1)]));
    exchanges.update(bid_tick(Exchange::Binance, vec![]));
    let out = exchanges.to_tick();
    assert!(out.bids.is_empty());
    assert!(out.asks.is_empty());
    assert_eq!(out.spread, Num { units: 0 });
}

#[test]
fn zero_amounts_are_filtered_before_merging() {
    let mut exchanges = Exchanges::new();
    exchanges.update(bid_tick(Exchange::Bitstamp, vec![(100, 0), (99, 2)]));
    let out = exchanges.to_tick();
    assert_eq!(out.bids, vec![level(Side::Bid, 99, 2, Exchange::Bitstamp)]);
}

#[test]
fn merge_sorts_and_truncates() {
    let a = vec![
        level(Side::Ask, 3, 1, Exchange::Bitstamp),
        level(Side::Ask, 5, 1, Exchange::Bitstamp),
    ];
    let b = vec![
        level(Side::Ask, 4, 1, Exchange::Binance),
        level(Side::Ask, 2, 1, Exchange::Binance),
    ];
    let out = merge(&a, &b, Side::Ask, 3);
    assert_eq!(
        out,
        vec![
            level(Side::Ask, 2, 1, Exchange::Binance),
            level(Side::Ask, 3, 1, Exchange::Bitstamp),
            level(Side::Ask, 4, 1, Exchange::Binance),
        ]
    );
}

#[test]
fn to_levels_truncates_and_tags() {
    let raws: Vec<RawLevel> = (1..=12).map(|p| raw(p, 1)).collect();
    let levels = to_levels(&raws, Side::Bid, Exchange::Binance, DEPTH);
    assert_eq!(levels.len(), DEPTH);
    for (i, l) in levels.iter().enumerate() {
        assert_eq!(*l, level(Side::Bid, i as i64 + 1, 1, Exchange::Binance));
    }
}

#[test]
fn decode_depths_builds_a_tagged_tick() {
    let bids = vec![raw(100, 1), raw(99, 2)];
    let asks = vec![raw(101, 3)];
    let t = decode_depths(Exchange::Bitstamp, &bids, &asks).unwrap();
    assert_eq!(t.exchange, Exchange::Bitstamp);
    assert_eq!(
        t.bids,
        vec![
            level(Side::Bid, 100, 1, Exchange::Bitstamp),
            level(Side::Bid, 99, 2, Exchange::Bitstamp),
        ]
    );
    assert_eq!(t.asks, vec![level(Side::Ask, 101, 3, Exchange::Bitstamp)]);
}

#[test]
fn decode_depths_rejects_negative_amounts() {
    let bids = vec![raw(100, -1)];
    let asks: Vec<RawLevel> = vec![];
    assert_eq!(decode_depths(Exchange::Binance, &bids, &asks), Err(Error::Decode));
}

#[test]
fn decode_depths_rejects_out_of_range_values() {
    let bids = vec![RawLevel { price: Num { units: i64::MAX }, amount: num(1) }];
    let asks: Vec<RawLevel> = vec![];
    assert_eq!(decode_depths(Exchange::Binance, &bids, &asks), Err(Error::Decode));
}

#[test]
fn exchange_names_are_lowercase() {
    assert_eq!(Exchange::Bitstamp.to_string(), "bitstamp");
    assert_eq!(Exchange::Binance.to_string(), "binance");
}

#[test]
fn empty_out_tick() {
    let t = OutTick::new();
    assert_eq!(t.spread, Num { units: 0 });
    assert!(t.bids.is_empty());
    assert!(t.asks.is_empty());
}

#[test]
fn out_tick_copies_and_compares() {
    let mut exchanges = Exchanges::new();
    exchanges.update(bid_tick(Exchange::Bitstamp, vec![(100, 1)]));
    let t = exchanges.to_tick();
    let copy = t.duplicate();
    assert_eq!(t, copy);
    assert!(t.same_as(&copy));
    assert!(!t.same_as(&OutTick::new()));
}

#[test]
fn precedes_follows_the_level_ordering() {
    let better = level(Side::Bid, 101, 1, Exchange::Bitstamp);
    let worse = level(Side::Bid, 100, 9, Exchange::Binance);
    assert!(precedes(Side::Bid, &better, &worse));
    assert!(!precedes(Side::Bid, &worse, &better));
    // On the ask side the lower price wins instead.
    let low = level(Side::Ask, 100, 9, Exchange::Binance);
    let high = level(Side::Ask, 101, 1, Exchange::Bitstamp);
    assert!(precedes(Side::Ask, &low, &high));
}

#[test]
fn fresh_depths_are_empty() {
    let d = OrderDepths::new();
    assert!(d.bids.is_empty());
    assert!(d.asks.is_empty());
}
