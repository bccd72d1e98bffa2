use orderbook_aggregator::aggregator::{AggAction, AggEvent, AggState, Aggregator};
use orderbook_aggregator::num::Num;
use orderbook_aggregator::orderbook::{Error, Exchange, ExchangeErr, InTick, Level, Side};
use orderbook_aggregator::symbol::symbol_code;

const ONE: i64 = 100_000_000;

fn bid_tick(exchange: Exchange, price: i64) -> InTick {
    InTick {
        exchange,
        bids: vec![Level::new(
            Side::Bid,
            Num { units: price * ONE },
            Num { units: ONE },
            exchange,
        )],
        asks: vec![],
    }
}

#[test]
fn pipeline_runs_through_its_lifecycle() {
    let mut agg = Aggregator::new();
    assert_eq!(agg.state, AggState::Init);

    assert!(matches!(agg.on_event(AggEvent::Connected), AggAction::Ignore));
    assert_eq!(agg.state, AggState::Running);

    let act = agg.on_event(AggEvent::Tick(bid_tick(Exchange::Bitstamp, 100)));
    match act {
        AggAction::Publish(out) => {
            assert_eq!(out.bids.len(), 1);
            assert_eq!(out.bids[0].price, Num { units: 100 * ONE });
            assert_eq!(out.bids[0].exchange, Exchange::Bitstamp);
        }
        _ => panic!("a tick in the running state must publish"),
    }
    assert_eq!(agg.state, AggState::Running);

    let err = ExchangeErr { exchange: Exchange::Binance, error: Error::Transport };
    assert!(matches!(agg.on_event(AggEvent::StreamError(err)), AggAction::CloseConnections));
    assert_eq!(agg.state, AggState::Closing);

    assert!(matches!(agg.on_event(AggEvent::Closed), AggAction::Finish));
    assert_eq!(agg.state, AggState::Terminated);
}

#[test]
fn connect_failure_terminates_with_the_error() {
    let mut agg = Aggregator::new();
    let err = ExchangeErr { exchange: Exchange::Bitstamp, error: Error::Transport };
    match agg.on_event(AggEvent::ConnectFailed(err)) {
        AggAction::Fail(e) => assert_eq!(e, err),
        _ => panic!("a connect failure must propagate"),
    }
    assert_eq!(agg.state, AggState::Terminated);
}

#[test]
fn unexpected_events_are_ignored() {
    let mut agg = Aggregator::new();
    // A tick before both connections are up changes nothing.
    assert!(matches!(
        agg.on_event(AggEvent::Tick(bid_tick(Exchange::Binance, 7))),
        AggAction::Ignore
    ));
    assert_eq!(agg.state, AggState::Init);
    let out = agg.books.to_tick();
    assert!(out.bids.is_empty() && out.asks.is_empty());
}

#[test]
fn ticks_publish_the_merged_view() {
    let mut agg = Aggregator::new();
    agg.on_event(AggEvent::Connected);
    agg.on_event(AggEvent::Tick(bid_tick(Exchange::Bitstamp, 100)));
    let act = agg.on_event(AggEvent::Tick(bid_tick(Exchange::Binance, 101)));
    match act {
        AggAction::Publish(out) => {
            assert_eq!(out.bids.len(), 2);
            assert_eq!(out.bids[0].exchange, Exchange::Binance);
            assert_eq!(out.bids[1].exchange, Exchange::Bitstamp);
        }
        _ => panic!("a tick in the running state must publish"),
    }
}

#[test]
fn symbols_are_lowercased_and_stripped() {
    assert_eq!(symbol_code(&b"ETH/BTC".to_vec()), b"ethbtc".to_vec());
    assert_eq!(symbol_code(&b"btcusdt".to_vec()), b"btcusdt".to_vec());
    assert_eq!(symbol_code(&b"/".to_vec()), b"".to_vec());
}
