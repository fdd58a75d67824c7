use cexdex_arb::agent::{ArbitrageAgent, DexData};
use cexdex_arb::config::CliArgs;
use cexdex_arb::decimal::Decimal;
use cexdex_arb::detector::{detect_arbitrage, ArbitrageSignal, Direction};
use cexdex_arb::order_book::{OrderBook, PriceLevel, Side};

fn dec(mantissa: i128, scale: u32) -> Decimal {
    Decimal::from_parts(mantissa, scale).unwrap()
}

fn lvl(price: i128, quantity: i128) -> PriceLevel {
    PriceLevel { price: dec(price, 0), quantity: dec(quantity, 0) }
}

fn book_100_101() -> OrderBook {
    let mut b = OrderBook::new();
    b.apply_updates(Side::Bid, &[lvl(100, 5)]);
    b.apply_updates(Side::Ask, &[lvl(101, 5)]);
    b
}

fn args(margin: u64, volume: u64) -> CliArgs {
    CliArgs {
        ws_endpoint: String::new(),
        rpc_endpoint: String::new(),
        whirlpool_address: String::new(),
        cex_trading_pair: String::from("BTC/USD"),
        min_gain_margin: margin,
        token_a_buffer: volume,
    }
}

#[test]
fn end_to_end_buy_on_cex() {
    let signals = detect_arbitrage(&book_100_101(), dec(102, 0), 0, dec(1, 0));
    assert_eq!(
        signals,
        vec![ArbitrageSignal {
            direction: Direction::BuyCexSellDex,
            cex_price: dec(101, 0),
            dex_price: dec(102, 0),
            mid_price: dec(1005, 1),
            base_volume: dec(1, 0),
            quote_volume: dec(102, 0),
        }]
    );
}

#[test]
fn sell_on_cex_when_reference_is_low() {
    let signals = detect_arbitrage(&book_100_101(), dec(98, 0), 0, dec(1, 0));
    assert_eq!(signals.len(), 1);
    assert_eq!(signals[0].direction, Direction::SellCexBuyDex);
    assert_eq!(signals[0].cex_price, dec(100, 0));
    assert_eq!(signals[0].quote_volume, Decimal { units: 10_204_081_632 });
}

#[test]
fn margin_boundary_is_strict() {
    // 101 * 1.00001 == 101.00101
    assert!(detect_arbitrage(&book_100_101(), dec(10_100_101, 5), 10, dec(1, 0)).is_empty());
    let above = detect_arbitrage(&book_100_101(), dec(101_001_011, 6), 10, dec(1, 0));
    assert_eq!(above.len(), 1);
    assert_eq!(above[0].direction, Direction::BuyCexSellDex);
}

#[test]
fn margin_boundary_is_strict_when_selling() {
    // 99 * 1.00001 == 99.00099, the best bid
    let level = |m: i128| PriceLevel { price: dec(m, 5), quantity: dec(5, 0) };
    let mut b = OrderBook::new();
    b.apply_updates(Side::Bid, &[level(9_900_099)]);
    b.apply_updates(Side::Ask, &[level(10_100_000)]);
    assert!(detect_arbitrage(&b, dec(99, 0), 10, dec(1, 0)).is_empty());
    assert_eq!(detect_arbitrage(&b, dec(98, 0), 10, dec(1, 0)).len(), 1);
}

#[test]
fn no_signal_at_the_mid_or_inside_the_spread() {
    assert!(detect_arbitrage(&book_100_101(), dec(1005, 1), 0, dec(1, 0)).is_empty());
    assert!(detect_arbitrage(&book_100_101(), dec(1007, 1), 0, dec(1, 0)).is_empty());
    assert!(detect_arbitrage(&book_100_101(), dec(1003, 1), 0, dec(1, 0)).is_empty());
}

#[test]
fn at_most_one_direction_fires() {
    // a crossed book: best bid above best ask
    let mut b = OrderBook::new();
    b.apply_updates(Side::Bid, &[lvl(110, 5)]);
    b.apply_updates(Side::Ask, &[lvl(90, 5)]);
    for price in [80, 95, 100, 105, 120] {
        assert!(detect_arbitrage(&b, dec(price, 0), 0, dec(1, 0)).len() <= 1);
    }
}

#[test]
fn no_signal_without_depth_or_mid() {
    assert!(detect_arbitrage(&book_100_101(), dec(200, 0), 0, dec(6, 0)).is_empty());
    let mut one_sided = OrderBook::new();
    one_sided.apply_updates(Side::Ask, &[lvl(101, 5)]);
    assert!(detect_arbitrage(&one_sided, dec(200, 0), 0, dec(1, 0)).is_empty());
}

#[test]
fn agent_waits_for_both_venues() {
    let mut agent = ArbitrageAgent::new(args(0, 1));
    assert!(agent.check_for_arbitrage().is_empty());
    agent.handle_dex_message(DexData { pool_price: dec(102, 0) });
    assert!(agent.check_for_arbitrage().is_empty());
    let mut other = ArbitrageAgent::new(args(0, 1));
    other.handle_cex_message(book_100_101());
    assert!(other.check_for_arbitrage().is_empty());
    agent.handle_cex_message(book_100_101());
    let signals = agent.check_for_arbitrage();
    assert_eq!(signals.len(), 1);
    assert_eq!(signals[0].quote_volume, dec(102, 0));
}

#[test]
fn agent_uses_latest_price() {
    let mut agent = ArbitrageAgent::new(args(0, 1));
    agent.handle_cex_message(book_100_101());
    agent.handle_dex_message(DexData { pool_price: dec(102, 0) });
    assert_eq!(agent.check_for_arbitrage().len(), 1);
    agent.handle_dex_message(DexData { pool_price: dec(1005, 1) });
    assert!(agent.check_for_arbitrage().is_empty());
}

#[test]
fn book_update_events_build_the_latest_book() {
    let mut agent = ArbitrageAgent::new(args(0, 1));
    assert!(agent.on_book_update(Side::Bid, &[lvl(100, 5)]).is_empty());
    assert!(agent.on_book_update(Side::Ask, &[lvl(101, 5)]).is_empty());
    let signals = agent.on_reference_price(DexData { pool_price: dec(102, 0) });
    assert_eq!(signals.len(), 1);
    assert_eq!(signals[0].direction, Direction::BuyCexSellDex);
    assert_eq!(signals[0].cex_price, dec(101, 0));
    // the only ask leaves: no mid, no signal
    assert!(agent.on_book_update(Side::Ask, &[lvl(101, 0)]).is_empty());
    let back = agent.on_book_update(Side::Ask, &[lvl(101, 5)]);
    assert_eq!(back.len(), 1);
}

#[test]
fn margin_from_settings_is_applied() {
    let mut agent = ArbitrageAgent::new(args(10, 1));
    agent.on_book_update(Side::Bid, &[lvl(100, 5)]);
    agent.on_book_update(Side::Ask, &[lvl(101, 5)]);
    assert!(agent.on_reference_price(DexData { pool_price: dec(10_100_101, 5) }).is_empty());
    assert_eq!(agent.on_reference_price(DexData { pool_price: dec(10_100_102, 5) }).len(), 1);
}
