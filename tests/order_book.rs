use cexdex_arb::decimal::Decimal;
use cexdex_arb::order_book::{OrderBook, PriceLevel, Side};

fn dec(mantissa: i128, scale: u32) -> Decimal {
    Decimal::from_parts(mantissa, scale).unwrap()
}

fn lvl(price: i128, quantity: i128) -> PriceLevel {
    PriceLevel { price: dec(price, 0), quantity: dec(quantity, 0) }
}

fn book(bids: &[PriceLevel], asks: &[PriceLevel]) -> OrderBook {
    let mut b = OrderBook::new();
    b.apply_updates(Side::Bid, bids);
    b.apply_updates(Side::Ask, asks);
    b
}

#[test]
fn zero_quantity_for_absent_price_leaves_book_unchanged() {
    let mut b = book(&[lvl(9, 1), lvl(10, 2)], &[lvl(11, 3)]);
    let before = b.clone();
    b.apply_updates(Side::Bid, &[lvl(8, 0)]);
    assert_eq!(b, before);
    b.apply_updates(Side::Ask, &[lvl(12, 0)]);
    assert_eq!(b, before);
}

#[test]
fn zero_quantity_removes_present_price() {
    let mut b = book(&[lvl(9, 1), lvl(10, 2)], &[]);
    b.apply_updates(Side::Bid, &[lvl(10, 0)]);
    assert_eq!(b.quantity_at(Side::Bid, dec(10, 0)), Decimal::zero());
    assert_eq!(b.quantity_at(Side::Bid, dec(9, 0)), dec(1, 0));
}

#[test]
fn second_update_for_same_price_wins() {
    let mut b = OrderBook::new();
    b.apply_updates(Side::Ask, &[lvl(11, 3), lvl(11, 7)]);
    assert_eq!(b.quantity_at(Side::Ask, dec(11, 0)), dec(7, 0));
    b.apply_updates(Side::Ask, &[lvl(11, 2)]);
    assert_eq!(b.quantity_at(Side::Ask, dec(11, 0)), dec(2, 0));
    assert_eq!(b.quantity_at(Side::Bid, dec(11, 0)), Decimal::zero());
}

#[test]
fn updates_out_of_order_keep_book_sorted() {
    let b = book(&[], &[lvl(12, 2), lvl(10, 1), lvl(11, 2)]);
    // the walk starts from the lowest ask whatever the insertion order
    assert_eq!(b.calculate_average_filled_price(dec(1, 0), Side::Ask), Some(dec(10, 0)));
}

#[test]
fn mid_price_of_both_sides() {
    let mut b = book(&[lvl(9, 1), lvl(10, 1)], &[lvl(11, 1), lvl(12, 1)]);
    assert_eq!(b.get_mid_price(), Some(dec(105, 1)));
    b.apply_updates(Side::Ask, &[lvl(11, 0), lvl(12, 0)]);
    assert_eq!(b.get_mid_price(), None);
}

#[test]
fn mid_price_of_empty_book_is_none() {
    assert_eq!(OrderBook::new().get_mid_price(), None);
    let b = book(&[lvl(9, 1)], &[]);
    assert_eq!(b.get_mid_price(), None);
}

#[test]
fn mid_price_rounds_toward_negative_infinity() {
    let up = |p: Decimal| PriceLevel { price: p, quantity: dec(1, 0) };
    let mut b = OrderBook::new();
    b.apply_updates(Side::Bid, &[up(Decimal { units: 1 })]);
    b.apply_updates(Side::Ask, &[up(Decimal { units: 2 })]);
    assert_eq!(b.get_mid_price(), Some(Decimal { units: 1 }));
    let mut n = OrderBook::new();
    n.apply_updates(Side::Bid, &[up(Decimal { units: -3 })]);
    n.apply_updates(Side::Ask, &[up(Decimal { units: 0 })]);
    assert_eq!(n.get_mid_price(), Some(Decimal { units: -2 }));
}

#[test]
fn mid_price_of_extreme_prices_does_not_overflow() {
    let up = |p: Decimal| PriceLevel { price: p, quantity: dec(1, 0) };
    let mut b = OrderBook::new();
    b.apply_updates(Side::Bid, &[up(Decimal { units: i128::MAX })]);
    b.apply_updates(Side::Ask, &[up(Decimal { units: i128::MAX - 1 })]);
    assert_eq!(b.get_mid_price(), Some(Decimal { units: i128::MAX - 1 }));
}

#[test]
fn average_fill_walks_asks_upward() {
    let b = book(&[], &[lvl(10, 1), lvl(11, 2)]);
    assert_eq!(b.calculate_average_filled_price(dec(2, 0), Side::Ask), Some(dec(105, 1)));
    assert_eq!(b.calculate_average_filled_price(dec(3, 0), Side::Ask), Some(Decimal { units: 10_666_666_666_666 }));
}

#[test]
fn average_fill_with_insufficient_depth_is_none() {
    let b = book(&[], &[lvl(10, 1), lvl(11, 2)]);
    assert_eq!(b.calculate_average_filled_price(dec(5, 0), Side::Ask), None);
    assert_eq!(b.calculate_average_filled_price(dec(1, 0), Side::Bid), None);
}

#[test]
fn average_fill_walks_bids_downward() {
    let b = book(&[lvl(8, 5), lvl(9, 1), lvl(10, 1)], &[]);
    assert_eq!(b.calculate_average_filled_price(dec(2, 0), Side::Bid), Some(dec(95, 1)));
    assert_eq!(b.calculate_average_filled_price(dec(4, 0), Side::Bid), Some(dec(875, 2)));
}

#[test]
fn average_fill_of_zero_or_negative_target_is_zero() {
    let b = book(&[lvl(9, 1)], &[lvl(10, 1)]);
    assert_eq!(b.calculate_average_filled_price(Decimal::zero(), Side::Ask), Some(Decimal::zero()));
    assert_eq!(OrderBook::new().calculate_average_filled_price(Decimal::zero(), Side::Ask), Some(Decimal::zero()));
    assert_eq!(b.calculate_average_filled_price(dec(-1, 0), Side::Bid), Some(Decimal::zero()));
}

#[test]
fn average_fill_overflow_is_none() {
    let mut b = OrderBook::new();
    b.apply_updates(Side::Ask, &[PriceLevel { price: Decimal { units: i128::MAX / 2 }, quantity: dec(1, 0) }]);
    assert_eq!(b.calculate_average_filled_price(dec(1, 0), Side::Ask), None);
}
