//! The decision whether a profitable round trip exists between the book of
//! the centralized venue and the price of the decentralized one.
use crate::decimal::{floor_div_i128, Decimal, UNITS_PER_ONE};
use crate::order_book::{average_fill, fits_i128, mid_of, walk_order, OrderBook};
use vstd::prelude::*;

verus! {

/// Parts per million: the unit of the margin.
pub const PPM: i128 = 1_000_000;

#[derive(Clone, Copy, Debug, PartialEq, Eq, Structural)]
pub enum Direction {
    /// Buy the base asset on the centralized venue, sell it on the decentralized one.
    BuyCexSellDex,
    /// Sell the base asset on the centralized venue, buy it on the decentralized one.
    SellCexBuyDex,
}

/// A detected opportunity: its direction, the average centralized fill price
/// and the reference price that were compared, the mid price, and the volumes.
#[derive(Clone, Copy, Debug, PartialEq, Eq, Structural)]
pub struct ArbitrageSignal {
    pub direction: Direction,
    pub cex_price: Decimal,
    pub dex_price: Decimal,
    pub mid_price: Decimal,
    pub base_volume: Decimal,
    pub quote_volume: Decimal,
}

/// `price * (1 + margin_ppm / 10^6)`, scaled by 10^6 so that it is a whole number.
pub open spec fn with_margin(price: int, margin_ppm: u64) -> int {
    price * (PPM + margin_ppm)
}

/// The signal for buying on the centralized venue: the reference price lies
/// above the mid, and strictly above the average ask fill for the volume
/// raised by the margin. The volumes and the scaled comparison must fit
/// 128-bit integers.
pub open spec fn buy_signal(book: OrderBook, dex: Decimal, margin_ppm: u64, volume: Decimal) -> Option<ArbitrageSignal> {
    match mid_of(book.bids_view(), book.asks_view()) {
        None => None,
        Some(mid) => if dex.units > mid {
            match average_fill(walk_order(book.asks_view(), false), volume.units as int) {
                None => None,
                Some(avg) => {
                    let lhs = dex.units * PPM;
                    let rhs = with_margin(avg, margin_ppm);
                    let quote = volume.units * dex.units;
                    if fits_i128(lhs) && fits_i128(rhs) && fits_i128(quote) && lhs > rhs {
                        Some(ArbitrageSignal {
                            direction: Direction::BuyCexSellDex,
                            cex_price: Decimal { units: avg as i128 },
                            dex_price: dex,
                            mid_price: Decimal { units: mid as i128 },
                            base_volume: volume,
                            quote_volume: Decimal { units: (quote / UNITS_PER_ONE as int) as i128 },
                        })
                    } else {
                        None
                    }
                },
            }
        } else {
            None
        },
    }
}

/// The signal for selling on the centralized venue: the reference price lies
/// below the mid, and the average bid fill for the volume lies strictly above
/// the reference price raised by the margin. The quote volume is the base
/// volume over the reference price, which must be positive; the volumes and
/// the scaled comparison must fit 128-bit integers.
pub open spec fn sell_signal(book: OrderBook, dex: Decimal, margin_ppm: u64, volume: Decimal) -> Option<ArbitrageSignal> {
    match mid_of(book.bids_view(), book.asks_view()) {
        None => None,
        Some(mid) => if dex.units < mid {
            match average_fill(walk_order(book.bids_view(), true), volume.units as int) {
                None => None,
                Some(avg) => {
                    let lhs = avg * PPM;
                    let rhs = with_margin(dex.units as int, margin_ppm);
                    let scaled = volume.units * UNITS_PER_ONE;
                    if fits_i128(lhs) && fits_i128(rhs) && fits_i128(scaled) && dex.units > 0 && lhs > rhs {
                        Some(ArbitrageSignal {
                            direction: Direction::SellCexBuyDex,
                            cex_price: Decimal { units: avg as i128 },
                            dex_price: dex,
                            mid_price: Decimal { units: mid as i128 },
                            base_volume: volume,
                            quote_volume: Decimal { units: (scaled / dex.units as int) as i128 },
                        })
                    } else {
                        None
                    }
                },
            }
        } else {
            None
        },
    }
}

pub open spec fn option_seq(o: Option<ArbitrageSignal>) -> Seq<ArbitrageSignal> {
    match o {
        Some(s) => seq![s],
        None => Seq::empty(),
    }
}

/// Everything one detection pass reports, buy direction first.
pub open spec fn signals_of(book: OrderBook, dex: Decimal, margin_ppm: u64, volume: Decimal) -> Seq<ArbitrageSignal> {
    option_seq(buy_signal(book, dex, margin_ppm, volume)) + option_seq(sell_signal(book, dex, margin_ppm, volume))
}

/// A reference price exactly equal to the average ask fill raised by the
/// margin does not signal a purchase: the comparison is strict.
pub proof fn lemma_margin_boundary_is_not_enough(book: OrderBook, dex: Decimal, margin_ppm: u64, volume: Decimal, avg: int)
    requires
        average_fill(walk_order(book.asks_view(), false), volume.units as int) == Some(avg),
        dex.units * PPM == with_margin(avg, margin_ppm),
    ensures
        buy_signal(book, dex, margin_ppm, volume) is None,
{
}

/// The two directions never fire on the same pass: one needs the reference
/// price above the mid, the other below it.
pub proof fn lemma_directions_exclusive(book: OrderBook, dex: Decimal, margin_ppm: u64, volume: Decimal)
    ensures
        !(buy_signal(book, dex, margin_ppm, volume) is Some && sell_signal(book, dex, margin_ppm, volume) is Some),
        signals_of(book, dex, margin_ppm, volume).len() <= 1,
{
}

fn detect_buy(book: &OrderBook, dex: Decimal, margin_ppm: u64, volume: Decimal, mid: Decimal) -> (r: Option<ArbitrageSignal>)
    requires
        book.wf(),
        mid_of(book.bids_view(), book.asks_view()) == Some(mid.units as int),
        dex.units > mid.units,
    ensures
        r == buy_signal(*book, dex, margin_ppm, volume),
{
    let avg = match book.calculate_average_filled_price(volume, crate::order_book::Side::Ask) {
        Some(a) => a,
        None => return None,
    };
    let lhs = match dex.units.checked_mul(PPM) {
        Some(v) => v,
        None => return None,
    };
    let rhs = match avg.units.checked_mul(PPM + margin_ppm as i128) {
        Some(v) => v,
        None => return None,
    };
    let quote = match volume.units.checked_mul(dex.units) {
        Some(v) => v,
        None => return None,
    };
    if lhs > rhs {
        Some(ArbitrageSignal {
            direction: Direction::BuyCexSellDex,
            cex_price: avg,
            dex_price: dex,
            mid_price: mid,
            base_volume: volume,
            quote_volume: Decimal { units: floor_div_i128(quote, UNITS_PER_ONE) },
        })
    } else {
        None
    }
}

fn detect_sell(book: &OrderBook, dex: Decimal, margin_ppm: u64, volume: Decimal, mid: Decimal) -> (r: Option<ArbitrageSignal>)
    requires
        book.wf(),
        mid_of(book.bids_view(), book.asks_view()) == Some(mid.units as int),
        dex.units < mid.units,
    ensures
        r == sell_signal(*book, dex, margin_ppm, volume),
{
    let avg = match book.calculate_average_filled_price(volume, crate::order_book::Side::Bid) {
        Some(a) => a,
        None => return None,
    };
    let lhs = match avg.units.checked_mul(PPM) {
        Some(v) => v,
        None => return None,
    };
    let rhs = match dex.units.checked_mul(PPM + margin_ppm as i128) {
        Some(v) => v,
        None => return None,
    };
    let scaled = match volume.units.checked_mul(UNITS_PER_ONE) {
        Some(v) => v,
        None => return None,
    };
    if dex.units > 0 && lhs > rhs {
        Some(ArbitrageSignal {
            direction: Direction::SellCexBuyDex,
            cex_price: avg,
            dex_price: dex,
            mid_price: mid,
            base_volume: volume,
            quote_volume: Decimal { units: floor_div_i128(scaled, dex.units) },
        })
    } else {
        None
    }
}

/// One detection pass against a book and a reference price, with the margin
/// in parts per million and the volume in base units. Both directions are
/// evaluated; at most one can fire.
pub fn detect_arbitrage(book: &OrderBook, dex_price: Decimal, margin_ppm: u64, max_trade_volume: Decimal) -> (r: Vec<ArbitrageSignal>)
    requires
        book.wf(),
    ensures
        r@ == signals_of(*book, dex_price, margin_ppm, max_trade_volume),
{
    let mut out: Vec<ArbitrageSignal> = Vec::new();
    let mid = match book.get_mid_price() {
        Some(m) => m,
        None => {
            assert(out@ =~= signals_of(*book, dex_price, margin_ppm, max_trade_volume));
            return out;
        },
    };
    let buy = if dex_price.units > mid.units {
        detect_buy(book, dex_price, margin_ppm, max_trade_volume, mid)
    } else {
        None
    };
    let sell = if dex_price.units < mid.units {
        detect_sell(book, dex_price, margin_ppm, max_trade_volume, mid)
    } else {
        None
    };
    if let Some(s) = buy {
        out.push(s);
    }
    if let Some(s) = sell {
        out.push(s);
    }
    assert(out@ =~= signals_of(*book, dex_price, margin_ppm, max_trade_volume));
    out
}

} // verus!
