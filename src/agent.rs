//! The coordinator's state: the latest book of the centralized venue and the
//! latest price of the decentralized one, and the detection pass run after
//! every event.
use crate::config::CliArgs;
use crate::decimal::Decimal;
use crate::detector::{detect_arbitrage, signals_of, ArbitrageSignal};
use crate::order_book::{quantity_after, quantity_in, OrderBook, PriceLevel, Side};
use vstd::prelude::*;

verus! {

/// One reference-price event of the decentralized venue.
#[derive(Clone, Copy, Debug, PartialEq, Eq, Structural)]
pub struct DexData {
    pub pool_price: Decimal,
}

/// The trade volume that the settings allow, as a decimal.
pub open spec fn volume_of(config: CliArgs) -> Decimal {
    Decimal { units: (config.token_a_buffer * 1_000_000_000_000) as i128 }
}

pub struct ArbitrageAgent {
    config: CliArgs,
    latest_cex_orderbook: Option<OrderBook>,
    latest_dex_price: Option<Decimal>,
}

impl ArbitrageAgent {
    pub closed spec fn config(&self) -> CliArgs {
        self.config
    }

    pub closed spec fn latest_book(&self) -> Option<OrderBook> {
        self.latest_cex_orderbook
    }

    pub closed spec fn latest_price(&self) -> Option<Decimal> {
        self.latest_dex_price
    }

    pub open spec fn wf(&self) -> bool {
        self.latest_book() is Some ==> self.latest_book()->0.wf()
    }

    /// What a detection pass reports in this state: nothing until both
    /// venues have been heard from.
    pub open spec fn pending_signals(&self) -> Seq<ArbitrageSignal> {
        match (self.latest_book(), self.latest_price()) {
            (Some(book), Some(price)) => signals_of(
                book,
                price,
                self.config().min_gain_margin,
                volume_of(self.config()),
            ),
            _ => Seq::empty(),
        }
    }

    /// The levels of `side` in the latest book; none before the first book.
    pub open spec fn latest_side(&self, side: Side) -> Seq<PriceLevel> {
        match self.latest_book() {
            Some(book) => book.side_view(side),
            None => Seq::empty(),
        }
    }

    /// No signal comes before both venues have been heard from.
    pub proof fn lemma_no_signal_before_both_venues(&self)
        requires
            self.latest_book() is None || self.latest_price() is None,
        ensures
            self.pending_signals().len() == 0,
    {
    }

    /// An agent that has heard from neither venue.
    pub fn new(config: CliArgs) -> (r: ArbitrageAgent)
        ensures
            r.wf(),
            r.config() == config,
            r.latest_book() is None,
            r.latest_price() is None,
    {
        ArbitrageAgent { config, latest_cex_orderbook: None, latest_dex_price: None }
    }

    /// Takes a new book of the centralized venue.
    pub fn handle_cex_message(&mut self, msg: OrderBook)
        requires
            msg.wf(),
        ensures
            final(self).wf(),
            final(self).latest_book() == Some(msg),
            final(self).latest_price() == old(self).latest_price(),
            final(self).config() == old(self).config(),
    {
        self.latest_cex_orderbook = Some(msg);
    }

    /// Takes a new price of the decentralized venue, replacing the last one.
    pub fn handle_dex_message(&mut self, msg: DexData)
        requires
            old(self).wf(),
        ensures
            final(self).wf(),
            final(self).latest_price() == Some(msg.pool_price),
            final(self).latest_book() == old(self).latest_book(),
            final(self).config() == old(self).config(),
    {
        self.latest_dex_price = Some(msg.pool_price);
    }

    /// A book-update event: applies `updates` to `side` of the latest book
    /// (an empty book before the first event), then runs a detection pass.
    pub fn on_book_update(&mut self, side: Side, updates: &[PriceLevel]) -> (r: Vec<ArbitrageSignal>)
        requires
            old(self).wf(),
            forall|k: int| 0 <= k < updates@.len() ==> updates@[k].quantity.units >= 0,
        ensures
            final(self).wf(),
            final(self).latest_book() is Some,
            forall|p: int|
                quantity_in(final(self).latest_side(side), p) == quantity_after(
                    quantity_in(old(self).latest_side(side), p),
                    updates@,
                    p,
                ),
            side is Bid ==> final(self).latest_side(Side::Ask) == old(self).latest_side(Side::Ask),
            side is Ask ==> final(self).latest_side(Side::Bid) == old(self).latest_side(Side::Bid),
            final(self).latest_price() == old(self).latest_price(),
            final(self).config() == old(self).config(),
            r@ == final(self).pending_signals(),
    {
        let mut book = match self.latest_cex_orderbook.take() {
            Some(b) => b,
            None => OrderBook::new(),
        };
        book.apply_updates(side, updates);
        self.latest_cex_orderbook = Some(book);
        self.check_for_arbitrage()
    }

    /// A reference-price event: replaces the latest price, then runs a
    /// detection pass.
    pub fn on_reference_price(&mut self, msg: DexData) -> (r: Vec<ArbitrageSignal>)
        requires
            old(self).wf(),
        ensures
            final(self).wf(),
            final(self).latest_price() == Some(msg.pool_price),
            final(self).latest_book() == old(self).latest_book(),
            final(self).config() == old(self).config(),
            r@ == final(self).pending_signals(),
    {
        self.handle_dex_message(msg);
        self.check_for_arbitrage()
    }

    /// Runs one detection pass on the latest state.
    pub fn check_for_arbitrage(&self) -> (r: Vec<ArbitrageSignal>)
        requires
            self.wf(),
        ensures
            r@ == self.pending_signals(),
    {
        match (&self.latest_cex_orderbook, self.latest_dex_price) {
            (Some(book), Some(price)) => {
                let volume = Decimal::from_u64(self.config.token_a_buffer);
                detect_arbitrage(book, price, self.config.min_gain_margin, volume)
            },
            _ => Vec::new(),
        }
    }
}

} // verus!
