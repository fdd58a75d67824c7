//! Run-time settings.
use vstd::prelude::*;

verus! {

/// Settings read once at startup: the two endpoints and the pool of the
/// decentralized venue, the centralized venue's trading pair, the minimum
/// gain margin in parts per million, and the most base units to trade.
#[derive(Clone, Debug)]
pub struct CliArgs {
    pub ws_endpoint: String,
    pub rpc_endpoint: String,
    pub whirlpool_address: String,
    pub cex_trading_pair: String,
    pub min_gain_margin: u64,
    pub token_a_buffer: u64,
}

} // verus!
