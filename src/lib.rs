//! Cross-venue arbitrage detection: an order book for the centralized venue,
//! a single reference price for the decentralized venue, and the decision
//! procedure that compares them.

pub mod decimal;
pub mod order_book;
pub mod config;
pub mod detector;
pub mod agent;
