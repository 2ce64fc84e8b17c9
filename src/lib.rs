//! Aggregates the order books of several exchanges into one view: the best
//! levels of each side across every exchange and the spread between them.
//!
//! Prices and amounts are fixed-point numbers in units of 10^-8, read from
//! the decimal texts that exchanges send.

pub mod binance;
pub mod bitstamp;
pub mod decimal;
pub mod exchange;
pub mod order_book;
pub mod ranking;
pub mod service;
pub mod text;
