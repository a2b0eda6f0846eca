//! Aggregation of top-of-book depth from several trading venues.
//!
//! Every venue sends full snapshots of its bids and asks. The book keeps the
//! latest snapshot of each venue, and on demand merges all of them into one
//! ranked view of bounded depth with the spread between the best ask and the
//! best bid.
//!
//! Prices and amounts are exact decimals. Their comparison and subtraction are
//! those of the `rust_decimal` crate; everything else is verified.

pub mod book;
pub mod decimal;
pub mod level;
pub mod rank;

pub use crate::book::Exchanges;
pub use crate::book::InTick;
pub use crate::book::OrderDepths;
pub use crate::book::OutTick;
pub use crate::book::ToTick;
pub use crate::decimal::Dec;
pub use crate::decimal::Order;
pub use crate::level::Exchange;
pub use crate::level::Level;
pub use crate::level::ToLevel;
pub use crate::level::ToLevels;
