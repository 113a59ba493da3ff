//! Verified core of a live auction board client: wire-format codec,
//! auction store reconciliation, and render-layout computations.
pub mod codec;
pub mod digits;
pub mod literals;
pub mod msg;
pub mod render;
pub mod session;
pub mod store;

pub use msg::{Auction, Bid, Message};
pub use session::place_bid;
pub use store::AuctionState;
