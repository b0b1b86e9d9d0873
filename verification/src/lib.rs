//! A verified market for bulk coretime.

pub mod arithmetic;
pub mod assets;
pub mod auction;
pub mod auction_laws;
pub mod broker;
pub mod core_mask;
pub mod market;
pub mod market_laws;
pub mod model;
pub mod pallet;
pub mod price;
pub mod price_laws;
pub mod primitives;
pub mod psm;
pub mod records;
pub mod renewal;
pub mod sale_laws;
pub mod storage;
pub mod table;
pub mod weight;
pub mod xcm;
