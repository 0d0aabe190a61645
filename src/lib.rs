//! A smart-house model served over a small request protocol: rooms holding
//! switchable devices, a length-prefixed and a sentinel-delimited framing of
//! requests, the dispatch of parsed commands against the house, and the
//! fusion of pushed temperature samples into the same state.

pub mod client;
pub mod codec;
pub mod device_info_provider;
pub mod dispatch;
pub mod errors;
pub mod keyed;
pub mod protocol;
pub mod smart_house;
pub mod telemetry;
pub mod text;
pub mod transfer;

pub use protocol::Command;
