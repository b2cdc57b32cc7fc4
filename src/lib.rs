//! A small paste service core: short word identifiers, an upload relay that
//! forwards a request body to storage chunk by chunk, and the download decision.

pub mod bip39;
pub mod gateway;
pub mod error;
pub mod upload;
pub mod download;
