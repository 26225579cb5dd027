pub mod asset;
pub mod bytes;
pub mod contract;
pub mod error;
pub mod registry;
