//! Validated subnet membership requests (join and stake) and FRC-0042 method
//! selectors, with their contracts proved.

pub mod address;
pub mod collateral;
pub mod command;
pub mod dispatch;
pub mod errors;
pub mod public_key;
pub mod selector;
pub mod subnet;
