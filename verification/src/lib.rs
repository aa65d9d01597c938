//! Verified core of a blocking two-wire serial-bus master driver.
//!
//! The crate derives hardware timing-register values from a clock
//! configuration, and runs write / read / write-then-read transactions as a
//! state machine over an abstract peripheral register surface, with
//! priority-ordered error classification and flush-on-NACK recovery.

pub mod engine;
pub mod errors;
pub mod pins;
pub mod port;
pub mod sim;
pub mod status;
pub mod timing;
