//! Verified core of the Sinowealth 8051 HID ISP bootloader protocol.
//!
//! The library holds the protocol's rules: the platform table, the report
//! layouts sent to and read from the bootloader, the patching of the reset
//! vector around a write, and the read / write cycles as state machines that
//! say, after each HID transfer, what the caller has to do next.

pub mod text;
pub mod platform_spec;
pub mod read_section;
pub mod device_spec;
pub mod verify;
pub mod device;
pub mod progress;
pub mod protocol;
pub mod cycle;
pub mod read_cycle;
pub mod firmware;
pub mod write_cycle;
pub mod sleep;

