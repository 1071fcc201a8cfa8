//! Character devices.

pub mod uart;

pub use uart::UART;
