//! Drivers for boot-time data: the device tree and file system types.

pub mod boot_info;
pub mod device_tree;
pub mod fs;

pub use device_tree::{DeviceTree, Interpreter, Node, ParseDTBError, Property, ReservedMemoryRegion};
