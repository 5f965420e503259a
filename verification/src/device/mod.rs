//! Devices: the flattened device tree, its property values and its nodes,
//! and the drivers that decide what the device registers are given.
pub mod dtb_value;
pub mod dtb_token;
pub mod device_tree;
pub mod uart;
pub mod drivers;
pub mod plic;
pub mod clint;
