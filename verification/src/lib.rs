//! Uxn virtual machine and Uxntal toolchain with machine-checked contracts.
pub mod uxn;
pub mod text;
pub mod uxntal;
pub mod shared;
pub mod style;
pub mod debugger;
pub mod toolchain;
pub mod console;
pub mod gui_device;
pub mod file_device;
pub mod gui_frame;
