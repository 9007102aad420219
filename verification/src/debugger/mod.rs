//! The state and commands of the interactive debugger.
pub mod app;
pub use app::{ActivePane, App, ExecutionState};


pub mod device;
pub use device::CaptureDevice;

pub mod disassembly_view;
pub use disassembly_view::{DisassemblyLine, DisassemblyLineKind, DisassemblyView};

pub mod display;

pub mod keys;

pub mod theme;

