pub mod bytes;
pub mod device;
pub use device::{NullDevice, VmDevice};

pub mod memory;
pub use memory::{Memory, MemoryState};

pub mod operands;
pub use operands::Operands;

pub mod stack;
pub use stack::{Stack, StackState};

pub mod vm;
pub use vm::{Vm, VmError, VmState};
