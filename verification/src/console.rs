//! The console device of the command-line runner: what it stores and what each read or write
//! asks of the terminal. The terminal itself (standard input and output, the process exit) is
//! driven by the caller, which performs the returned requests.
use vstd::prelude::*;
use crate::uxn::bytes::{join_short, short_from_bytes};
use crate::uxn::memory::Memory;

verus! {

/// What a read of a console port needs.
#[derive(Debug, Clone, Copy, PartialEq, Eq, Structural)]
pub enum ConsoleRead {
    /// The next byte of standard input (0 where there is none): Console/read.
    Stdin,
    /// The value last written to the port.
    Stored(u8),
}

/// What a write to a console port asks of the terminal, once the value is stored.
#[derive(Debug, Clone, Copy, PartialEq, Eq, Structural)]
pub enum ConsoleWrite {
    /// Nothing more: the value is only kept for later reads.
    Stored,
    /// System/expansion: the memory command was run.
    Expansion,
    /// System/state with a non-zero value: exit the process with this code.
    Exit(u8),
    /// Console/write: print the byte on standard output.
    Stdout(u8),
    /// Console/error: print the byte on standard error.
    Stderr(u8),
    /// A port beyond the system and console devices: report the write.
    UnknownPort,
}

/// The request a write of `value` to `port` makes.
pub open spec fn console_write_request(port: u8, value: u8) -> ConsoleWrite {
    if port == 0x03 {
        ConsoleWrite::Expansion
    } else if port == 0x0f {
        if value != 0 {
            ConsoleWrite::Exit(value & 0x7f)
        } else {
            ConsoleWrite::Stored
        }
    } else if port == 0x18 {
        ConsoleWrite::Stdout(value)
    } else if port == 0x19 {
        ConsoleWrite::Stderr(value)
    } else if port <= 0x1f {
        ConsoleWrite::Stored
    } else {
        ConsoleWrite::UnknownPort
    }
}

/// What a read of `port` gives, with the ports holding `ports`.
pub open spec fn console_read(ports: Seq<u8>, port: u8) -> ConsoleRead {
    if port == 0x12 { ConsoleRead::Stdin } else { ConsoleRead::Stored(ports[port as int]) }
}

/// Reading a port gives the value last written to it, but for Console/read, which reads
/// standard input.
pub proof fn lemma_console_read_after_write(ports: Seq<u8>, port: u8, value: u8)
    requires
        ports.len() == 256,
    ensures
        console_read(ports.update(port as int, value), port)
            == if port == 0x12 { ConsoleRead::Stdin } else { ConsoleRead::Stored(value) },
{
}

/// The console device: the 256 device ports.
pub struct ConsoleDevice {
    device: [u8; 256],
}

impl ConsoleDevice {
    /// The values last written to each port.
    pub closed spec fn ports(&self) -> Seq<u8> {
        self.device@
    }

    pub fn new() -> (device: Self)
        ensures
            device.ports() == Seq::new(256, |i: int| 0u8),
            device.ports().len() == 256,
    {
        let ports = [0u8; 256];
        proof {
            vstd::array::axiom_spec_array_fill_for_copy_type::<u8, 256>(0u8);
            vstd::array::array_len_matches_n(&ports);
        }
        assert(ports@ =~= Seq::new(256, |i: int| 0u8));
        ConsoleDevice { device: ports }
    }

    /// What a read of `port` gives: standard input for Console/read, the stored value otherwise.
    pub fn input(&self, port: u8) -> (read: ConsoleRead)
        ensures
            read == console_read(self.ports(), port),
    {
        if port == 0x12 {
            ConsoleRead::Stdin
        } else {
            proof { vstd::array::array_len_matches_n(&self.device); }
            ConsoleRead::Stored(self.device[port as usize])
        }
    }

    /// Stores `value` on `port`; a write to port 0x03 runs the expansion command whose descriptor
    /// address ports 0x02 and 0x03 hold. Returns what else the write asks of the terminal.
    pub fn output(&mut self, port: u8, value: u8, memory: &mut Memory) -> (request: ConsoleWrite)
        ensures
            final(self).ports() == old(self).ports().update(port as int, value),
            final(self).ports().len() == 256,
            port == 0x03 ==> final(memory)@ == old(memory)@.expansion_command(
                join_short(old(self).ports()[0x02], value),
            ),
            port != 0x03 ==> final(memory)@ == old(memory)@,
            request == console_write_request(port, value),
    {
        proof { vstd::array::array_len_matches_n(&self.device); }
        self.device[port as usize] = value;
        if port == 0x03 {
            let descriptor_address = short_from_bytes(self.device[0x02], self.device[0x03]);
            memory.expansion_execute(descriptor_address);
            ConsoleWrite::Expansion
        } else if port == 0x0f {
            if value != 0 {
                ConsoleWrite::Exit(value & 0x7f)
            } else {
                ConsoleWrite::Stored
            }
        } else if port == 0x18 {
            ConsoleWrite::Stdout(value)
        } else if port == 0x19 {
            ConsoleWrite::Stderr(value)
        } else if port <= 0x1f {
            ConsoleWrite::Stored
        } else {
            ConsoleWrite::UnknownPort
        }
    }
}

} // verus!
