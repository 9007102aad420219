use vstd::prelude::*;
use std::collections::HashSet;
use crate::uxn::memory::MAXIMUM_ROM_SIZE;
use crate::uxn::vm::{
    device_port, fetched_memory, fresh_memory, fresh_stack, halts_at, inputs_at, instruction_at, operand_stack, outputs_at, step_relation,
    steps_to, MachineState, Vm, VmError, VmState,
};
use crate::uxn::bytes::{high_byte, low_byte, wrap_u8};
use crate::uxntal::disassembler::table_view;
use crate::uxntal::symbol_table::SymbolTable;
use super::device::CaptureDevice;
use crate::uxn::device::VmDevice;
use super::disassembly_view::{instruction_line_at, lemma_instruction_line_at, view_lines_from, DisassemblyView, LineView};

verus! {

broadcast use vstd::std_specs::hash::group_hash_axioms;

/// Whether the debugged program runs, waits, has stopped for good, or stopped at a breakpoint.
#[derive(Debug, Clone, Copy, PartialEq, Eq, Structural)]
pub enum ExecutionState {
    Paused,
    Running,
    Halted,
    Breakpoint(u16),
}

/// The pane that takes the keys.
#[derive(Debug, Clone, Copy, PartialEq, Eq, Structural)]
pub enum ActivePane {
    Disassembly,
    Console,
}

/// `x - y`, stopping at zero.
pub open spec fn saturating_sub(x: usize, y: usize) -> usize {
    if x >= y { (x - y) as usize } else { 0 }
}

/// The scroll offset that keeps line `target` in view: at least three lines below the top, and
/// scrolled to fifteen lines above it once it is twenty lines or more down.
pub open spec fn scroll_for(scroll: usize, target: usize) -> usize {
    if target < scroll + 3 {
        saturating_sub(target, 3)
    } else if target >= scroll + 20 {
        saturating_sub(target, 15)
    } else {
        scroll
    }
}

/// Whether keeping line `target` in view from offset `scroll` stays within `usize`: the offset
/// three lines down is always taken, the one twenty lines down only when `target` is not above
/// the first.
pub open spec fn scroll_fits(scroll: usize, target: usize) -> bool {
    &&& scroll + 3 <= usize::MAX
    &&& target >= scroll + 3 ==> scroll + 20 <= usize::MAX
}

/// `scroll_fits` for every line of a view of `line_count` lines.
pub open spec fn scroll_fits_lines(scroll: usize, line_count: int) -> bool {
    &&& scroll + 3 <= usize::MAX
    &&& scroll + 20 <= usize::MAX || line_count <= scroll + 3
}

/// The selection and scroll offset after following the program counter `pc`: the line of the
/// instruction at `pc` is selected and kept in view; with no such line nothing moves.
pub open spec fn followed(lines: Seq<LineView>, pc: u16, selected: usize, scroll: usize) -> (usize, usize) {
    match instruction_line_at(lines, pc) {
        Some(i) => (i as usize, scroll_for(scroll, i as usize)),
        None => (selected, scroll),
    }
}

/// The state of the debugger: the machine, the program, its disassembly, the breakpoints and
/// what the screen shows.
pub struct App {
    pub vm: Vm<CaptureDevice>,
    pub rom: Vec<u8>,
    pub rom_name: String,
    pub disassembly: DisassemblyView,
    pub breakpoints: HashSet<u16>,
    pub execution_state: ExecutionState,
    pub selected_line: usize,
    pub scroll_offset: usize,
    pub active_pane: ActivePane,
    pub console_scroll: usize,
    pub instruction_count: u64,
}

/// `set` with `address` taken out if it holds it, else put in.
pub open spec fn toggled(set: Set<u16>, address: u16) -> Set<u16> {
    if set.contains(address) { set.remove(address) } else { set.insert(address) }
}

/// Toggling a breakpoint twice gives back the breakpoints there were.
pub proof fn lemma_toggle_twice(set: Set<u16>, address: u16)
    ensures
        toggled(toggled(set, address), address) == set,
{
    assert(toggled(toggled(set, address), address) =~= set);
}

/// `trace` is a run of `tick` from `before` to `after`: the states it went through, and
/// `devices` the device after each, with no breakpoint on any executed instruction, no BRK and
/// no request to terminate before the last step, and the outcome that made it stop.
pub open spec fn is_tick_trace(
    trace: Seq<MachineState>,
    devices: Seq<CaptureDevice>,
    before: App,
    after: App,
    max_instructions: usize,
) -> bool {
                let steps = trace.len() - 1;
                &&& trace.len() >= 1
                &&& steps <= max_instructions
                &&& trace[0] == before.vm.state()
                &&& trace.last() == after.vm.state()
                &&& devices.len() == trace.len()
                &&& devices[0] == before.vm.device
                &&& devices.last() == after.vm.device
                &&& forall|i: int| 0 < i < steps ==> !(#[trigger] devices[i]).has_terminated()
                &&& forall|i: int| 0 <= i < steps ==> steps_to(#[trigger] trace[i], trace[i + 1])
                &&& forall|i: int| 0 <= i < steps ==> !before.breakpoints@.contains((#[trigger] trace[i]).memory.pc)
                &&& forall|i: int| 0 <= i < steps - 1 ==> !halts_at(#[trigger] trace[i])
                &&& after.instruction_count == before.instruction_count + steps
                    - (if steps > 0 && halts_at(trace[steps - 1]) { 1int } else { 0int })
                &&& match after.execution_state {
                    ExecutionState::Breakpoint(address) => address == trace.last().memory.pc
                        && before.breakpoints@.contains(address) && (steps > 0 ==> !halts_at(trace[steps - 1])),
                    ExecutionState::Halted => steps > 0 && (halts_at(trace[steps - 1]) || after.vm.device.has_terminated()),
                    ExecutionState::Running => steps == max_instructions
                        && (steps > 0 ==> !after.vm.device.has_terminated() && !halts_at(trace[steps - 1])),
                    ExecutionState::Paused => false,
                }
                &&& (after.selected_line, after.scroll_offset) == followed(
                    before.disassembly.spec_lines(),
                    after.vm.memory@.pc,
                    before.selected_line,
                    before.scroll_offset,
                )
                &&& after.breakpoints == before.breakpoints
                &&& after.disassembly == before.disassembly
                &&& after.rom == before.rom
            }

impl App {
    /// The debugger for `rom`, paused at its first instruction.
    pub fn new(rom: Vec<u8>, rom_name: String, symbol_table: Option<&SymbolTable>) -> (result: Result<Self, VmError>)
        ensures
            result is Err <==> rom@.len() > MAXIMUM_ROM_SIZE,
            result matches Err(error) ==> error == (VmError::RomTooLarge {
                size: rom@.len() as usize,
                maximum_capacity: MAXIMUM_ROM_SIZE,
            }),
            result matches Ok(app) ==> {
                &&& app.vm.state() == (MachineState { ws: fresh_stack(), rs: fresh_stack(), memory: fresh_memory(rom@) })
                &&& app.rom@ == rom@
                &&& app.rom_name@ == rom_name@
                &&& app.disassembly.spec_lines() == view_lines_from(rom@, table_view(symbol_table), 0x0100, 0, 0, Seq::<LineView>::empty())
                &&& app.breakpoints@ == Set::<u16>::empty()
                &&& app.execution_state == ExecutionState::Paused
                &&& (app.selected_line, app.scroll_offset) == followed(app.disassembly.spec_lines(), 0x0100, 0, 0)
                &&& app.active_pane == ActivePane::Disassembly
                &&& app.console_scroll == 0
                &&& app.instruction_count == 0
                &&& !app.vm.device.has_terminated()
            },
    {
        let device = CaptureDevice::new();
        let vm = match Vm::new_with_rom_and_device(rom.as_slice(), device) {
            Ok(vm) => vm,
            Err(error) => return Err(error),
        };
        let disassembly = DisassemblyView::new(rom.as_slice(), symbol_table, 0x0100);
        let mut app = App {
            vm,
            rom,
            rom_name,
            disassembly,
            breakpoints: HashSet::new(),
            execution_state: ExecutionState::Paused,
            selected_line: 0,
            scroll_offset: 0,
            active_pane: ActivePane::Disassembly,
            console_scroll: 0,
            instruction_count: 0,
        };
        app.follow_pc();
        Ok(app)
    }

    /// Selects the line of the instruction at the program counter and keeps it in view.
    pub fn follow_pc(&mut self)
        requires
            scroll_fits_lines(old(self).scroll_offset, old(self).disassembly.spec_lines().len() as int),
        ensures
            (final(self).selected_line, final(self).scroll_offset) == followed(
                old(self).disassembly.spec_lines(),
                old(self).vm.memory@.pc,
                old(self).selected_line,
                old(self).scroll_offset,
            ),
            final(self).vm == old(self).vm,
            final(self).rom == old(self).rom,
            final(self).rom_name == old(self).rom_name,
            final(self).disassembly == old(self).disassembly,
            final(self).breakpoints == old(self).breakpoints,
            final(self).execution_state == old(self).execution_state,
            final(self).active_pane == old(self).active_pane,
            final(self).console_scroll == old(self).console_scroll,
            final(self).instruction_count == old(self).instruction_count,
    {
        let pc = self.vm.memory.pc();
        proof { lemma_instruction_line_at(self.disassembly.spec_lines(), pc); }
        match self.disassembly.line_index_for_address(pc) {
            Some(line_index) => {
                self.selected_line = line_index;
                self.ensure_visible(line_index);
            },
            None => {},
        }
    }

    /// Executes one instruction unless the program has halted, counts it unless it was BRK, and
    /// pauses there, or halts on BRK or when the program asked to terminate.
    pub fn step(&mut self)
        requires
            scroll_fits_lines(old(self).scroll_offset, old(self).disassembly.spec_lines().len() as int),
            old(self).instruction_count < u64::MAX,
        ensures
            old(self).execution_state == ExecutionState::Halted ==> *final(self) == *old(self),
            old(self).execution_state != ExecutionState::Halted ==> {
                &&& steps_to(old(self).vm.state(), final(self).vm.state())
                &&& final(self).instruction_count == if halts_at(old(self).vm.state()) {
                    old(self).instruction_count
                } else {
                    (old(self).instruction_count + 1) as u64
                }
                &&& final(self).execution_state == if halts_at(old(self).vm.state()) || final(self).vm.device.has_terminated() {
                    ExecutionState::Halted
                } else {
                    ExecutionState::Paused
                }
                &&& (final(self).selected_line, final(self).scroll_offset) == followed(
                    old(self).disassembly.spec_lines(),
                    final(self).vm.memory@.pc,
                    old(self).selected_line,
                    old(self).scroll_offset,
                )
                &&& final(self).rom == old(self).rom
                &&& final(self).disassembly == old(self).disassembly
                &&& final(self).breakpoints == old(self).breakpoints
                &&& final(self).active_pane == old(self).active_pane
                &&& final(self).console_scroll == old(self).console_scroll
            },
            old(self).execution_state != ExecutionState::Halted ==> exists|in1: u8, in2: u8| #![trigger step_relation(old(self).vm.state(), final(self).vm.state(), in1, in2)] {
                let before = old(self).vm.state();
                &&& step_relation(before, final(self).vm.state(), in1, in2)
                &&& !inputs_at(before) && !outputs_at(before) ==> final(self).vm.device == old(self).vm.device
                &&& instruction_at(before) == 0x16 ==> exists|d: &mut CaptureDevice| *d == old(self).vm.device && *final(d) == final(self).vm.device
                    && call_ensures(<CaptureDevice as VmDevice>::input, (d, device_port(before)), in1)
                &&& instruction_at(before) == 0x36 ==> exists|d1: &mut CaptureDevice, d2: &mut CaptureDevice| {
                    &&& *d1 == old(self).vm.device && *final(d1) == *d2 && *final(d2) == final(self).vm.device
                    &&& call_ensures(<CaptureDevice as VmDevice>::input, (d1, device_port(before)), in1)
                    &&& call_ensures(<CaptureDevice as VmDevice>::input, (d2, wrap_u8(device_port(before) + 1)), in2)
                }
                &&& instruction_at(before) == 0x17 ==> exists|d: &mut CaptureDevice, m: &mut crate::uxn::memory::Memory| {
                    &&& *d == old(self).vm.device && *final(d) == final(self).vm.device
                    &&& (*m)@ == fetched_memory(before) && *final(m) == final(self).vm.memory
                    &&& call_ensures(<CaptureDevice as VmDevice>::output, (d, device_port(before), operand_stack(before).byte_at(1), m), ())
                }
                &&& instruction_at(before) == 0x37 ==> exists|d1: &mut CaptureDevice, m1: &mut crate::uxn::memory::Memory, d2: &mut CaptureDevice, m2: &mut crate::uxn::memory::Memory| {
                    &&& *d1 == old(self).vm.device && *final(d1) == *d2 && *final(d2) == final(self).vm.device
                    &&& (*m1)@ == fetched_memory(before) && *final(m1) == *m2 && *final(m2) == final(self).vm.memory
                    &&& call_ensures(<CaptureDevice as VmDevice>::output, (d1, device_port(before), high_byte(operand_stack(before).short_at(1)), m1), ())
                    &&& call_ensures(<CaptureDevice as VmDevice>::output, (d2, wrap_u8(device_port(before) + 1), low_byte(operand_stack(before).short_at(1)), m2), ())
                }
            },
    {
        if self.execution_state == ExecutionState::Halted {
            return;
        }
        let result = self.vm.step();
        match result {
            Ok(VmState::Running) => {
                self.instruction_count = self.instruction_count + 1;
                self.execution_state = if self.vm.device.is_terminated() {
                    ExecutionState::Halted
                } else {
                    ExecutionState::Paused
                };
            },
            Ok(VmState::Halted) | Err(_) => {
                self.execution_state = ExecutionState::Halted;
            },
        }
        self.follow_pc();
    }

    /// Lets the program run; at a breakpoint it first steps past the current instruction.
    pub fn continue_execution(&mut self)
        requires
            scroll_fits_lines(old(self).scroll_offset, old(self).disassembly.spec_lines().len() as int),
            old(self).instruction_count < u64::MAX,
        ensures
            old(self).execution_state == ExecutionState::Halted ==> *final(self) == *old(self),
            old(self).execution_state != ExecutionState::Halted && !old(self).breakpoints@.contains(old(self).vm.memory@.pc)
                ==> *final(self) == (App { execution_state: ExecutionState::Running, ..*old(self) }),
            old(self).execution_state != ExecutionState::Halted && old(self).breakpoints@.contains(old(self).vm.memory@.pc)
                ==> {
                &&& steps_to(old(self).vm.state(), final(self).vm.state())
                &&& final(self).instruction_count == if halts_at(old(self).vm.state()) {
                    old(self).instruction_count
                } else {
                    (old(self).instruction_count + 1) as u64
                }
                &&& final(self).execution_state == if halts_at(old(self).vm.state()) || final(self).vm.device.has_terminated() {
                    ExecutionState::Halted
                } else {
                    ExecutionState::Running
                }
                &&& (final(self).selected_line, final(self).scroll_offset) == followed(
                    old(self).disassembly.spec_lines(),
                    final(self).vm.memory@.pc,
                    old(self).selected_line,
                    old(self).scroll_offset,
                )
                &&& final(self).breakpoints == old(self).breakpoints
                &&& final(self).disassembly == old(self).disassembly
            },
    {
        if self.execution_state == ExecutionState::Halted {
            return;
        }
        let pc = self.vm.memory.pc();
        if self.breakpoints.contains(&pc) {
            self.step();
            if self.execution_state == ExecutionState::Halted {
                return;
            }
        }
        self.execution_state = ExecutionState::Running;
    }

    /// Pauses a running program and shows where it is.
    pub fn pause(&mut self)
        requires
            scroll_fits_lines(old(self).scroll_offset, old(self).disassembly.spec_lines().len() as int),
        ensures
            old(self).execution_state != ExecutionState::Running ==> *final(self) == *old(self),
            old(self).execution_state == ExecutionState::Running ==> {
                &&& final(self).execution_state == ExecutionState::Paused
                &&& (final(self).selected_line, final(self).scroll_offset) == followed(
                    old(self).disassembly.spec_lines(),
                    old(self).vm.memory@.pc,
                    old(self).selected_line,
                    old(self).scroll_offset,
                )
                &&& *final(self) == (App {
                    execution_state: ExecutionState::Paused,
                    selected_line: final(self).selected_line,
                    scroll_offset: final(self).scroll_offset,
                    ..*old(self)
                })
            },
    {
        if self.execution_state == ExecutionState::Running {
            self.execution_state = ExecutionState::Paused;
            self.follow_pc();
        }
    }

    /// Runs up to `max_instructions` instructions of a running program. It stops before an
    /// instruction with a breakpoint, after BRK, and after an instruction that asked the
    /// program to terminate; then it shows where the program is.
    pub fn tick(&mut self, max_instructions: usize)
        requires
            scroll_fits_lines(old(self).scroll_offset, old(self).disassembly.spec_lines().len() as int),
            old(self).instruction_count + max_instructions <= u64::MAX,
        ensures
            old(self).execution_state != ExecutionState::Running ==> *final(self) == *old(self),
            old(self).execution_state == ExecutionState::Running ==> exists|trace: Seq<MachineState>, devices: Seq<CaptureDevice>| {
                &&& #[trigger] is_tick_trace(trace, devices, *old(self), *final(self), max_instructions)
                &&& forall|i: int| 0 <= i < trace.len() - 1 && !inputs_at(#[trigger] trace[i]) && !outputs_at(trace[i])
                    ==> devices[i + 1] == devices[i]
                &&& forall|i: int| #![trigger trace[i]] 0 <= i < trace.len() - 1 && instruction_at(trace[i]) == 0x17
                    ==> exists|d: &mut CaptureDevice, m: &mut crate::uxn::memory::Memory| {
                        &&& *d == devices[i] && *final(d) == devices[i + 1]
                        &&& (*m)@ == fetched_memory(trace[i]) && (*final(m))@ == trace[i + 1].memory
                        &&& call_ensures(<CaptureDevice as VmDevice>::output, (d, device_port(trace[i]), operand_stack(trace[i]).byte_at(1), m), ())
                    }
                &&& forall|i: int| #![trigger trace[i]] 0 <= i < trace.len() - 1 && instruction_at(trace[i]) == 0x37
                    ==> exists|d1: &mut CaptureDevice, m1: &mut crate::uxn::memory::Memory, d2: &mut CaptureDevice, m2: &mut crate::uxn::memory::Memory| {
                    &&& *d1 == devices[i] && *final(d1) == *d2 && *final(d2) == devices[i + 1]
                    &&& (*m1)@ == fetched_memory(trace[i]) && *final(m1) == *m2 && (*final(m2))@ == trace[i + 1].memory
                    &&& call_ensures(<CaptureDevice as VmDevice>::output, (d1, device_port(trace[i]), high_byte(operand_stack(trace[i]).short_at(1)), m1), ())
                    &&& call_ensures(<CaptureDevice as VmDevice>::output, (d2, wrap_u8(device_port(trace[i]) + 1), low_byte(operand_stack(trace[i]).short_at(1)), m2), ())
                }
                &&& forall|i: int| #![trigger trace[i]] 0 <= i < trace.len() - 1 && instruction_at(trace[i]) == 0x16
                    ==> exists|in1: u8, in2: u8, d: &mut CaptureDevice| #![trigger step_relation(trace[i], trace[i + 1], in1, in2), call_ensures(<CaptureDevice as VmDevice>::input, (d, device_port(trace[i])), in1)] {
                    &&& step_relation(trace[i], trace[i + 1], in1, in2)
                    &&& *d == devices[i] && *final(d) == devices[i + 1]
                    &&& call_ensures(<CaptureDevice as VmDevice>::input, (d, device_port(trace[i])), in1)
                }
                &&& forall|i: int| #![trigger trace[i]] 0 <= i < trace.len() - 1 && instruction_at(trace[i]) == 0x36
                    ==> exists|in1: u8, in2: u8, d1: &mut CaptureDevice, d2: &mut CaptureDevice| #![trigger call_ensures(<CaptureDevice as VmDevice>::input, (d1, device_port(trace[i])), in1), call_ensures(<CaptureDevice as VmDevice>::input, (d2, wrap_u8(device_port(trace[i]) + 1)), in2)] {
                    &&& step_relation(trace[i], trace[i + 1], in1, in2)
                    &&& *d1 == devices[i] && *final(d1) == *d2 && *final(d2) == devices[i + 1]
                    &&& call_ensures(<CaptureDevice as VmDevice>::input, (d1, device_port(trace[i])), in1)
                    &&& call_ensures(<CaptureDevice as VmDevice>::input, (d2, wrap_u8(device_port(trace[i]) + 1)), in2)
                }

            },
    {
        if self.execution_state != ExecutionState::Running {
            return;
        }
        let ghost mut trace: Seq<MachineState> = seq![self.vm.state()];
        let ghost mut devices: Seq<CaptureDevice> = seq![self.vm.device];
        let mut executed: usize = 0;
        while executed < max_instructions
            invariant
                executed <= max_instructions,
                trace.len() == executed + 1,
                trace[0] == old(self).vm.state(),
                trace.last() == self.vm.state(),
                devices.len() == trace.len(),
                devices[0] == old(self).vm.device,
                devices.last() == self.vm.device,
                forall|i: int| 0 < i <= executed ==> !(#[trigger] devices[i]).has_terminated(),
                forall|i: int| 0 <= i < trace.len() - 1 && !inputs_at(#[trigger] trace[i]) && !outputs_at(trace[i])
                    ==> devices[i + 1] == devices[i],
                forall|i: int| #![trigger trace[i]] 0 <= i < trace.len() - 1 && instruction_at(trace[i]) == 0x17
                    ==> exists|d: &mut CaptureDevice, m: &mut crate::uxn::memory::Memory| {
                        &&& *d == devices[i] && *final(d) == devices[i + 1]
                        &&& (*m)@ == fetched_memory(trace[i]) && (*final(m))@ == trace[i + 1].memory
                        &&& call_ensures(<CaptureDevice as VmDevice>::output, (d, device_port(trace[i]), operand_stack(trace[i]).byte_at(1), m), ())
                    },
                forall|i: int| #![trigger trace[i]] 0 <= i < trace.len() - 1 && instruction_at(trace[i]) == 0x37
                    ==> exists|d1: &mut CaptureDevice, m1: &mut crate::uxn::memory::Memory, d2: &mut CaptureDevice, m2: &mut crate::uxn::memory::Memory| {
                    &&& *d1 == devices[i] && *final(d1) == *d2 && *final(d2) == devices[i + 1]
                    &&& (*m1)@ == fetched_memory(trace[i]) && *final(m1) == *m2 && (*final(m2))@ == trace[i + 1].memory
                    &&& call_ensures(<CaptureDevice as VmDevice>::output, (d1, device_port(trace[i]), high_byte(operand_stack(trace[i]).short_at(1)), m1), ())
                    &&& call_ensures(<CaptureDevice as VmDevice>::output, (d2, wrap_u8(device_port(trace[i]) + 1), low_byte(operand_stack(trace[i]).short_at(1)), m2), ())
                },
                forall|i: int| #![trigger trace[i]] 0 <= i < trace.len() - 1 && instruction_at(trace[i]) == 0x16
                    ==> exists|in1: u8, in2: u8, d: &mut CaptureDevice| #![trigger step_relation(trace[i], trace[i + 1], in1, in2), call_ensures(<CaptureDevice as VmDevice>::input, (d, device_port(trace[i])), in1)] {
                    &&& step_relation(trace[i], trace[i + 1], in1, in2)
                    &&& *d == devices[i] && *final(d) == devices[i + 1]
                    &&& call_ensures(<CaptureDevice as VmDevice>::input, (d, device_port(trace[i])), in1)
                },
                forall|i: int| #![trigger trace[i]] 0 <= i < trace.len() - 1 && instruction_at(trace[i]) == 0x36
                    ==> exists|in1: u8, in2: u8, d1: &mut CaptureDevice, d2: &mut CaptureDevice| #![trigger call_ensures(<CaptureDevice as VmDevice>::input, (d1, device_port(trace[i])), in1), call_ensures(<CaptureDevice as VmDevice>::input, (d2, wrap_u8(device_port(trace[i]) + 1)), in2)] {
                    &&& step_relation(trace[i], trace[i + 1], in1, in2)
                    &&& *d1 == devices[i] && *final(d1) == *d2 && *final(d2) == devices[i + 1]
                    &&& call_ensures(<CaptureDevice as VmDevice>::input, (d1, device_port(trace[i])), in1)
                    &&& call_ensures(<CaptureDevice as VmDevice>::input, (d2, wrap_u8(device_port(trace[i]) + 1)), in2)
                },
                forall|i: int| 0 <= i < executed ==> steps_to(#[trigger] trace[i], trace[i + 1]),
                forall|i: int| 0 <= i < executed ==> !old(self).breakpoints@.contains((#[trigger] trace[i]).memory.pc),
                forall|i: int| 0 <= i < executed ==> !halts_at(#[trigger] trace[i]),
                self.instruction_count == old(self).instruction_count + executed,
                self.execution_state == ExecutionState::Running,
                executed > 0 ==> !self.vm.device.has_terminated(),
                self.scroll_offset == old(self).scroll_offset,
                self.selected_line == old(self).selected_line,
                self.breakpoints == old(self).breakpoints,
                self.disassembly == old(self).disassembly,
                self.rom == old(self).rom,
                old(self).execution_state == ExecutionState::Running,
                scroll_fits_lines(old(self).scroll_offset, old(self).disassembly.spec_lines().len() as int),
                old(self).instruction_count + max_instructions <= u64::MAX,
            decreases max_instructions - executed,
        {
            let current_pc = self.vm.memory.pc();
            if self.breakpoints.contains(&current_pc) {
                self.execution_state = ExecutionState::Breakpoint(current_pc);
                self.follow_pc();
                assert(is_tick_trace(trace, devices, *old(self), *self, max_instructions));
                return;
            }
            let ghost previous = trace;
            let ghost previous_devices = devices;
            let result = self.vm.step();
            proof {
                trace = trace.push(self.vm.state());
                devices = devices.push(self.vm.device);
                assert forall|i: int| 0 < i < executed + 1 implies !(#[trigger] devices[i]).has_terminated() by {
                    assert(devices[i] == previous_devices[i]);
                }
                assert forall|i: int| 0 <= i < trace.len() - 1 && !inputs_at(#[trigger] trace[i]) && !outputs_at(trace[i])
                    implies devices[i + 1] == devices[i] by {
                    if i < previous.len() - 1 {
                        assert(trace[i] == previous[i]);
                        assert(devices[i] == previous_devices[i] && devices[i + 1] == previous_devices[i + 1]);
                    } else {
                        assert(trace[i] == previous.last());
                        assert(devices[i] == previous_devices.last() && devices[i + 1] == self.vm.device);
                    }
                }
                assert forall|i: int| #![trigger trace[i]] 0 <= i < trace.len() - 1 && instruction_at(trace[i]) == 0x17
                    implies exists|d: &mut CaptureDevice, m: &mut crate::uxn::memory::Memory| {
                        &&& *d == devices[i] && *final(d) == devices[i + 1]
                        &&& (*m)@ == fetched_memory(trace[i]) && (*final(m))@ == trace[i + 1].memory
                        &&& call_ensures(<CaptureDevice as VmDevice>::output, (d, device_port(trace[i]), operand_stack(trace[i]).byte_at(1), m), ())
                    } by {
                    if i < previous.len() - 1 {
                        assert(trace[i] == previous[i] && trace[i + 1] == previous[i + 1]);
                        assert(devices[i] == previous_devices[i] && devices[i + 1] == previous_devices[i + 1]);
                    } else {
                        assert(trace[i] == previous.last() && trace[i + 1] == self.vm.state());
                        assert(devices[i] == previous_devices.last() && devices[i + 1] == self.vm.device);
                    }
                assert forall|i: int| #![trigger trace[i]] 0 <= i < trace.len() - 1 && instruction_at(trace[i]) == 0x37
                    implies exists|d1: &mut CaptureDevice, m1: &mut crate::uxn::memory::Memory, d2: &mut CaptureDevice, m2: &mut crate::uxn::memory::Memory| {
                    &&& *d1 == devices[i] && *final(d1) == *d2 && *final(d2) == devices[i + 1]
                    &&& (*m1)@ == fetched_memory(trace[i]) && *final(m1) == *m2 && (*final(m2))@ == trace[i + 1].memory
                    &&& call_ensures(<CaptureDevice as VmDevice>::output, (d1, device_port(trace[i]), high_byte(operand_stack(trace[i]).short_at(1)), m1), ())
                    &&& call_ensures(<CaptureDevice as VmDevice>::output, (d2, wrap_u8(device_port(trace[i]) + 1), low_byte(operand_stack(trace[i]).short_at(1)), m2), ())
                } by {
                    if i < previous.len() - 1 {
                        assert(trace[i] == previous[i] && trace[i + 1] == previous[i + 1]);
                        assert(devices[i] == previous_devices[i] && devices[i + 1] == previous_devices[i + 1]);
                    } else {
                        assert(trace[i] == previous.last() && trace[i + 1] == self.vm.state());
                        assert(devices[i] == previous_devices.last() && devices[i + 1] == self.vm.device);
                    }
                }
                assert forall|i: int| #![trigger trace[i]] 0 <= i < trace.len() - 1 && instruction_at(trace[i]) == 0x16
                    implies exists|in1: u8, in2: u8, d: &mut CaptureDevice| #![trigger step_relation(trace[i], trace[i + 1], in1, in2), call_ensures(<CaptureDevice as VmDevice>::input, (d, device_port(trace[i])), in1)] {
                    &&& step_relation(trace[i], trace[i + 1], in1, in2)
                    &&& *d == devices[i] && *final(d) == devices[i + 1]
                    &&& call_ensures(<CaptureDevice as VmDevice>::input, (d, device_port(trace[i])), in1)
                } by {
                    if i < previous.len() - 1 {
                        assert(trace[i] == previous[i] && trace[i + 1] == previous[i + 1]);
                        assert(devices[i] == previous_devices[i] && devices[i + 1] == previous_devices[i + 1]);
                    } else {
                        assert(trace[i] == previous.last() && trace[i + 1] == self.vm.state());
                        assert(devices[i] == previous_devices.last() && devices[i + 1] == self.vm.device);
                    }
                }
                assert forall|i: int| #![trigger trace[i]] 0 <= i < trace.len() - 1 && instruction_at(trace[i]) == 0x36
                    implies exists|in1: u8, in2: u8, d1: &mut CaptureDevice, d2: &mut CaptureDevice| #![trigger call_ensures(<CaptureDevice as VmDevice>::input, (d1, device_port(trace[i])), in1), call_ensures(<CaptureDevice as VmDevice>::input, (d2, wrap_u8(device_port(trace[i]) + 1)), in2)] {
                    &&& step_relation(trace[i], trace[i + 1], in1, in2)
                    &&& *d1 == devices[i] && *final(d1) == *d2 && *final(d2) == devices[i + 1]
                    &&& call_ensures(<CaptureDevice as VmDevice>::input, (d1, device_port(trace[i])), in1)
                    &&& call_ensures(<CaptureDevice as VmDevice>::input, (d2, wrap_u8(device_port(trace[i]) + 1)), in2)
                } by {
                    if i < previous.len() - 1 {
                        assert(trace[i] == previous[i] && trace[i + 1] == previous[i + 1]);
                        assert(devices[i] == previous_devices[i] && devices[i + 1] == previous_devices[i + 1]);
                    } else {
                        assert(trace[i] == previous.last() && trace[i + 1] == self.vm.state());
                        assert(devices[i] == previous_devices.last() && devices[i + 1] == self.vm.device);
                    }
                }
                }
                assert(steps_to(previous.last(), self.vm.state()));
                assert forall|i: int| 0 <= i < trace.len() - 1 implies steps_to(#[trigger] trace[i], trace[i + 1]) by {
                    if i < previous.len() - 1 {
                        assert(trace[i] == previous[i] && trace[i + 1] == previous[i + 1]);
                    }
                }
                assert forall|i: int| 0 <= i < executed + 1 implies steps_to(#[trigger] trace[i], trace[i + 1]) by {
                    if i < executed {
                        assert(trace[i] == previous[i] && trace[i + 1] == previous[i + 1]);
                    }
                }
                assert forall|i: int| 0 <= i < executed + 1 implies !old(self).breakpoints@.contains((#[trigger] trace[i]).memory.pc) by {
                    if i < executed {
                        assert(trace[i] == previous[i]);
                    }
                }
            }
            match result {
                Ok(VmState::Running) => {
                    self.instruction_count = self.instruction_count + 1;
                    if self.vm.device.is_terminated() {
                        self.execution_state = ExecutionState::Halted;
                        self.follow_pc();
                        assert(is_tick_trace(trace, devices, *old(self), *self, max_instructions));
                        return;
                    }
                },
                Ok(VmState::Halted) | Err(_) => {
                    self.execution_state = ExecutionState::Halted;
                    self.follow_pc();
                    assert(is_tick_trace(trace, devices, *old(self), *self, max_instructions));
                    return;
                },
            }
            proof {
                assert forall|i: int| 0 <= i < executed + 1 implies !halts_at(#[trigger] trace[i]) by {
                    if i < executed {
                        assert(trace[i] == previous[i]);
                    }
                }
            }
            executed += 1;
        }
        self.follow_pc();
        assert(is_tick_trace(trace, devices, *old(self), *self, max_instructions));
    }

    /// Adds a breakpoint on the selected line's address, or removes the one there.
    pub fn toggle_breakpoint(&mut self)
        ensures
            final(self).breakpoints@ == match (if old(self).selected_line < old(self).disassembly.spec_lines().len() {
                old(self).disassembly.spec_lines()[old(self).selected_line as int].1
            } else {
                None
            }) {
                Some(address) => toggled(old(self).breakpoints@, address),
                None => old(self).breakpoints@,
            },
            *final(self) == (App { breakpoints: final(self).breakpoints, ..*old(self) }),
    {
        match self.disassembly.address_for_line_index(self.selected_line) {
            Some(address) => {
                if self.breakpoints.contains(&address) {
                    self.breakpoints.remove(&address);
                } else {
                    self.breakpoints.insert(address);
                }
            },
            None => {},
        }
    }

    /// Restarts the program with a fresh machine, paused at its first instruction.
    pub fn reset(&mut self)
        requires
            scroll_fits_lines(old(self).scroll_offset, old(self).disassembly.spec_lines().len() as int),
        ensures
            old(self).rom@.len() > MAXIMUM_ROM_SIZE ==> *final(self) == *old(self),
            old(self).rom@.len() <= MAXIMUM_ROM_SIZE ==> {
                &&& final(self).vm.state() == (MachineState { ws: fresh_stack(), rs: fresh_stack(), memory: fresh_memory(old(self).rom@) })
                &&& !final(self).vm.device.has_terminated()
                &&& final(self).execution_state == ExecutionState::Paused
                &&& final(self).instruction_count == 0
                &&& final(self).console_scroll == 0
                &&& (final(self).selected_line, final(self).scroll_offset) == followed(
                    old(self).disassembly.spec_lines(),
                    final(self).vm.memory@.pc,
                    old(self).selected_line,
                    old(self).scroll_offset,
                )
                &&& final(self).rom == old(self).rom
                &&& final(self).breakpoints == old(self).breakpoints
                &&& final(self).disassembly == old(self).disassembly
            },
    {
        let device = CaptureDevice::new();
        match Vm::new_with_rom_and_device(self.rom.as_slice(), device) {
            Ok(new_vm) => {
                self.vm = new_vm;
                self.execution_state = ExecutionState::Paused;
                self.instruction_count = 0;
                self.console_scroll = 0;
                self.follow_pc();
            },
            Err(_) => {},
        }
    }

    /// Moves the selection one line up.
    pub fn cursor_up(&mut self)
        requires
            old(self).selected_line > 0 ==> scroll_fits(old(self).scroll_offset, (old(self).selected_line - 1) as usize),
        ensures
            old(self).selected_line == 0 ==> *final(self) == *old(self),
            old(self).selected_line > 0 ==> final(self).selected_line == old(self).selected_line - 1
                && *final(self) == (App {
                    selected_line: final(self).selected_line,
                    scroll_offset: scroll_for(old(self).scroll_offset, final(self).selected_line),
                    ..*old(self)
                }),
    {
        if self.selected_line > 0 {
            self.selected_line = self.selected_line - 1;
            self.ensure_visible(self.selected_line);
        }
    }

    /// Moves the selection one line down, if there is a line below.
    pub fn cursor_down(&mut self)
        requires
            old(self).selected_line + 1 < old(self).disassembly.spec_lines().len() ==> scroll_fits(old(self).scroll_offset, (old(self).selected_line + 1) as usize),
            old(self).selected_line < usize::MAX,
        ensures
            old(self).selected_line + 1 >= old(self).disassembly.spec_lines().len() ==> *final(self) == *old(self),
            old(self).selected_line + 1 < old(self).disassembly.spec_lines().len() ==> final(self).selected_line == old(self).selected_line + 1
                && *final(self) == (App {
                    selected_line: final(self).selected_line,
                    scroll_offset: scroll_for(old(self).scroll_offset, final(self).selected_line),
                    ..*old(self)
                }),
    {
        if self.selected_line + 1 < self.disassembly.line_count() {
            self.selected_line = self.selected_line + 1;
            self.ensure_visible(self.selected_line);
        }
    }

    /// Moves the selection `page_size` lines up, stopping at the first line.
    pub fn page_up(&mut self, page_size: usize)
        requires
            scroll_fits(old(self).scroll_offset, saturating_sub(old(self).selected_line, page_size)),
        ensures
            final(self).selected_line == saturating_sub(old(self).selected_line, page_size),
            *final(self) == (App {
                selected_line: final(self).selected_line,
                scroll_offset: scroll_for(old(self).scroll_offset, final(self).selected_line),
                ..*old(self)
            }),
    {
        self.selected_line = self.selected_line.saturating_sub(page_size);
        self.ensure_visible(self.selected_line);
    }

    /// Moves the selection `page_size` lines down, stopping at the last line.
    pub fn page_down(&mut self, page_size: usize)
        requires
            scroll_fits(old(self).scroll_offset, {
                let last = saturating_sub(old(self).disassembly.spec_lines().len() as usize, 1);
                if old(self).selected_line + page_size < last { (old(self).selected_line + page_size) as usize } else { last }
            }),
            old(self).selected_line + page_size <= usize::MAX,
        ensures
            final(self).selected_line == {
                let last = saturating_sub(old(self).disassembly.spec_lines().len() as usize, 1);
                if old(self).selected_line + page_size < last { (old(self).selected_line + page_size) as usize } else { last }
            },
            *final(self) == (App {
                selected_line: final(self).selected_line,
                scroll_offset: scroll_for(old(self).scroll_offset, final(self).selected_line),
                ..*old(self)
            }),
    {
        let max_line = self.disassembly.line_count().saturating_sub(1);
        let moved = self.selected_line + page_size;
        self.selected_line = if moved < max_line { moved } else { max_line };
        self.ensure_visible(self.selected_line);
    }

    /// Switches the pane that takes the keys.
    pub fn toggle_pane(&mut self)
        ensures
            *final(self) == (App {
                active_pane: match old(self).active_pane {
                    ActivePane::Disassembly => ActivePane::Console,
                    ActivePane::Console => ActivePane::Disassembly,
                },
                ..*old(self)
            }),
    {
        self.active_pane = match self.active_pane {
            ActivePane::Disassembly => ActivePane::Console,
            ActivePane::Console => ActivePane::Disassembly,
        };
    }

    /// Scrolls the console one line towards older output.
    pub fn console_scroll_up(&mut self)
        ensures
            *final(self) == (App { console_scroll: old(self).console_scroll.saturating_add(1), ..*old(self) }),
    {
        self.console_scroll = self.console_scroll.saturating_add(1);
    }

    /// Scrolls the console one line towards newer output.
    pub fn console_scroll_down(&mut self)
        ensures
            *final(self) == (App { console_scroll: saturating_sub(old(self).console_scroll, 1), ..*old(self) }),
    {
        self.console_scroll = self.console_scroll.saturating_sub(1);
    }

    /// Scrolls the console a page towards older output.
    pub fn console_page_up(&mut self, page_size: usize)
        ensures
            *final(self) == (App { console_scroll: old(self).console_scroll.saturating_add(page_size), ..*old(self) }),
    {
        self.console_scroll = self.console_scroll.saturating_add(page_size);
    }

    /// Scrolls the console a page towards newer output.
    pub fn console_page_down(&mut self, page_size: usize)
        ensures
            *final(self) == (App { console_scroll: saturating_sub(old(self).console_scroll, page_size), ..*old(self) }),
    {
        self.console_scroll = self.console_scroll.saturating_sub(page_size);
    }

    /// Scrolls so that line `target_line` stays in view.
    pub fn ensure_visible(&mut self, target_line: usize)
        requires
            scroll_fits(old(self).scroll_offset, target_line),
        ensures
            final(self).scroll_offset == scroll_for(old(self).scroll_offset, target_line),
            *final(self) == (App { scroll_offset: final(self).scroll_offset, ..*old(self) }),
    {
        if target_line < self.scroll_offset + 3 {
            self.scroll_offset = target_line.saturating_sub(3);
        } else if target_line >= self.scroll_offset + 20 {
            self.scroll_offset = target_line.saturating_sub(15);
        }
    }
}

} // verus!
