use uxr::console::{ConsoleDevice, ConsoleRead, ConsoleWrite};
use uxr::uxn::bytes::{add16, add8, offset_address, short_from_bytes, short_high, short_low, sub16};
use uxr::debugger::CaptureDevice;
use uxr::uxn::device::{NullDevice, VmDevice};
use uxr::uxn::memory::{Memory, MAXIMUM_ROM_SIZE};
use uxr::uxn::operands::Operands;
use uxr::uxn::stack::Stack;
use uxr::uxn::vm::{Vm, VmError, VmState};

#[test]
fn stack_push_pop_byte_gives_it_back() {
    let mut stack = Stack::default();
    stack.push_u8(0x12);
    stack.push_u8(0x34);
    assert_eq!(stack.pointer(), 2);
    assert_eq!(stack.peek_u8(), 0x34);
    assert_eq!(stack.pop_u8(), 0x34);
    assert_eq!(stack.pop_u8(), 0x12);
    assert_eq!(stack.pointer(), 0);
}

#[test]
fn stack_push_pop_short_gives_it_back() {
    let mut stack = Stack::default();
    stack.push_u16(0xabcd);
    assert_eq!(stack.pointer(), 2);
    assert_eq!(stack.as_slice()[0], 0xab);
    assert_eq!(stack.as_slice()[1], 0xcd);
    assert_eq!(stack.peek_u16(), 0xabcd);
    assert_eq!(stack.pop_u16(), 0xabcd);
    assert_eq!(stack.pointer(), 0);
}

#[test]
fn stack_pointer_wraps_around() {
    let mut stack = Stack::default();
    assert_eq!(stack.pop_u8(), 0);
    assert_eq!(stack.pointer(), 0xff);
    stack.push_u8(7);
    assert_eq!(stack.pointer(), 0);
    assert_eq!(stack.data()[0xff], 7);
}

#[test]
fn stack_dup_and_keep() {
    let mut stack = Stack::default();
    stack.push_u8(5);
    stack.dup_u8();
    assert_eq!(stack.pointer(), 2);
    assert_eq!(stack.peek_u8_at(1), 5);
    stack.push_u16(0x0102);
    stack.dup_u16();
    assert_eq!(stack.peek_u16_at(0), 0x0102);
    assert_eq!(stack.peek_u16_at(2), 0x0102);
    stack.adjust_for_keep(2, true);
    assert_eq!(stack.pointer(), 6);
    stack.adjust_for_keep(2, false);
    assert_eq!(stack.pointer(), 4);
}

#[test]
fn operands_peek_the_top_of_the_stack() {
    let mut stack = Stack::default();
    stack.push_u8(1);
    stack.push_u8(2);
    stack.push_u8(3);
    let operands = Operands::peek_from(&stack);
    assert_eq!(operands.a, 3);
    assert_eq!(operands.b, 2);
    assert_eq!(operands.c, 1);
    assert_eq!(operands.a2, 0x0203);
    assert_eq!(stack.pointer(), 3);
}

#[test]
fn memory_write_then_read() {
    let mut memory = Memory::new();
    memory.write_u8_at(0x1234, 0x56);
    assert_eq!(memory.read_u8_at(0x1234), 0x56);
    memory.write_u16_at(0xffff, 0xbeef);
    assert_eq!(memory.read_u8_at(0xffff), 0xbe);
    assert_eq!(memory.read_u8_at(0x0000), 0xef);
    assert_eq!(memory.read_u16_at(0xffff), 0xbeef);
}

#[test]
fn memory_loads_rom_at_program_start() {
    let mut memory = Memory::new();
    assert_eq!(memory.pc(), 0x0100);
    memory.load_rom(&[0xaa, 0xbb]);
    assert_eq!(memory.read_u8_at(0x0100), 0xaa);
    assert_eq!(memory.read_u8(), 0xaa);
    assert_eq!(memory.pc(), 0x0101);
    assert_eq!(memory.read_u8(), 0xbb);
    memory.jump_absolute(0x0100);
    assert_eq!(memory.read_u16(), 0xaabb);
    memory.jump_relative(-2);
    assert_eq!(memory.pc(), 0x0100);
}

#[test]
fn memory_expansion_fill_and_copy() {
    let mut memory = Memory::new();
    // Fill 4 bytes of bank 1 at 0x0010 with 0x77.
    let fill = [0x00, 0x00, 0x04, 0x00, 0x01, 0x00, 0x10, 0x77];
    for (i, byte) in fill.iter().enumerate() {
        memory.write_u8_at(0x0200 + i as u16, *byte);
    }
    memory.expansion_execute(0x0200);
    let bank = memory.bank(1).unwrap();
    assert_eq!(&bank[0x10..0x14], &[0x77, 0x77, 0x77, 0x77]);
    assert_eq!(bank[0x14], 0);
    // Copy 2 bytes from bank 1 at 0x0010 to bank 0 at 0x0300.
    let copy = [0x01, 0x00, 0x02, 0x00, 0x01, 0x00, 0x10, 0x00, 0x00, 0x03, 0x00];
    for (i, byte) in copy.iter().enumerate() {
        memory.write_u8_at(0x0220 + i as u16, *byte);
    }
    memory.expansion_execute(0x0220);
    assert_eq!(memory.read_u8_at(0x0300), 0x77);
    assert_eq!(memory.read_u8_at(0x0301), 0x77);
    assert_eq!(memory.read_u8_at(0x0302), 0);
    assert!(memory.bank(16).is_none());
}

#[test]
fn byte_helpers() {
    assert_eq!(short_from_bytes(0x12, 0x34), 0x1234);
    assert_eq!(short_high(0x1234), 0x12);
    assert_eq!(short_low(0x1234), 0x34);
    assert_eq!(add8(0xff, 2), 1);
    assert_eq!(add16(0xffff, 2), 1);
    assert_eq!(sub16(0, 1), 0xffff);
    assert_eq!(offset_address(0x0100, -2), 0x00fe);
}

#[test]
fn vm_runs_addition() {
    // #12 #34 ADD BRK
    let rom = [0x80, 0x12, 0x80, 0x34, 0x18, 0x00];
    let mut vm = Vm::new_with_rom(&rom).unwrap();
    vm.run().unwrap();
    assert_eq!(vm.ws.pointer(), 1);
    assert_eq!(vm.ws.peek_u8(), 0x46);
}

#[test]
fn vm_step_reports_halt() {
    let rom = [0x80, 0x01, 0x00];
    let mut vm = Vm::new_with_rom(&rom).unwrap();
    assert_eq!(vm.step().unwrap(), VmState::Running);
    assert_eq!(vm.ws.peek_u8(), 0x01);
    assert_eq!(vm.step().unwrap(), VmState::Halted);
}

#[test]
fn vm_short_mode_and_return_stack() {
    // #1234 #0001 ADD2 STH2 BRK
    let rom = [0xa0, 0x12, 0x34, 0xa0, 0x00, 0x01, 0x38, 0x2f, 0x00];
    let mut vm = Vm::new_with_rom(&rom).unwrap();
    vm.run().unwrap();
    assert_eq!(vm.ws.pointer(), 0);
    assert_eq!(vm.rs.pointer(), 2);
    assert_eq!(vm.rs.peek_u16(), 0x1235);
}

#[test]
fn vm_refuses_too_large_rom() {
    let rom = vec![0u8; MAXIMUM_ROM_SIZE + 1];
    let result = Vm::<NullDevice>::new_with_rom_and_device(&rom, NullDevice);
    assert!(matches!(result, Err(VmError::RomTooLarge { size, maximum_capacity })
        if size == MAXIMUM_ROM_SIZE + 1 && maximum_capacity == MAXIMUM_ROM_SIZE));
    let rom = vec![0u8; MAXIMUM_ROM_SIZE];
    assert!(Vm::new_with_rom(&rom).is_ok());
}

#[test]
fn vm_eval_vector_runs_from_address() {
    // at 0x0100: BRK; at 0x0101: #07 BRK
    let rom = [0x00, 0x80, 0x07, 0x00];
    let mut vm = Vm::new_with_rom(&rom).unwrap();
    vm.eval_vector(0x0101).unwrap();
    assert_eq!(vm.ws.peek_u8(), 0x07);
    vm.eval_vector(0).unwrap();
    assert_eq!(vm.ws.pointer(), 1);
}

#[test]
fn vm_jumps_with_jci() {
    // #01 ?skip #aa BRK @skip #bb BRK
    // 0100: 80 01      LIT 01
    // 0102: 20 00 03   JCI +3 -> 0108
    // 0105: 80 aa 00
    // 0108: 80 bb 00
    let rom = [0x80, 0x01, 0x20, 0x00, 0x03, 0x80, 0xaa, 0x00, 0x80, 0xbb, 0x00];
    let mut vm = Vm::new_with_rom(&rom).unwrap();
    vm.run().unwrap();
    assert_eq!(vm.ws.pointer(), 1);
    assert_eq!(vm.ws.peek_u8(), 0xbb);
}

#[test]
fn console_device_requests() {
    let mut console = ConsoleDevice::new();
    let mut memory = Memory::new();
    assert_eq!(console.input(0x12), ConsoleRead::Stdin);
    assert_eq!(console.input(0x10), ConsoleRead::Stored(0));
    assert_eq!(console.output(0x18, b'A', &mut memory), ConsoleWrite::Stdout(b'A'));
    assert_eq!(console.output(0x19, b'!', &mut memory), ConsoleWrite::Stderr(b'!'));
    assert_eq!(console.output(0x0f, 0x81, &mut memory), ConsoleWrite::Exit(1));
    assert_eq!(console.output(0x0f, 0x00, &mut memory), ConsoleWrite::Stored);
    assert_eq!(console.output(0x10, 0x33, &mut memory), ConsoleWrite::Stored);
    assert_eq!(console.input(0x10), ConsoleRead::Stored(0x33));
    assert_eq!(console.output(0x42, 0x01, &mut memory), ConsoleWrite::UnknownPort);
    assert_eq!(console.input(0x42), ConsoleRead::Stored(0x01));
}

#[test]
fn console_device_runs_expansion() {
    let mut console = ConsoleDevice::new();
    let mut memory = Memory::new();
    let fill = [0x00, 0x00, 0x02, 0x00, 0x00, 0x04, 0x00, 0x55];
    for (i, byte) in fill.iter().enumerate() {
        memory.write_u8_at(0x0300 + i as u16, *byte);
    }
    assert_eq!(console.output(0x02, 0x03, &mut memory), ConsoleWrite::Stored);
    assert_eq!(console.output(0x03, 0x00, &mut memory), ConsoleWrite::Expansion);
    assert_eq!(memory.read_u8_at(0x0400), 0x55);
    assert_eq!(memory.read_u8_at(0x0401), 0x55);
    assert_eq!(memory.read_u8_at(0x0402), 0);
}

#[test]
fn boxed_and_borrowed_devices_act_as_the_device() {
    // #41 #18 DEO: write 'A' to the console; then halt.
    let rom = [0x80, 0x41, 0x80, 0x18, 0x17, 0x00];
    let mut capture = CaptureDevice::new();
    {
        let mut vm = Vm::new_with_rom_and_device(&rom, &mut capture).unwrap();
        vm.run().unwrap();
    }
    assert_eq!(capture.console_lines(), &["A".to_string()]);
    let boxed: Box<dyn VmDevice> = Box::new(NullDevice);
    let mut vm = Vm::new_with_rom_and_device(&[0x80, 0x10, 0x16, 0x00], boxed).unwrap();
    vm.run().unwrap();
    assert_eq!(vm.ws.pop_u8(), 0);
}

#[test]
fn ram_can_be_changed_in_place() {
    let mut memory = Memory::new();
    memory.ram_mut()[0x0105] = 0x2a;
    assert_eq!(memory.read_u8_at(0x0105), 0x2a);
    assert_eq!(memory.ram()[0x0105], 0x2a);
    assert_eq!(memory.pc(), 0x0100);
}

struct RecordingDevice {
    calls: Vec<(char, u8, u8)>,
}

impl VmDevice for RecordingDevice {
    fn input(&mut self, port: u8) -> u8 {
        self.calls.push(('i', port, 0));
        0x5a
    }

    fn output(&mut self, port: u8, value: u8, _memory: &mut Memory) {
        self.calls.push(('o', port, value));
    }
}

#[test]
fn deo_hands_port_and_value_to_the_device_and_others_leave_it_alone() {
    let device = RecordingDevice { calls: Vec::new() };
    let mut vm = Vm::new_with_rom_and_device(&[0x80, 0x2a, 0x80, 0x18, 0x17], device).unwrap();
    vm.step().unwrap();
    vm.step().unwrap();
    assert!(vm.device.calls.is_empty());
    assert_eq!(vm.step(), Ok(VmState::Running));
    assert_eq!(vm.device.calls, vec![('o', 0x18, 0x2a)]);
    assert_eq!(vm.ws.pointer(), 0);
}

#[test]
fn dei_and_deo2_use_consecutive_ports() {
    // #12 DEI2 reads ports 0x12 and 0x13; #abcd #20 DEO2 writes 0xab to 0x20 and 0xcd to 0x21.
    let device = RecordingDevice { calls: Vec::new() };
    let rom = [0x80, 0x12, 0x36, 0xa0, 0xab, 0xcd, 0x80, 0x20, 0x37, 0x00];
    let mut vm = Vm::new_with_rom_and_device(&rom, device).unwrap();
    vm.run().unwrap();
    assert_eq!(vm.device.calls, vec![('i', 0x12, 0), ('i', 0x13, 0), ('o', 0x20, 0xab), ('o', 0x21, 0xcd)]);
    assert_eq!(vm.ws.pop_u16(), 0x5a5a);
}

#[test]
fn bank_mut_writes_land_in_that_bank_alone() {
    let mut memory = Memory::new();
    assert!(memory.bank_mut(16).is_none());
    {
        let bank = memory.bank_mut(3).unwrap();
        assert_eq!(bank.len(), 0x10000);
        bank[0] = 0xab;
        bank[0xffff] = 0xcd;
    }
    {
        let ram = memory.bank_mut(0).unwrap();
        ram[0x0200] = 0x11;
    }
    assert_eq!(memory.bank(3).unwrap()[0], 0xab);
    assert_eq!(memory.bank(3).unwrap()[0xffff], 0xcd);
    assert_eq!(memory.bank(2).unwrap()[0xffff], 0);
    assert_eq!(memory.bank(4).unwrap()[0], 0);
    assert_eq!(memory.bank(0).unwrap()[0x0200], 0x11);
    assert_eq!(memory.ram()[0x0200], 0x11);
    for index in 0..16 {
        assert_eq!(memory.bank(index).unwrap().len(), 0x10000);
    }
    assert!(memory.bank(16).is_none());
}

#[test]
fn console_device_keeps_every_write() {
    let mut device = CaptureDevice::new();
    let mut memory = Memory::new();
    for (port, value) in [(0x18u8, b'h'), (0x19, b'i'), (0x18, b'\n'), (0x20, 7), (0x18, b'x'), (0x0f, 0), (0x20, 9)] {
        device.output(port, value, &mut memory);
    }
    assert_eq!(device.console_lines().join("\n"), "hi\nx");
    assert!(!device.is_terminated());
    assert_eq!(device.input(0x20), 9);
    assert_eq!(device.input(0x18), b'x');
    assert_eq!(device.input(0x21), 0);
    device.output(0x0f, 0x81, &mut memory);
    assert!(device.is_terminated());
    device.output(0x19, b'!', &mut memory);
    assert_eq!(device.console_lines(), &["hi".to_string(), "x!".to_string()]);
}

#[test]
fn a_vector_runs_as_a_jump_followed_by_a_run() {
    let rom = [0x00, 0x80, 0x07, 0x80, 0x05, 0x18, 0x06, 0x1a, 0x00];
    let mut by_vector = Vm::new_with_rom_and_device(&rom, NullDevice).unwrap();
    let mut by_jump = Vm::new_with_rom_and_device(&rom, NullDevice).unwrap();
    by_vector.eval_vector(0x0101).unwrap();
    by_jump.memory.jump_absolute(0x0101);
    by_jump.run().unwrap();
    assert_eq!(by_vector.memory.pc(), by_jump.memory.pc());
    assert_eq!(by_vector.memory.pc(), 0x0109);
    assert_eq!(by_vector.ws.pointer(), by_jump.ws.pointer());
    assert_eq!(by_vector.ws.data(), by_jump.ws.data());
    assert_eq!(by_vector.ws.peek_u8(), 0x90);
    let mut untouched = Vm::new_with_rom_and_device(&rom, NullDevice).unwrap();
    untouched.eval_vector(0).unwrap();
    assert_eq!(untouched.memory.pc(), 0x0100);
    assert_eq!(untouched.ws.pointer(), 0);
}
