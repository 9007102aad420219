use vstd::prelude::*;
use crate::uxn::device::VmDevice;
use crate::uxn::memory::Memory;
use crate::uxn::bytes::{join_short, short_from_bytes};
use crate::text::push_char;

verus! {

/// The console text split into lines: each newline starts a new, empty line.
pub open spec fn console_split(output: Seq<char>) -> Seq<Seq<char>>
    decreases output.len(),
{
    if output.len() == 0 {
        seq![seq![]]
    } else {
        let lines = console_split(output.drop_last());
        if output.last() == '\n' {
            lines.push(seq![])
        } else {
            lines.update(lines.len() - 1, lines.last().push(output.last()))
        }
    }
}

pub proof fn lemma_console_split_nonempty(output: Seq<char>)
    ensures
        console_split(output).len() >= 1,
    decreases output.len(),
{
    if output.len() > 0 {
        lemma_console_split_nonempty(output.drop_last());
    }
}

/// Lines put back together, a newline between each two.
pub open spec fn console_join(lines: Seq<Seq<char>>) -> Seq<char>
    decreases lines.len(),
{
    if lines.len() <= 1 {
        if lines.len() == 0 { seq![] } else { lines[0] }
    } else {
        console_join(lines.drop_last()) + seq!['\n'] + lines.last()
    }
}

/// The console's lines lose nothing of what was written: put back together with newlines they
/// give the whole output, whatever sequence of writes made it.
pub proof fn lemma_console_lines_join(output: Seq<char>)
    ensures
        console_join(console_split(output)) == output,
    decreases output.len(),
{
    if output.len() > 0 {
        let before = output.drop_last();
        lemma_console_lines_join(before);
        lemma_console_split_nonempty(before);
        let lines = console_split(before);
        if output.last() == '\n' {
            let pushed = lines.push(seq![]);
            assert(pushed.drop_last() =~= lines);
            assert(console_join(pushed) == console_join(lines) + seq!['\n'] + Seq::<char>::empty());
            assert(before + seq!['\n'] + Seq::<char>::empty() =~= output);
        } else {
            let updated = lines.update(lines.len() - 1, lines.last().push(output.last()));
            if lines.len() == 1 {
                assert(before =~= lines[0]);
                assert(updated[0] =~= output);
            } else {
                assert(updated.drop_last() =~= lines.drop_last());
                assert(console_join(lines) == console_join(lines.drop_last()) + seq!['\n'] + lines.last());
                assert(console_join(updated) == console_join(lines.drop_last()) + seq!['\n'] + lines.last().push(output.last()));
                assert(console_join(lines.drop_last()) + seq!['\n'] + lines.last().push(output.last())
                    =~= (console_join(lines.drop_last()) + seq!['\n'] + lines.last()).push(output.last()));
                assert(before.push(output.last()) =~= output);
            }
        }
    }
}

/// What writing `value` to port `port` does to the device: the port keeps the value; a
/// non-zero value on port 0x0f asks to terminate with its low seven bits as exit code; ports
/// 0x18 and 0x19 add the character with that code to the console; nothing else changes.
pub open spec fn written(before: CaptureDevice, after: CaptureDevice, port: u8, value: u8) -> bool {
    &&& after.ports() == before.ports().update(port as int, value)
    &&& (port == 0x0f && value != 0) ==> after.has_terminated() && after.requested_exit_code() == value & 0x7f
    &&& !(port == 0x0f && value != 0) ==> after.has_terminated() == before.has_terminated()
        && after.requested_exit_code() == before.requested_exit_code()
    &&& (port == 0x18 || port == 0x19) ==> after.output_text() == before.output_text().push(value as char)
    &&& !(port == 0x18 || port == 0x19) ==> after.output_text() == before.output_text()
}

/// The characters that `writes` (port and value, in order) send to the console ports 0x18 and
/// 0x19, each value read as the character with that code.
pub open spec fn console_written(writes: Seq<(u8, u8)>) -> Seq<char>
    decreases writes.len(),
{
    if writes.len() == 0 {
        seq![]
    } else {
        let (port, value) = writes.last();
        console_written(writes.drop_last()) + if port == 0x18 || port == 0x19 { seq![value as char] } else { seq![] }
    }
}

/// Whether one of `writes` puts a non-zero value on port 0x0f.
pub open spec fn terminate_written(writes: Seq<(u8, u8)>) -> bool {
    exists|i: int| 0 <= i < writes.len() && (#[trigger] writes[i]).0 == 0x0f && writes[i].1 != 0
}

/// The value last written to `port` by `writes`, or 0 if none was.
pub open spec fn last_written(writes: Seq<(u8, u8)>, port: u8) -> u8
    decreases writes.len(),
{
    if writes.len() == 0 {
        0
    } else if writes.last().0 == port {
        writes.last().1
    } else {
        last_written(writes.drop_last(), port)
    }
}

/// A fresh device after the writes `writes`, one `output` call each (`devices[i + 1]` is the
/// device after the `i`-th): its console lines, joined with newlines, are exactly the
/// characters written to ports 0x18 and 0x19 in order; it has been asked to terminate exactly
/// when some write put a non-zero value on port 0x0f; and each port, which `input` reads,
/// holds the value last written to it, 0 where none was.
pub proof fn lemma_console_writes(devices: Seq<CaptureDevice>, writes: Seq<(u8, u8)>)
    requires
        devices.len() == writes.len() + 1,
        devices[0].ports() == Seq::new(256, |i: int| 0u8),
        devices[0].output_text() == Seq::<char>::empty(),
        !devices[0].has_terminated(),
        forall|i: int| 0 <= i < writes.len() ==> written(#[trigger] devices[i], devices[i + 1], writes[i].0, writes[i].1),
    ensures
        devices.last().output_text() == console_written(writes),
        console_join(console_split(devices.last().output_text())) == console_written(writes),
        devices.last().has_terminated() <==> terminate_written(writes),
        forall|port: u8| #[trigger] devices.last().ports()[port as int] == last_written(writes, port),
    decreases writes.len(),
{
    if writes.len() > 0 {
        let n = writes.len() - 1;
        let before = devices.drop_last();
        let earlier = writes.drop_last();
        assert forall|i: int| 0 <= i < earlier.len() implies written(#[trigger] before[i], before[i + 1], earlier[i].0, earlier[i].1) by {
            assert(written(devices[i], devices[i + 1], writes[i].0, writes[i].1));
        }
        lemma_console_writes(before, earlier);
        assert(written(devices[n], devices[n + 1], writes[n].0, writes[n].1));
        assert(before.last() == devices[n]);
        if terminate_written(earlier) {
            let i = choose|i: int| 0 <= i < earlier.len() && (#[trigger] earlier[i]).0 == 0x0f && earlier[i].1 != 0;
            assert(writes[i] == earlier[i]);
        }
        if terminate_written(writes) && !terminate_written(earlier) {
            let i = choose|i: int| 0 <= i < writes.len() && (#[trigger] writes[i]).0 == 0x0f && writes[i].1 != 0;
            if i < n {
                assert(earlier[i] == writes[i]);
            }
        }
        if writes[n].0 == 0x0f && writes[n].1 != 0 {
            assert(terminate_written(writes));
        }
        assert forall|port: u8| #[trigger] devices.last().ports()[port as int] == last_written(writes, port) by {
            assert(before.last().ports()[port as int] == last_written(earlier, port));
        }
    } else {
        assert forall|port: u8| #[trigger] devices.last().ports()[port as int] == last_written(writes, port) by {}
    }
    lemma_console_lines_join(devices.last().output_text());
}

/// A device that records console output and system requests, for running programs without a
/// terminal.
pub struct CaptureDevice {
    dev: [u8; 256],
    console_output: String,
    console_lines: Vec<String>,
    terminated: bool,
    exit_code: u8,
}

impl CaptureDevice {
    #[verifier::type_invariant]
    closed spec fn inv(self) -> bool {
        &&& self.console_lines@.len() == console_split(self.console_output@).len()
        &&& forall|i: int| 0 <= i < self.console_lines@.len() ==> #[trigger] self.console_lines@[i]@ == console_split(self.console_output@)[i]
    }

    /// The values last written to each port.
    pub closed spec fn ports(&self) -> Seq<u8> {
        self.dev@
    }

    /// Everything written to the console, each byte read as the character with that code.
    pub closed spec fn output_text(&self) -> Seq<char> {
        self.console_output@
    }

    /// Whether the program asked to terminate.
    pub closed spec fn has_terminated(&self) -> bool {
        self.terminated
    }

    /// The exit code the program asked for.
    pub closed spec fn requested_exit_code(&self) -> u8 {
        self.exit_code
    }

    pub fn new() -> (device: Self)
        ensures
            device.ports() == Seq::new(256, |i: int| 0u8),
            device.output_text() == Seq::<char>::empty(),
            !device.has_terminated(),
            device.requested_exit_code() == 0,
    {
        let ports = [0u8; 256];
        proof {
            vstd::array::axiom_spec_array_fill_for_copy_type::<u8, 256>(0u8);
            vstd::array::array_len_matches_n(&ports);
        }
        assert(ports@ =~= Seq::new(256, |i: int| 0u8));
        let device = CaptureDevice {
            dev: ports,
            console_output: String::new(),
            console_lines: vec![String::new()],
            terminated: false,
            exit_code: 0,
        };
        device
    }

    /// The console output as lines.
    pub fn console_lines(&self) -> (lines: &[String])
        ensures
            lines@.len() == console_split(self.output_text()).len(),
            forall|i: int| 0 <= i < lines@.len() ==> #[trigger] lines@[i]@ == console_split(self.output_text())[i],
    {
        proof { use_type_invariant(self); }
        self.console_lines.as_slice()
    }

    pub fn is_terminated(&self) -> (terminated: bool)
        ensures
            terminated == self.has_terminated(),
    {
        self.terminated
    }

    /// Records one console byte.
    fn record_character(&mut self, byte: u8)
        ensures
            final(self).output_text() == old(self).output_text().push(byte as char),
            final(self).ports() == old(self).ports(),
            final(self).has_terminated() == old(self).has_terminated(),
            final(self).requested_exit_code() == old(self).requested_exit_code(),
    {
        proof {
            use_type_invariant(&*self);
            lemma_console_split_nonempty(self.console_output@);
        }
        let character = byte as char;
        let ghost before = self.console_output@;
        let mut taken = CaptureDevice::new();
        std::mem::swap(self, &mut taken);
        let CaptureDevice { dev, console_output, console_lines, terminated, exit_code } = taken;
        let mut lines = console_lines;
        let mut output = console_output;
        push_char(&mut output, character);
        assert(output@.drop_last() =~= before);
        if character == '\n' {
            lines.push(String::new());
        } else {
            let count = lines.len();
            let mut last = lines.pop().unwrap();
            push_char(&mut last, character);
            lines.push(last);
            assert(lines@.len() == count);
        }
        proof {
            let expected = console_split(output@);
            assert forall|i: int| 0 <= i < lines@.len() implies #[trigger] lines@[i]@ == expected[i] by {}
        }
        *self = CaptureDevice { dev, console_output: output, console_lines: lines, terminated, exit_code };
    }
}

impl VmDevice for CaptureDevice {
    fn input(&mut self, port: u8) -> (byte: u8)
        ensures
            byte == old(self).ports()[port as int],
            *final(self) == *old(self),
    {
        self.dev[port as usize]
    }

    /// Stores `value` on its port, then: port 0x03 runs the expansion command whose descriptor
    /// address ports 0x02 and 0x03 hold; a non-zero value on port 0x0f asks to terminate with
    /// its low seven bits as exit code; ports 0x18 and 0x19 print a character.
    fn output(&mut self, port: u8, value: u8, memory: &mut Memory)
        ensures
            port == 0x03 ==> final(memory)@ == old(memory)@.expansion_command(
                join_short(final(self).ports()[0x02], final(self).ports()[0x03]),
            ),
            port != 0x03 ==> final(memory)@ == old(memory)@,
            written(*old(self), *final(self), port, value),
    {
        proof { use_type_invariant(&*self); }
        self.dev[port as usize] = value;
        if port == 0x03 {
            let descriptor_address = short_from_bytes(self.dev[0x02], self.dev[0x03]);
            memory.expansion_execute(descriptor_address);
        } else if port == 0x0f {
            if value != 0 {
                self.terminated = true;
                self.exit_code = value & 0x7f;
            }
        } else if port == 0x18 || port == 0x19 {
            self.record_character(value);
        }
    }
}

} // verus!
