use vstd::prelude::*;
use super::bytes::{join_short, high_byte, low_byte, signed8, signed16, short_from_bytes, short_high, short_low};

verus! {

pub const RAM_SIZE: usize = 65_536;
pub const TOTAL_BANKS: usize = 16;
pub const EXPANSION_BANKS_COUNT: usize = TOTAL_BANKS - 1;
pub const MAXIMUM_ROM_SIZE: usize = RAM_SIZE - PROGRAM_START;

pub const PROGRAM_START: usize = 0x0100;

/// `seq` with the cells in `[start, start + len)` set to `value`.
pub open spec fn seq_fill(seq: Seq<u8>, start: int, len: int, value: u8) -> Seq<u8> {
    Seq::new(seq.len(), |i: int| if start <= i < start + len { value } else { seq[i] })
}

/// `dest` with the cells in `[dest_start, dest_start + len)` replaced by
/// the cells of `source` starting at `source_start`.
pub open spec fn seq_copy(dest: Seq<u8>, dest_start: int, source: Seq<u8>, source_start: int, len: int) -> Seq<u8> {
    Seq::new(
        dest.len(),
        |i: int| if dest_start <= i < dest_start + len { source[source_start + (i - dest_start)] } else { dest[i] },
    )
}

/// `ram` with `rom` placed at the program start.
pub open spec fn seq_load(ram: Seq<u8>, rom: Seq<u8>) -> Seq<u8> {
    seq_copy(ram, PROGRAM_START as int, rom, 0, rom.len() as int)
}

/// The abstract content of the memory: program counter, main RAM
/// (bank 0) and the fifteen expansion banks laid out one after another.
#[verifier::ext_equal]
pub struct MemoryState {
    pub pc: u16,
    pub ram: Seq<u8>,
    pub expansion: Seq<u8>,
}

impl MemoryState {
    pub open spec fn wf(self) -> bool {
        &&& self.ram.len() == RAM_SIZE
        &&& self.expansion.len() == EXPANSION_BANKS_COUNT * RAM_SIZE
    }

    /// The 64 KB content of bank `index` (0 is the main RAM).
    pub open spec fn bank(self, index: int) -> Seq<u8> {
        if index == 0 {
            self.ram
        } else {
            self.expansion.subrange((index - 1) * RAM_SIZE, index * RAM_SIZE)
        }
    }

    /// The state with bank `index` replaced by `content`.
    pub open spec fn with_bank(self, index: int, content: Seq<u8>) -> MemoryState {
        if index == 0 {
            MemoryState { ram: content, ..self }
        } else {
            MemoryState {
                expansion: self.expansion.subrange(0, (index - 1) * RAM_SIZE) + content
                    + self.expansion.subrange(index * RAM_SIZE, self.expansion.len() as int),
                ..self
            }
        }
    }

    pub open spec fn read8(self, address: u16) -> u8 {
        self.ram[address as int]
    }

    pub open spec fn read16(self, address: u16) -> u16 {
        join_short(self.ram[address as int], self.ram[((address + 1) % 65536) as int])
    }

    pub open spec fn write8(self, address: u16, byte: u8) -> MemoryState {
        MemoryState { ram: self.ram.update(address as int, byte), ..self }
    }

    pub open spec fn write16(self, address: u16, value: u16) -> MemoryState {
        self.write8(address, high_byte(value)).write8(((address + 1) % 65536) as u16, low_byte(value))
    }

    pub open spec fn with_pc(self, pc: u16) -> MemoryState {
        MemoryState { pc, ..self }
    }

    /// The program counter moved by a signed offset, wrapping.
    pub open spec fn pc_plus(self, offset: int) -> u16 {
        ((self.pc + offset) % 65536) as u16
    }

    /// The state after filling bank `bank` from `address` with `value`,
    /// clipped to the end of the bank; out-of-range banks are ignored.
    #[verifier::opaque]
    pub open spec fn filled(self, bank: int, address: int, requested: int, value: u8) -> MemoryState {
        let length = if requested < RAM_SIZE - address { requested } else { RAM_SIZE - address };
        if bank >= TOTAL_BANKS || length == 0 {
            self
        } else if bank == 0 {
            MemoryState { ram: seq_fill(self.ram, address, length, value), ..self }
        } else {
            MemoryState {
                expansion: seq_fill(self.expansion, (bank - 1) * RAM_SIZE + address, length, value),
                ..self
            }
        }
    }

    /// The state after copying between banks, clipped to the end of both
    /// banks; out-of-range banks are ignored. Overlapping ranges behave as
    /// if the source were read in full before writing.
    #[verifier::opaque]
    pub open spec fn copied(
        self,
        source_bank: int,
        source_address: int,
        destination_bank: int,
        destination_address: int,
        requested: int,
    ) -> MemoryState {
        let l1 = if requested < RAM_SIZE - source_address { requested } else { RAM_SIZE - source_address };
        let length = if l1 < RAM_SIZE - destination_address { l1 } else { RAM_SIZE - destination_address };
        if source_bank >= TOTAL_BANKS || destination_bank >= TOTAL_BANKS || length == 0 {
            self
        } else if destination_bank == 0 {
            MemoryState {
                ram: seq_copy(self.ram, destination_address, self.bank(source_bank), source_address, length),
                ..self
            }
        } else {
            MemoryState {
                expansion: seq_copy(
                    self.expansion,
                    (destination_bank - 1) * RAM_SIZE + destination_address,
                    self.bank(source_bank),
                    source_address,
                    length,
                ),
                ..self
            }
        }
    }

    /// The effect of the System/expansion command whose descriptor starts at `descriptor`.
    pub open spec fn expansion_command(self, descriptor: u16) -> MemoryState {
        let command = self.read8(descriptor);
        let length = self.read16(((descriptor + 1) % 65536) as u16) as int;
        if command == 0 {
            self.filled(
                self.read16(((descriptor + 3) % 65536) as u16) as int,
                self.read16(((descriptor + 5) % 65536) as u16) as int,
                length,
                self.read8(((descriptor + 7) % 65536) as u16),
            )
        } else if command == 1 || command == 2 {
            self.copied(
                self.read16(((descriptor + 3) % 65536) as u16) as int,
                self.read16(((descriptor + 5) % 65536) as u16) as int,
                self.read16(((descriptor + 7) % 65536) as u16) as int,
                self.read16(((descriptor + 9) % 65536) as u16) as int,
                length,
            )
        } else {
            self
        }
    }
}

/// std's `Vec::as_mut_slice`: the whole vector as a slice to change in
/// place. Claimed: the slice holds what the vector holds, the vector ends
/// holding what the slice ends holding (a slice keeps its length), and the
/// call does not panic (the documentation names no panic).
#[verifier::external_body]
fn whole_slice_mut(bytes: &mut Vec<u8>) -> (slice: &mut [u8])
    ensures
        slice@ == old(bytes)@,
        final(slice)@.len() == old(bytes)@.len(),
        final(bytes)@ == final(slice)@,
    no_unwind
{
    bytes.as_mut_slice()
}

/// The fifteen 64 KB expansion banks, one after the other.
struct ExpansionBanks {
    bytes: Vec<u8>,
}

impl ExpansionBanks {
    /// There are always fifteen banks of 64 KB.
    #[verifier::type_invariant]
    spec fn inv(self) -> bool {
        self.bytes@.len() == EXPANSION_BANKS_COUNT * RAM_SIZE
    }
}

/// Uxn memory: program counter, 64 KB of RAM and fifteen expansion banks.
pub struct Memory {
    pc: u16,
    ram: [u8; 65536],
    expansion_banks: ExpansionBanks,
}

impl View for Memory {
    type V = MemoryState;

    closed spec fn view(&self) -> MemoryState {
        MemoryState { pc: self.pc, ram: self.ram@, expansion: self.expansion_banks.bytes@ }
    }
}

impl Memory {

    pub fn new() -> (memory: Self)
        ensures
            memory@.pc == PROGRAM_START,
            memory@.ram == Seq::new(RAM_SIZE as nat, |i: int| 0u8),
            memory@.expansion == Seq::new((EXPANSION_BANKS_COUNT * RAM_SIZE) as nat, |i: int| 0u8),
    {
        let expansion_banks: Vec<u8> = vec![0u8; EXPANSION_BANKS_COUNT * RAM_SIZE];
        let memory = Self { pc: PROGRAM_START as u16, ram: [0u8; 65536], expansion_banks: ExpansionBanks { bytes: expansion_banks } };
        assert(memory@.ram =~= Seq::new(RAM_SIZE as nat, |i: int| 0u8));
        assert(memory@.expansion =~= Seq::new((EXPANSION_BANKS_COUNT * RAM_SIZE) as nat, |i: int| 0u8));
        memory
    }

    /// Copies `rom` into RAM at the program start.
    pub fn load_rom(&mut self, rom: &[u8])
        requires
            rom@.len() <= MAXIMUM_ROM_SIZE,
        ensures
            final(self)@ == (MemoryState { ram: seq_load(old(self)@.ram, rom@), ..old(self)@ }),
    {
        proof { use_type_invariant(&self.expansion_banks); }
        let mut index: usize = 0;
        while index < rom.len()
            invariant
                index <= rom@.len() <= MAXIMUM_ROM_SIZE,
                self.pc == old(self).pc,
                self.expansion_banks.bytes@ == old(self).expansion_banks.bytes@,
                self.ram@ =~= seq_copy(old(self).ram@, PROGRAM_START as int, rom@, 0, index as int),
            decreases rom@.len() - index,
        {
            proof { use_type_invariant(&self.expansion_banks); }
            self.ram[PROGRAM_START + index] = rom[index];
            index += 1;
        }
    }

    /// Reads the byte at the program counter and advances it (wrapping).
    pub fn read_u8(&mut self) -> (byte: u8)
        ensures
            byte == old(self)@.read8(old(self)@.pc),
            final(self)@ == old(self)@.with_pc(old(self)@.pc_plus(1)),
    {
        proof { use_type_invariant(&self.expansion_banks); }
        let byte = self.ram[self.pc as usize];
        self.pc = self.pc.wrapping_add(1);
        byte
    }

    pub fn read_i8(&mut self) -> (value: i8)
        ensures
            value as int == signed8(old(self)@.read8(old(self)@.pc)),
            final(self)@ == old(self)@.with_pc(old(self)@.pc_plus(1)),
    {
        let byte = self.read_u8();
        let value = byte as i8;
        assert(value == (if byte < 128 { byte as i8 } else { (byte as int - 256) as i8 })) by (bit_vector)
            requires value == byte as i8;
        value
    }

    pub fn read_u8_at(&self, address: u16) -> (byte: u8)
        ensures
            byte == self@.read8(address),
    {
        self.ram[address as usize]
    }

    pub fn write_u8_at(&mut self, address: u16, byte: u8)
        ensures
            final(self)@ == old(self)@.write8(address, byte),
    {
        proof { use_type_invariant(&self.expansion_banks); }
        self.ram[address as usize] = byte;
    }

    /// Reads the big-endian short at the program counter and advances it by two.
    pub fn read_u16(&mut self) -> (value: u16)
        ensures
            value == old(self)@.read16(old(self)@.pc),
            final(self)@ == old(self)@.with_pc(old(self)@.pc_plus(2)),
    {
        let high_byte = self.read_u8();
        let low_byte = self.read_u8();
        short_from_bytes(high_byte, low_byte)
    }

    pub fn read_i16(&mut self) -> (value: i16)
        ensures
            value as int == signed16(old(self)@.read16(old(self)@.pc)),
            final(self)@ == old(self)@.with_pc(old(self)@.pc_plus(2)),
    {
        let short = self.read_u16();
        let value = short as i16;
        assert(value == (if short < 32768 { short as i16 } else { (short as int - 65536) as i16 })) by (bit_vector)
            requires value == short as i16;
        value
    }

    pub fn read_u16_at(&self, address: u16) -> (value: u16)
        ensures
            value == self@.read16(address),
    {
        let high_byte = self.read_u8_at(address);
        let low_byte = self.read_u8_at(address.wrapping_add(1));
        short_from_bytes(high_byte, low_byte)
    }

    pub fn write_u16_at(&mut self, address: u16, value: u16)
        ensures
            final(self)@ == old(self)@.write16(address, value),
    {
        self.write_u8_at(address, short_high(value));
        self.write_u8_at(address.wrapping_add(1), short_low(value));
    }

    /// Moves the program counter by a signed offset (wrapping).
    pub fn jump_relative(&mut self, offset: i16)
        ensures
            final(self)@ == old(self)@.with_pc(old(self)@.pc_plus(offset as int)),
    {
        proof { use_type_invariant(&self.expansion_banks); }
        self.pc = self.pc.wrapping_add_signed(offset);
    }

    pub fn jump_absolute(&mut self, address: u16)
        ensures
            final(self)@ == old(self)@.with_pc(address),
    {
        proof { use_type_invariant(&self.expansion_banks); }
        self.pc = address;
    }

    pub fn pc(&self) -> (pc: u16)
        ensures
            pc == self@.pc,
    {
        self.pc
    }

    pub fn ram(&self) -> (ram: &[u8; 65536])
        ensures
            ram@ == self@.ram,
    {
        &self.ram
    }

    /// The 64 KB of RAM, to change in place.
    pub fn ram_mut(&mut self) -> (ram: &mut [u8; 65536])
        ensures
            ram@ == old(self)@.ram,
            final(self)@ == (MemoryState { ram: final(ram)@, ..old(self)@ }),
    {
        &mut self.ram
    }

    /// The 64 KB slice of bank `bank_index`, if it is one of the sixteen banks.
    pub fn bank(&self, bank_index: usize) -> (bank: Option<&[u8]>)
        ensures
            self@.wf(),
            bank_index < TOTAL_BANKS <==> bank is Some,
            bank matches Some(slice) ==> slice@ == self@.bank(bank_index as int) && slice@.len() == RAM_SIZE,
    {
        proof { use_type_invariant(&self.expansion_banks); }
        if bank_index == 0 {
            Some(self.ram.as_slice())
        } else if bank_index < TOTAL_BANKS {
            let start = (bank_index - 1) * RAM_SIZE;
            let all: &[u8] = self.expansion_banks.bytes.as_slice();
            Some(&all[start..start + RAM_SIZE])
        } else {
            None
        }
    }

    /// The 64 KB slice of bank `bank_index`, to change in place, if it is
    /// one of the sixteen banks. What is written through it lands in that
    /// bank alone.
    pub fn bank_mut(&mut self, bank_index: usize) -> (bank: Option<&mut [u8]>)
        ensures
            old(self)@.wf() && final(self)@.wf(),
            bank_index < TOTAL_BANKS <==> bank is Some,
            bank is None ==> final(self)@ == old(self)@,
            bank is Some ==> bank.unwrap()@ == old(self)@.bank(bank_index as int),
            bank is Some ==> bank.unwrap()@.len() == RAM_SIZE,
            bank is Some ==> final(bank.unwrap())@.len() == RAM_SIZE,
            bank is Some ==> final(self)@ == old(self)@.with_bank(bank_index as int, final(bank.unwrap())@),
            forall|other: int|
                0 <= other < TOTAL_BANKS && other != bank_index ==> #[trigger] final(self)@.bank(other)
                    == old(self)@.bank(other),
    {
        proof { use_type_invariant(&self.expansion_banks); }
        if bank_index == 0 {
            let ram: &mut [u8] = &mut self.ram;
            Some(ram)
        } else if bank_index < TOTAL_BANKS {
            let start = (bank_index - 1) * RAM_SIZE;
            let all: &mut [u8] = whole_slice_mut(&mut self.expansion_banks.bytes);
            let (front, rest) = all.split_at_mut(start);
            let (bank, back) = rest.split_at_mut(RAM_SIZE);
            proof {
                assert(front@ =~= old(self)@.expansion.subrange(0, start as int));
                assert(back@ =~= old(self)@.expansion.subrange(start + RAM_SIZE, old(self)@.expansion.len() as int));
            }
            Some(bank)
        } else {
            None
        }
    }

    /// Copies `length` bytes of bank `bank_index` starting at `address`.
    fn read_bank_range(&self, bank_index: usize, address: usize, length: usize) -> (bytes: Vec<u8>)
        requires
            bank_index < TOTAL_BANKS,
            address + length <= RAM_SIZE,
        ensures
            bytes@ == self@.bank(bank_index as int).subrange(address as int, address + length),
    {
        proof { use_type_invariant(&self.expansion_banks); }
        let mut bytes: Vec<u8> = Vec::new();
        let mut index: usize = 0;
        while index < length
            invariant
                bank_index < TOTAL_BANKS,
                address + length <= RAM_SIZE,
                index <= length,
                self@.wf(),
                bytes@ =~= self@.bank(bank_index as int).subrange(address as int, address + index),
            decreases length - index,
        {
            let byte = if bank_index == 0 {
                self.ram[address + index]
            } else {
                self.expansion_banks.bytes[(bank_index - 1) * RAM_SIZE + address + index]
            };
            bytes.push(byte);
            index += 1;
        }
        bytes
    }

    /// Writes `bytes` into bank `bank_index` starting at `address`.
    fn write_bank_range(&mut self, bank_index: usize, address: usize, bytes: &[u8])
        requires
            1 <= bank_index < TOTAL_BANKS,
            address + bytes@.len() <= RAM_SIZE,
        ensures
            final(self)@ == (MemoryState {
                expansion: seq_copy(old(self)@.expansion, (bank_index - 1) * RAM_SIZE + address, bytes@, 0, bytes@.len() as int),
                ..old(self)@
            }),
    {
        proof { use_type_invariant(&self.expansion_banks); }
        let start = (bank_index - 1) * RAM_SIZE + address;
        let mut index: usize = 0;
        while index < bytes.len()
            invariant
                1 <= bank_index < TOTAL_BANKS,
                address + bytes@.len() <= RAM_SIZE,
                start == (bank_index - 1) * RAM_SIZE + address,
                index <= bytes@.len(),
                self.pc == old(self).pc,
                self.ram@ == old(self).ram@,
                self.expansion_banks.bytes@ =~= seq_copy(old(self).expansion_banks.bytes@, start as int, bytes@, 0, index as int),
                old(self).expansion_banks.bytes@.len() == EXPANSION_BANKS_COUNT * RAM_SIZE,
            decreases bytes@.len() - index,
        {
            proof { use_type_invariant(&self.expansion_banks); }
            self.expansion_banks.bytes[start + index] = bytes[index];
            index += 1;
        }
    }

    /// Writes `bytes` into the main RAM starting at `address`.
    fn write_ram_range(&mut self, address: usize, bytes: &[u8])
        requires
            address + bytes@.len() <= RAM_SIZE,
        ensures
            final(self)@ == (MemoryState { ram: seq_copy(old(self)@.ram, address as int, bytes@, 0, bytes@.len() as int), ..old(self)@ }),
    {
        proof { use_type_invariant(&self.expansion_banks); }
        let mut index: usize = 0;
        while index < bytes.len()
            invariant
                address + bytes@.len() <= RAM_SIZE,
                index <= bytes@.len(),
                self.pc == old(self).pc,
                self.expansion_banks.bytes@ == old(self).expansion_banks.bytes@,
                self.ram@ =~= seq_copy(old(self).ram@, address as int, bytes@, 0, index as int),
            decreases bytes@.len() - index,
        {
            proof { use_type_invariant(&self.expansion_banks); }
            self.ram[address + index] = bytes[index];
            index += 1;
        }
    }

    /// Executes a System/expansion memory operation whose descriptor is read
    /// from the main RAM at `descriptor_address`: command 0x00 fills a range
    /// of a bank, commands 0x01 and 0x02 copy a range between banks, and any
    /// other command is ignored.
    pub fn expansion_execute(&mut self, descriptor_address: u16)
        ensures
            final(self)@ == old(self)@.expansion_command(descriptor_address),
    {
        let ghost m = self@;
        let command = self.read_u8_at(descriptor_address);
        let a1 = descriptor_address.wrapping_add(1);
        assert(a1 == ((descriptor_address + 1) % 65536) as u16);
        let requested_length = self.read_u16_at(a1) as usize;
        let a3 = descriptor_address.wrapping_add(3);
        let a5 = descriptor_address.wrapping_add(5);
        let a7 = descriptor_address.wrapping_add(7);
        let a9 = descriptor_address.wrapping_add(9);
        assert(a3 == ((descriptor_address + 3) % 65536) as u16);
        assert(a5 == ((descriptor_address + 5) % 65536) as u16);
        assert(a7 == ((descriptor_address + 7) % 65536) as u16);
        assert(a9 == ((descriptor_address + 9) % 65536) as u16);
        if command == 0x00 {
            let target_bank = self.read_u16_at(a3);
            let target_address = self.read_u16_at(a5);
            let fill_value = self.read_u8_at(a7);
            self.expansion_fill(target_bank, target_address, requested_length, fill_value);
        } else if command == 0x01 || command == 0x02 {
            let source_bank = self.read_u16_at(a3);
            let source_address = self.read_u16_at(a5);
            let destination_bank = self.read_u16_at(a7);
            let destination_address = self.read_u16_at(a9);
            self.expansion_copy(source_bank, source_address, destination_bank, destination_address, requested_length);
        } else {
            assert(m.expansion_command(descriptor_address) == m);
        }
    }

    fn expansion_fill(&mut self, target_bank: u16, target_address: u16, requested_length: usize, fill_value: u8)
        ensures
            final(self)@ == old(self)@.filled(target_bank as int, target_address as int, requested_length as int, fill_value),
    {
        proof {
            use_type_invariant(&self.expansion_banks);
            reveal(MemoryState::filled);
        }
        let bank_index = target_bank as usize;
        if bank_index >= TOTAL_BANKS {
            return;
        }
        let address = target_address as usize;
        let available = RAM_SIZE - address;
        let length = if requested_length < available { requested_length } else { available };
        if length == 0 {
            return;
        }
        let mut index: usize = 0;
        let start = if bank_index == 0 { address } else { (bank_index - 1) * RAM_SIZE + address };
        while index < length
            invariant
                bank_index < TOTAL_BANKS,
                address + length <= RAM_SIZE,
                start == (if bank_index == 0 { address as int } else { (bank_index - 1) * RAM_SIZE + address }),
                index <= length,
                self.pc == old(self).pc,
                old(self).expansion_banks.bytes@.len() == EXPANSION_BANKS_COUNT * RAM_SIZE,
                bank_index == 0 ==> self.expansion_banks.bytes@ == old(self).expansion_banks.bytes@,
                bank_index == 0 ==> self.ram@ =~= seq_fill(old(self).ram@, start as int, index as int, fill_value),
                bank_index != 0 ==> self.ram@ == old(self).ram@,
                bank_index != 0 ==> self.expansion_banks.bytes@ =~= seq_fill(old(self).expansion_banks.bytes@, start as int, index as int, fill_value),
            decreases length - index,
        {
            proof { use_type_invariant(&self.expansion_banks); }
            if bank_index == 0 {
                self.ram[start + index] = fill_value;
            } else {
                self.expansion_banks.bytes[start + index] = fill_value;
            }
            index += 1;
        }
    }

    fn expansion_copy(
        &mut self,
        source_bank: u16,
        source_address: u16,
        destination_bank: u16,
        destination_address: u16,
        requested_length: usize,
    )
        ensures
            final(self)@ == old(self)@.copied(
                source_bank as int,
                source_address as int,
                destination_bank as int,
                destination_address as int,
                requested_length as int,
            ),
    {
        proof {
            use_type_invariant(&self.expansion_banks);
            reveal(MemoryState::copied);
        }
        let source_bank_index = source_bank as usize;
        let destination_bank_index = destination_bank as usize;
        if source_bank_index >= TOTAL_BANKS || destination_bank_index >= TOTAL_BANKS {
            return;
        }
        let source_offset = source_address as usize;
        let destination_offset = destination_address as usize;
        let source_available = RAM_SIZE - source_offset;
        let destination_available = RAM_SIZE - destination_offset;
        let clipped = if requested_length < source_available { requested_length } else { source_available };
        let length = if clipped < destination_available { clipped } else { destination_available };
        if length == 0 {
            return;
        }
        let bytes = self.read_bank_range(source_bank_index, source_offset, length);
        if destination_bank_index == 0 {
            self.write_ram_range(destination_offset, bytes.as_slice());
            assert(self@.ram =~= seq_copy(old(self)@.ram, destination_offset as int, old(self)@.bank(source_bank_index as int), source_offset as int, length as int));
        } else {
            self.write_bank_range(destination_bank_index, destination_offset, bytes.as_slice());
            assert(self@.expansion =~= seq_copy(
                old(self)@.expansion,
                (destination_bank_index - 1) * RAM_SIZE + destination_offset,
                old(self)@.bank(source_bank_index as int),
                source_offset as int,
                length as int,
            ));
        }
    }
}

impl Default for Memory {
    fn default() -> (memory: Self)
        ensures
            memory@.pc == PROGRAM_START,
            memory@.ram == Seq::new(RAM_SIZE as nat, |i: int| 0u8),
            memory@.expansion == Seq::new((EXPANSION_BANKS_COUNT * RAM_SIZE) as nat, |i: int| 0u8),
    {
        Self::new()
    }
}

/// A read of a byte just written gives it back; the other addresses keep theirs.
pub proof fn lemma_write_read_byte(m: MemoryState, address: u16, byte: u8, other: u16)
    requires
        m.wf(),
    ensures
        m.write8(address, byte).wf(),
        m.write8(address, byte).read8(address) == byte,
        other != address ==> m.write8(address, byte).read8(other) == m.read8(other),
{
}

/// A read of a short just written gives it back, also where it wraps around the end of memory.
pub proof fn lemma_write_read_short(m: MemoryState, address: u16, value: u16)
    requires
        m.wf(),
    ensures
        m.write16(address, value).read16(address) == value,
{
    super::bytes::lemma_join_split(value);
}

} // verus!
