//! The two file devices of the screen host. A transfer alternates decisions, taken here, with
//! work on the file system, which the host does: each step returns what it asks of the host,
//! and the host answers with the outcome in the next step.
use vstd::prelude::*;
use crate::uxn::bytes::{add16_wide, high_byte, join_short, low_byte, short_from_bytes};
use crate::uxn::memory::{Memory, MemoryState};
use crate::gui_device::{
    clamped_length, file_base, format_stat, lossy_utf8, next_listing_chunk, ram_string_bytes, ram_written, read_ram_string,
    stat_bytes, write_ram_slice, FileKind, GuiDevice, GuiState,
};
use crate::text::chars_of;

verus! {

/// What a file device remembers between transfers, apart from the handle of an open file,
/// which the host keeps beside it.
pub enum FileMode {
    Idle,
    FileRead,
    FileWrite,
    DirRead { data: Vec<u8>, offset: usize },
}

/// A file device's mode as plain values.
pub enum FileModeView {
    Idle,
    FileRead,
    FileWrite,
    DirRead(Seq<u8>, nat),
}

impl View for FileMode {
    type V = FileModeView;

    open spec fn view(&self) -> FileModeView {
        match self {
            FileMode::Idle => FileModeView::Idle,
            FileMode::FileRead => FileModeView::FileRead,
            FileMode::FileWrite => FileModeView::FileWrite,
            FileMode::DirRead { data, offset } => FileModeView::DirRead(data@, *offset as nat),
        }
    }
}

/// One file device: the path it was last given and what it is doing with it.
pub struct UxnFile {
    pub filepath: String,
    pub state: FileMode,
}

/// What a read asks of the host.
pub enum ReadAction {
    /// Nothing more: the outcome is on the device's success ports.
    Done,
    /// Find out what the path names and open it, and answer with `opened_for_read`.
    Open,
    /// Read up to this many bytes from the open file, and answer with `finish_read`.
    ReadFile(usize),
}

/// What the host found when it opened the path for reading.
pub enum OpenedPath {
    /// A directory, with its listing.
    Directory(Vec<u8>),
    /// A file, now open.
    File,
    /// Nothing that could be opened.
    Failed,
}

/// What a write asks of the host.
pub enum WriteAction {
    /// Nothing more: the outcome is on the device's success ports.
    Done,
    /// Create the directory the path names, with its parents, and answer with `report_outcome`.
    CreateDirectory,
    /// Create the path's parent directories and open it for writing, appending or from the
    /// start, and answer with `opened_for_write`.
    Open { append: bool },
    /// Write these bytes to the open file, and answer with `finish_write`.
    Write(Vec<u8>),
}

/// The memory address that ports `offset` and `offset + 1` of file device `id` hold.
pub open spec fn transfer_address(ports: Seq<u8>, id: int, offset: int) -> u16 {
    join_short(ports[file_base(id) + offset], ports[file_base(id) + offset + 1])
}

/// The length the length ports of file device `id` ask for, cut at the end of memory.
pub open spec fn transfer_length(ports: Seq<u8>, id: int, offset: int) -> int {
    clamped_length(transfer_address(ports, id, offset), join_short(ports[file_base(id) + 0x0a], ports[file_base(id) + 0x0b]) as int)
}

/// The device with `success` on the success ports of file device `id`.
pub open spec fn with_success(device: GuiState, id: int, success: u16) -> GuiState {
    GuiState {
        ports: device.ports.update(file_base(id) + 2, high_byte(success)).update(file_base(id) + 3, low_byte(success)),
        ..device
    }
}

/// The next piece of a directory listing: at most `length` bytes from `offset` on.
pub open spec fn listing_chunk(data: Seq<u8>, offset: nat, length: nat) -> Seq<u8> {
    if offset <= data.len() {
        data.subrange(offset as int, offset + (if data.len() - offset < length { data.len() - offset } else { length as int }))
    } else {
        seq![]
    }
}

/// A listing read piece by piece loses and repeats nothing: each piece is followed in the
/// listing by exactly what the later reads can deliver, and a read of nothing comes only at the
/// end of the listing (or when nothing is asked for).
pub proof fn lemma_listing_pieces(data: Seq<u8>, offset: nat, length: nat)
    requires
        offset <= data.len(),
    ensures
        listing_chunk(data, offset, length) + data.subrange((offset + listing_chunk(data, offset, length).len()) as int, data.len() as int)
            == data.subrange(offset as int, data.len() as int),
        listing_chunk(data, offset, length).len() == 0 ==> length == 0 || offset == data.len(),
{
    let chunk = listing_chunk(data, offset, length);
    assert(chunk + data.subrange((offset + chunk.len()) as int, data.len() as int) =~= data.subrange(offset as int, data.len() as int));
}

/// `length` bytes of `ram` from `address` on, wrapping around at the end.
pub open spec fn ram_range(ram: Seq<u8>, address: u16, length: nat) -> Seq<u8> {
    Seq::new(length, |i: int| ram[(address + i) % 65536])
}

/// Delivering the bytes `bytes` of a read into memory at `address`: the device reports how many
/// there were, and a read of nothing ends the transfer; otherwise the mode goes on as `next`.
pub open spec fn delivery(
    device: GuiState,
    memory: MemoryState,
    id: int,
    address: u16,
    bytes: Seq<u8>,
    next: FileModeView,
) -> (GuiState, MemoryState, FileModeView) {
    (
        with_success(device, id, bytes.len() as u16),
        MemoryState { ram: ram_written(memory.ram, address, bytes), ..memory },
        if bytes.len() == 0 { FileModeView::Idle } else { next },
    )
}

/// A path that names a directory to create: it ends with `/`.
pub open spec fn names_directory(path: Seq<char>) -> bool {
    path.len() > 0 && path.last() == '/'
}

impl UxnFile {
    /// A device with no path, doing nothing.
    pub fn new() -> (file: Self)
        ensures
            file.filepath@ == Seq::<char>::empty(),
            file.state@ == FileModeView::Idle,
    {
        UxnFile { filepath: String::new(), state: FileMode::Idle }
    }

    /// Ends any transfer; the path stays.
    pub fn reset(&mut self)
        ensures
            final(self).filepath@ == old(self).filepath@,
            final(self).state@ == FileModeView::Idle,
    {
        self.state = FileMode::Idle;
    }

    /// File/name: takes the path from the string in memory that ports 0x08 and 0x09 point at,
    /// ends any transfer and reports 0.
    pub fn name(&mut self, device: &mut GuiDevice, id: u8, memory: &Memory)
        requires
            id < 2,
        ensures
            final(self).filepath@ == lossy_utf8(ram_string_bytes(memory@.ram, transfer_address(old(device)@.ports, id as int, 0x08), 4096)),
            final(self).state@ == FileModeView::Idle,
            final(device)@ == with_success(old(device)@, id as int, 0),
    {
        let base: u8 = if id == 0 { 0xa0 } else { 0xb0 };
        let address = short_from_bytes(device.port(base + 0x08), device.port(base + 0x09));
        self.filepath = read_ram_string(memory, address);
        self.reset();
        device.set_file_success(id, 0);
    }

    /// File/stat: writes what `kind`, which the host found at the path, looks like into memory at
    /// the address ports 0x04 and 0x05 hold, in as many bytes as the length ports ask for, and
    /// reports how many. With no path, reports 0 and writes nothing.
    pub fn stat(&self, device: &mut GuiDevice, id: u8, memory: &mut Memory, kind: FileKind)
        requires
            id < 2,
        ensures
            ({
                let ports = old(device)@.ports;
                let address = transfer_address(ports, id as int, 0x04);
                let bytes = stat_bytes(kind, transfer_length(ports, id as int, 0x04) as nat);
                if self.filepath@.len() == 0 {
                    final(device)@ == with_success(old(device)@, id as int, 0) && final(memory)@ == old(memory)@
                } else {
                    &&& final(device)@ == with_success(old(device)@, id as int, bytes.len() as u16)
                    &&& final(memory)@ == (MemoryState { ram: ram_written(old(memory)@.ram, address, bytes), ..old(memory)@ })
                }
            }),
    {
        let (address, length) = device.file_transfer(id, 0x04);
        if self.filepath.as_str().is_empty() {
            device.set_file_success(id, 0);
            return;
        }
        let bytes = format_stat(kind, length);
        write_ram_slice(memory, address, bytes.as_slice());
        device.set_file_success(id, bytes.len() as u16);
    }

    /// File/delete: ends any transfer. With no path, reports 0 and returns `false`; otherwise
    /// returns `true`: the host removes the path and answers with `report_outcome`.
    pub fn begin_delete(&mut self, device: &mut GuiDevice, id: u8) -> (remove: bool)
        requires
            id < 2,
        ensures
            final(self).filepath@ == old(self).filepath@,
            final(self).state@ == FileModeView::Idle,
            remove == (old(self).filepath@.len() > 0),
            remove ==> final(device)@ == old(device)@,
            !remove ==> final(device)@ == with_success(old(device)@, id as int, 0),
    {
        self.reset();
        if self.filepath.as_str().is_empty() {
            device.set_file_success(id, 0);
            return false;
        }
        true
    }

    /// Reports whether the host's work for a removal or a directory creation succeeded: 1 or 0.
    pub fn report_outcome(device: &mut GuiDevice, id: u8, succeeded: bool)
        requires
            id < 2,
        ensures
            final(device)@ == with_success(old(device)@, id as int, if succeeded { 1 } else { 0 }),
    {
        device.set_file_success(id, if succeeded { 1 } else { 0 });
    }

    /// Delivers `bytes` into memory at the read address and reports how many; a read of
    /// nothing ends the transfer, otherwise the mode becomes `next`.
    fn deliver(&mut self, device: &mut GuiDevice, id: u8, memory: &mut Memory, bytes: &[u8], next: FileMode)
        requires
            id < 2,
        ensures
            final(self).filepath@ == old(self).filepath@,
            ({
                let outcome = delivery(old(device)@, old(memory)@, id as int, transfer_address(old(device)@.ports, id as int, 0x0c), bytes@, next@);
                &&& final(device)@ == outcome.0
                &&& final(memory)@ == outcome.1
                &&& final(self).state@ == outcome.2
            }),
    {
        let (address, _) = device.file_transfer(id, 0x0c);
        write_ram_slice(memory, address, bytes);
        if bytes.len() == 0 {
            self.state = FileMode::Idle;
        } else {
            self.state = next;
        }
        device.set_file_success(id, bytes.len() as u16);
    }

    /// The next piece of the listing `data` from `offset` on, delivered.
    fn deliver_listing(&mut self, device: &mut GuiDevice, id: u8, memory: &mut Memory, data: Vec<u8>, offset: usize)
        requires
            id < 2,
        ensures
            final(self).filepath@ == old(self).filepath@,
            ({
                let ports = old(device)@.ports;
                let chunk = listing_chunk(data@, offset as nat, transfer_length(ports, id as int, 0x0c) as nat);
                let outcome = delivery(old(device)@, old(memory)@, id as int, transfer_address(ports, id as int, 0x0c), chunk,
                    FileModeView::DirRead(data@, (offset + chunk.len()) as nat));
                &&& final(device)@ == outcome.0
                &&& final(memory)@ == outcome.1
                &&& final(self).state@ == outcome.2
            }),
    {
        let (_, length) = device.file_transfer(id, 0x0c);
        let (chunk, next_offset) = next_listing_chunk(data.as_slice(), offset, length);
        self.deliver(device, id, memory, chunk.as_slice(), FileMode::DirRead { data, offset: next_offset });
    }

    /// File/read, first step. With no path or nothing to read, reports 0. A device that was
    /// idle asks the host to open the path; one reading a file asks for the next bytes; one
    /// reading a directory delivers the next piece of its listing; one writing reads nothing,
    /// and so ends its transfer and reports 0.
    pub fn begin_read(&mut self, device: &mut GuiDevice, id: u8, memory: &mut Memory) -> (action: ReadAction)
        requires
            id < 2,
        ensures
            final(self).filepath@ == old(self).filepath@,
            ({
                let ports = old(device)@.ports;
                let address = transfer_address(ports, id as int, 0x0c);
                let length = transfer_length(ports, id as int, 0x0c);
                if old(self).filepath@.len() == 0 || length == 0 {
                    &&& action is Done
                    &&& final(device)@ == with_success(old(device)@, id as int, 0)
                    &&& final(memory)@ == old(memory)@
                    &&& final(self).state@ == old(self).state@
                } else {
                    match old(self).state@ {
                        FileModeView::Idle => {
                            &&& action is Open
                            &&& final(device)@ == old(device)@
                            &&& final(memory)@ == old(memory)@
                            &&& final(self).state@ == old(self).state@
                        },
                        FileModeView::FileRead => {
                            &&& action == ReadAction::ReadFile(length as usize)
                            &&& final(device)@ == old(device)@
                            &&& final(memory)@ == old(memory)@
                            &&& final(self).state@ == old(self).state@
                        },
                        FileModeView::FileWrite => {
                            &&& action is Done
                            &&& final(device)@ == with_success(old(device)@, id as int, 0)
                            &&& final(memory)@ == old(memory)@
                            &&& final(self).state@ == FileModeView::Idle
                        },
                        FileModeView::DirRead(data, offset) => {
                            let chunk = listing_chunk(data, offset, length as nat);
                            let outcome = delivery(old(device)@, old(memory)@, id as int, address, chunk,
                                FileModeView::DirRead(data, offset + chunk.len()));
                            &&& action is Done
                            &&& final(device)@ == outcome.0
                            &&& final(memory)@ == outcome.1
                            &&& final(self).state@ == outcome.2
                        },
                    }
                }
            }),
    {
        let (_, length) = device.file_transfer(id, 0x0c);
        if self.filepath.as_str().is_empty() || length == 0 {
            device.set_file_success(id, 0);
            return ReadAction::Done;
        }
        let mut mode = FileMode::Idle;
        std::mem::swap(&mut mode, &mut self.state);
        match mode {
            FileMode::Idle => ReadAction::Open,
            FileMode::FileRead => {
                self.state = FileMode::FileRead;
                ReadAction::ReadFile(length)
            },
            FileMode::FileWrite => {
                device.set_file_success(id, 0);
                ReadAction::Done
            },
            FileMode::DirRead { data, offset } => {
                self.deliver_listing(device, id, memory, data, offset);
                ReadAction::Done
            },
        }
    }

    /// File/read, once the host opened the path: a directory's listing is read piece by
    /// piece, a file asks for its first bytes, and a path that could not be opened reports 0.
    pub fn opened_for_read(&mut self, device: &mut GuiDevice, id: u8, memory: &mut Memory, opened: OpenedPath) -> (action: ReadAction)
        requires
            id < 2,
        ensures
            final(self).filepath@ == old(self).filepath@,
            ({
                let ports = old(device)@.ports;
                let address = transfer_address(ports, id as int, 0x0c);
                let length = transfer_length(ports, id as int, 0x0c);
                match opened {
                    OpenedPath::Failed => {
                        &&& action is Done
                        &&& final(device)@ == with_success(old(device)@, id as int, 0)
                        &&& final(memory)@ == old(memory)@
                        &&& final(self).state@ == old(self).state@
                    },
                    OpenedPath::File => {
                        &&& action == ReadAction::ReadFile(length as usize)
                        &&& final(device)@ == old(device)@
                        &&& final(memory)@ == old(memory)@
                        &&& final(self).state@ == FileModeView::FileRead
                    },
                    OpenedPath::Directory(listing) => {
                        let chunk = listing_chunk(listing@, 0, length as nat);
                        let outcome = delivery(old(device)@, old(memory)@, id as int, address, chunk,
                            FileModeView::DirRead(listing@, chunk.len()));
                        &&& action is Done
                        &&& final(device)@ == outcome.0
                        &&& final(memory)@ == outcome.1
                        &&& final(self).state@ == outcome.2
                    },
                }
            }),
    {
        match opened {
            OpenedPath::Failed => {
                device.set_file_success(id, 0);
                ReadAction::Done
            },
            OpenedPath::File => {
                let (_, length) = device.file_transfer(id, 0x0c);
                self.state = FileMode::FileRead;
                ReadAction::ReadFile(length)
            },
            OpenedPath::Directory(listing) => {
                self.deliver_listing(device, id, memory, listing, 0);
                ReadAction::Done
            },
        }
    }

    /// File/read, once the host read from the open file: `bytes` as read, or `None` where the
    /// read failed, which delivers nothing.
    pub fn finish_read(&mut self, device: &mut GuiDevice, id: u8, memory: &mut Memory, bytes: Option<&[u8]>)
        requires
            id < 2,
        ensures
            final(self).filepath@ == old(self).filepath@,
            ({
                let read = match bytes {
                    Some(data) => data@,
                    None => Seq::<u8>::empty(),
                };
                let outcome = delivery(old(device)@, old(memory)@, id as int, transfer_address(old(device)@.ports, id as int, 0x0c), read,
                    FileModeView::FileRead);
                &&& final(device)@ == outcome.0
                &&& final(memory)@ == outcome.1
                &&& final(self).state@ == outcome.2
            }),
    {
        let nothing: [u8; 0] = [];
        let data: &[u8] = match bytes {
            Some(data) => data,
            None => &nothing,
        };
        self.deliver(device, id, memory, data, FileMode::FileRead);
    }

    /// The bytes a write sends: as many as the length ports ask for, from the address ports
    /// 0x0e and 0x0f hold.
    fn write_bytes(device: &GuiDevice, id: u8, memory: &Memory) -> (bytes: Vec<u8>)
        requires
            id < 2,
        ensures
            bytes@ == ram_range(memory@.ram, transfer_address(device@.ports, id as int, 0x0e), transfer_length(device@.ports, id as int, 0x0e) as nat),
    {
        let (address, length) = device.file_transfer(id, 0x0e);
        let mut bytes: Vec<u8> = Vec::new();
        let mut index: usize = 0;
        while index < length
            invariant
                index <= length,
                bytes@ == ram_range(memory@.ram, address, index as nat),
            decreases length - index,
        {
            bytes.push(memory.read_u8_at(add16_wide(address, index)));
            index += 1;
            assert(bytes@ =~= ram_range(memory@.ram, address, index as nat));
        }
        bytes
    }

    /// File/write, first step. With no path, reports 0. A path ending with `/` asks the host to
    /// create that directory. A device not already writing ends its transfer and asks the host
    /// to open the path, appending when bit 0 of port 0x07 is set; one writing asks it to write
    /// the bytes.
    pub fn begin_write(&mut self, device: &mut GuiDevice, id: u8, memory: &Memory) -> (action: WriteAction)
        requires
            id < 2,
        ensures
            final(self).filepath@ == old(self).filepath@,
            ({
                let ports = old(device)@.ports;
                let bytes = ram_range(memory@.ram, transfer_address(ports, id as int, 0x0e), transfer_length(ports, id as int, 0x0e) as nat);
                if old(self).filepath@.len() == 0 {
                    &&& action is Done
                    &&& final(device)@ == with_success(old(device)@, id as int, 0)
                    &&& final(self).state@ == old(self).state@
                } else if names_directory(old(self).filepath@) {
                    action is CreateDirectory && final(device)@ == old(device)@ && final(self).state@ == old(self).state@
                } else if old(self).state@ is FileWrite {
                    &&& action matches WriteAction::Write(data) && data@ == bytes
                    &&& final(device)@ == old(device)@
                    &&& final(self).state@ == old(self).state@
                } else {
                    &&& action == (WriteAction::Open { append: ports[file_base(id as int) + 0x07] & 1 != 0 })
                    &&& final(device)@ == old(device)@
                    &&& final(self).state@ == FileModeView::Idle
                }
            }),
    {
        if self.filepath.as_str().is_empty() {
            device.set_file_success(id, 0);
            return WriteAction::Done;
        }
        let chars = chars_of(self.filepath.as_str());
        if chars.len() > 0 && chars[chars.len() - 1] == '/' {
            return WriteAction::CreateDirectory;
        }
        if let FileMode::FileWrite = self.state {
            return WriteAction::Write(Self::write_bytes(device, id, memory));
        }
        self.reset();
        let base: u8 = if id == 0 { 0xa0 } else { 0xb0 };
        WriteAction::Open { append: device.port(base + 0x07) & 1 != 0 }
    }

    /// File/write, once the host tried to open the path: an open file is written to, and a
    /// path that could not be opened reports 0.
    pub fn opened_for_write(&mut self, device: &mut GuiDevice, id: u8, memory: &Memory, opened: bool) -> (action: WriteAction)
        requires
            id < 2,
        ensures
            final(self).filepath@ == old(self).filepath@,
            opened ==> {
                let ports = old(device)@.ports;
                &&& action matches WriteAction::Write(data)
                    && data@ == ram_range(memory@.ram, transfer_address(ports, id as int, 0x0e), transfer_length(ports, id as int, 0x0e) as nat)
                &&& final(device)@ == old(device)@
                &&& final(self).state@ == FileModeView::FileWrite
            },
            !opened ==> {
                &&& action is Done
                &&& final(device)@ == with_success(old(device)@, id as int, 0)
                &&& final(self).state@ == old(self).state@
            },
    {
        if !opened {
            device.set_file_success(id, 0);
            return WriteAction::Done;
        }
        self.state = FileMode::FileWrite;
        WriteAction::Write(Self::write_bytes(device, id, memory))
    }

    /// File/write, once the host wrote the bytes: reports how many, or 0 where writing failed.
    pub fn finish_write(device: &mut GuiDevice, id: u8, written: bool)
        requires
            id < 2,
        ensures
            final(device)@ == with_success(old(device)@, id as int,
                if written { transfer_length(old(device)@.ports, id as int, 0x0e) as u16 } else { 0 }),
    {
        let (_, length) = device.file_transfer(id, 0x0e);
        device.set_file_success(id, if written { length as u16 } else { 0 });
    }
}

} // verus!
