//! The devices of the graphical runner: system, console, screen, controller, mouse, date and
//! the file ports. The screen is two layers of 2-bit pixels kept in one byte per pixel, drawn
//! with pixel and sprite commands and shown through a four-colour palette. What needs the
//! outside world (the terminal, the clock, the file system) is asked of the caller.
use vstd::prelude::*;
use crate::uxn::bytes::{add16, high_byte, join_short, low_byte, short_from_bytes, short_high, short_low, wrap_u16};
use crate::uxn::memory::{Memory, MemoryState};
use vstd::utf8::{encode_utf8, valid_utf8};
use crate::text::chars_of;
use crate::uxntal::disassembler::{hex_min_text, push_hex_min};

verus! {

/// The screen size a device starts with.
pub const DEFAULT_SCREEN_WIDTH: u16 = 512;
pub const DEFAULT_SCREEN_HEIGHT: u16 = 320;
/// Blank pixels kept around the visible screen on every side, so that sprites drawn partly off
/// screen need no clipping.
pub const HALF_PADDING: usize = 8;
/// The blank pixels on both sides together.
pub const PADDING: usize = 16;

/// Everything the device holds, as plain values.
pub struct GuiState {
    /// The values last written to the 256 device ports (some are refreshed from the fields below).
    pub ports: Seq<u8>,
    /// One byte per pixel of the padded screen, row after row: the background colour in bits 0-1
    /// and the foreground colour in bits 2-3.
    pub layers: Seq<u8>,
    /// The 16 RGBA colours a layer byte is shown as.
    pub palette: Seq<Seq<u8>>,
    pub width: u16,
    pub height: u16,
    pub x: i16,
    pub y: i16,
    pub addr: u16,
    pub auto_x: bool,
    pub auto_y: bool,
    pub auto_addr: u8,
    pub auto_len: u8,
    pub dx: u8,
    pub dy: u8,
    pub terminated: bool,
    pub exit_code: u8,
    pub needs_redraw: bool,
    pub size_changed: bool,
}

impl GuiState {
    /// A valid screen size and a padded screen of that size.
    pub open spec fn well_formed(self) -> bool {
        &&& valid_dimension(self.width)
        &&& valid_dimension(self.height)
        &&& self.layers.len() == layers_len(self.width, self.height)
        &&& self.ports.len() == 256
        &&& self.palette.len() == 16
        &&& forall|i: int| 0 <= i < self.layers.len() ==> #[trigger] self.layers[i] < 16
    }
}

/// The width of a row of the padded screen.
pub open spec fn stride_of(width: u16) -> nat {
    (width + PADDING) as nat
}

/// The number of bytes of the padded screen.
pub open spec fn layers_len(width: u16, height: u16) -> nat {
    ((width + PADDING) * (height + PADDING)) as nat
}

/// A screen dimension as the device accepts it.
pub open spec fn valid_dimension(size: u16) -> bool {
    8 <= size <= 0x0fff
}

/// One channel of palette colour `i` (0-3): its nibble from the ports `base` and `base + 1`
/// (colour 0 in the high nibble of the first), doubled into a byte.
pub open spec fn palette_channel(ports: Seq<u8>, base: int, i: int) -> u8 {
    let shift: u8 = if i % 2 == 0 { 4 } else { 0 };
    let nibble = (ports[base + i / 2] >> shift) & 0x0f;
    (nibble << 4u8) | nibble
}

/// Palette colour `i` (0-3) as RGBA, from the red, green and blue ports 0x08-0x0d.
pub open spec fn base_color(ports: Seq<u8>, i: int) -> Seq<u8> {
    seq![palette_channel(ports, 0x08, i), palette_channel(ports, 0x0a, i), palette_channel(ports, 0x0c, i), 255u8]
}

/// The colour each of the 16 layer bytes is shown as: the background colour where it is set,
/// the foreground colour otherwise.
pub open spec fn palette_of(ports: Seq<u8>) -> Seq<Seq<u8>> {
    Seq::new(16, |i: int| if i < 4 { base_color(ports, i) } else { base_color(ports, i / 4) })
}

/// The ports a new device starts with: the default palette (white, black, teal and orange) and
/// the default screen size.
pub open spec fn initial_ports() -> Seq<u8> {
    Seq::new(256, |i: int| 0u8)
        .update(0x08, 0xf0u8).update(0x09, 0x7fu8)
        .update(0x0a, 0xf0u8).update(0x0b, 0xd6u8)
        .update(0x0c, 0xf0u8).update(0x0d, 0xb2u8)
        .update(0x22, high_byte(DEFAULT_SCREEN_WIDTH)).update(0x23, low_byte(DEFAULT_SCREEN_WIDTH))
        .update(0x24, high_byte(DEFAULT_SCREEN_HEIGHT)).update(0x25, low_byte(DEFAULT_SCREEN_HEIGHT))
}

/// The state after the screen is asked for `width` by `height` (each at most 0x0fff): each is
/// raised to at least 8; a new size updates ports 0x22-0x25, clears the screen and asks for a
/// redraw and a resize, the same size changes nothing.
pub open spec fn resized(s: GuiState, width: u16, height: u16) -> GuiState {
    let w: u16 = if width < 8 { 8 } else { width };
    let h: u16 = if height < 8 { 8 } else { height };
    if w != s.width || h != s.height {
        GuiState {
            width: w,
            height: h,
            ports: s.ports.update(0x22, high_byte(w)).update(0x23, low_byte(w)).update(0x24, high_byte(h)).update(0x25, low_byte(h)),
            layers: Seq::new(layers_len(w, h), |i: int| 0u8),
            needs_redraw: true,
            size_changed: true,
            ..s
        }
    } else {
        s
    }
}

/// The state with ports 0x28-0x2d showing the screen position and address.
pub open spec fn coords_synced(s: GuiState) -> GuiState {
    GuiState {
        ports: s.ports.update(0x28, high_byte(s.x as u16)).update(0x29, low_byte(s.x as u16))
            .update(0x2a, high_byte(s.y as u16)).update(0x2b, low_byte(s.y as u16))
            .update(0x2c, high_byte(s.addr)).update(0x2d, low_byte(s.addr)),
        ..s
    }
}

/// A layer byte after drawing colour bits `color` over it, keeping the bits of `keep`.
pub open spec fn blended(old_byte: u8, keep: u8, color: u8) -> u8 {
    (old_byte & keep) | color
}

/// `layers` with the rectangle of columns `x1 .. x1 + columns` and rows `y1 .. y1 + rows` (rows
/// `stride` wide) drawn over with `color`.
pub open spec fn filled_rect(layers: Seq<u8>, stride: int, x1: int, y1: int, columns: int, rows: int, keep: u8, color: u8) -> Seq<u8> {
    Seq::new(layers.len(), |i: int|
        if y1 <= i / stride < y1 + rows && x1 <= i % stride < x1 + columns {
            blended(layers[i], keep, color)
        } else {
            layers[i]
        })
}

/// The state after a write to the pixel port 0x2e: nothing where the position is off screen;
/// otherwise the colour (bits 0-1) is drawn on the background or, with bit 6, the foreground
/// layer, either as a fill (bit 7) from the position to the right (left with bit 4) and bottom
/// (top with bit 5) edge, or as one pixel, after which the position moves on where auto-advance
/// is on. Either way a redraw is asked for.
pub open spec fn pixel_drawn(s: GuiState) -> GuiState {
    let ctrl = s.ports[0x2e];
    let foreground = ctrl & 0x40 != 0;
    let keep: u8 = if foreground { 0x03 } else { 0x0c };
    let color: u8 = if foreground { ((ctrl & 0x03) << 2u8) as u8 } else { ctrl & 0x03 };
    let stride = stride_of(s.width) as int;
    if 0 <= s.x < s.width && 0 <= s.y < s.height {
        if ctrl & 0x80 != 0 {
            let x1: int = if ctrl & 0x10 != 0 { 8 } else { s.x + 8 };
            let x2: int = if ctrl & 0x10 != 0 { s.x as int } else { s.width as int };
            let y1: int = if ctrl & 0x20 != 0 { 8 } else { s.y + 8 };
            let y2: int = if ctrl & 0x20 != 0 { s.y as int } else { s.height as int };
            GuiState {
                layers: filled_rect(s.layers, stride, x1, y1, x2 + 8 - x1, y2 + 8 - y1, keep, color),
                needs_redraw: true,
                ..s
            }
        } else {
            let target = (s.y + 8) * stride + s.x + 8;
            let x: i16 = if s.auto_x { (if ctrl & 0x10 != 0 { s.x - 1 } else { s.x + 1 }) as i16 } else { s.x };
            let y: i16 = if s.auto_y { (if ctrl & 0x20 != 0 { s.y - 1 } else { s.y + 1 }) as i16 } else { s.y };
            coords_synced(GuiState {
                layers: s.layers.update(target, blended(s.layers[target], keep, color)),
                x,
                y,
                needs_redraw: true,
                ..s
            })
        }
    } else {
        s
    }
}

/// Drawing one pixel (pixel port with bit 7 clear) at a position on the screen sets that pixel's
/// colour on the layer the port names (bit 6: foreground, else background) to the port's low two
/// bits, keeps its colour on the other layer, and leaves every other pixel as it was. Layer bytes
/// hold the background colour in their low two bits and the foreground colour in the next two.
pub proof fn lemma_pixel_sets_one_pixel(s: GuiState)
    requires
        s.well_formed(),
        s.ports[0x2e] < 0x80,
        0 <= s.x < s.width,
        0 <= s.y < s.height,
    ensures
        ({
            let ctrl = s.ports[0x2e];
            let foreground = ctrl >= 0x40;
            let stride = stride_of(s.width) as int;
            let target = (s.y + 8) * stride + s.x + 8;
            let after = pixel_drawn(s).layers;
            &&& after.len() == s.layers.len()
            &&& 0 <= target < s.layers.len()
            &&& after[target] < 16
            &&& after[target] % 4 == if foreground { s.layers[target] % 4 } else { ctrl % 4 }
            &&& after[target] / 4 == if foreground { ctrl % 4 } else { s.layers[target] / 4 }
            &&& forall|i: int| 0 <= i < after.len() && i != target ==> #[trigger] after[i] == s.layers[i]
        }),
{
    let ctrl = s.ports[0x2e];
    let stride = stride_of(s.width) as int;
    let target = (s.y + 8) * stride + s.x + 8;
    let old = s.layers[target];
    assert(0 <= target < s.layers.len()) by (nonlinear_arith)
        requires
            0 <= s.x < s.width,
            0 <= s.y < s.height,
            stride == s.width + 16,
            target == (s.y + 8) * stride + s.x + 8,
            s.layers.len() == layers_len(s.width, s.height);
    assert(ctrl & 0x80 == 0 && ((ctrl & 0x40 != 0) == (ctrl >= 0x40))) by (bit_vector)
        requires
            ctrl < 0x80;
    assert(old < 16 ==> ((old & 0x03) | (((ctrl & 0x03) << 2u8) as u8)) < 16
        && ((old & 0x03) | (((ctrl & 0x03) << 2u8) as u8)) % 4 == old % 4
        && ((old & 0x03) | (((ctrl & 0x03) << 2u8) as u8)) / 4 == ctrl % 4
        && ((old & 0x0c) | (ctrl & 0x03)) < 16
        && ((old & 0x0c) | (ctrl & 0x03)) % 4 == ctrl % 4
        && ((old & 0x0c) | (ctrl & 0x03)) / 4 == old / 4) by (bit_vector);
}

/// What a read of `port` gives: the screen size, position and address from the screen's own
/// state, every other port's last written value.
pub open spec fn gui_port_value(s: GuiState, port: u8) -> u8 {
    if port == 0x22 {
        high_byte(s.width)
    } else if port == 0x23 {
        low_byte(s.width)
    } else if port == 0x24 {
        high_byte(s.height)
    } else if port == 0x25 {
        low_byte(s.height)
    } else if port == 0x28 {
        high_byte(s.x as u16)
    } else if port == 0x29 {
        low_byte(s.x as u16)
    } else if port == 0x2a {
        high_byte(s.y as u16)
    } else if port == 0x2b {
        low_byte(s.y as u16)
    } else if port == 0x2c {
        high_byte(s.addr)
    } else if port == 0x2d {
        low_byte(s.addr)
    } else {
        s.ports[port as int]
    }
}

/// What a write to a port asks of the caller, once the device has done its part.
#[derive(Debug, Clone, Copy, PartialEq, Eq, Structural)]
pub enum GuiRequest {
    /// Nothing.
    Nothing,
    /// Console/write: print the byte on standard output.
    Stdout(u8),
    /// Console/error: print the byte on standard error.
    Stderr(u8),
    /// File/stat of file device 0 or 1.
    FileStat(u8),
    /// File/delete.
    FileDelete(u8),
    /// File/name: take the file name from memory.
    FileName(u8),
    /// File/read.
    FileRead(u8),
    /// File/write.
    FileWrite(u8),
    /// A port of no known device: report the write.
    UnknownPort,
}

/// The request a write of `value` to `port` makes.
pub open spec fn gui_request(port: u8, value: u8) -> GuiRequest {
    if port == 0x18 {
        GuiRequest::Stdout(value)
    } else if port == 0x19 {
        GuiRequest::Stderr(value)
    } else if port == 0xa5 || port == 0xb5 {
        GuiRequest::FileStat(if port == 0xa5 { 0 } else { 1 })
    } else if port == 0xa6 || port == 0xb6 {
        GuiRequest::FileDelete(if port == 0xa6 { 0 } else { 1 })
    } else if port == 0xa9 || port == 0xb9 {
        GuiRequest::FileName(if port == 0xa9 { 0 } else { 1 })
    } else if port == 0xad || port == 0xbd {
        GuiRequest::FileRead(if port == 0xad { 0 } else { 1 })
    } else if port == 0xaf || port == 0xbf {
        GuiRequest::FileWrite(if port == 0xaf { 0 } else { 1 })
    } else if port <= 0x2f || (0x90 <= port <= 0xcf) {
        GuiRequest::Nothing
    } else {
        GuiRequest::UnknownPort
    }
}

/// The state after `value` is written to `port` (reading sprites from `memory`): the value is
/// stored, and then the port's device acts: the colour ports recompute the palette, a non-zero
/// System/state asks to terminate with its low seven bits, the screen size ports resize the
/// screen (to at most 0x0fff), the auto port sets auto-advance, the position and address ports
/// set them, and the pixel and sprite ports draw.
pub open spec fn gui_output(s: GuiState, port: u8, value: u8, memory: MemoryState) -> GuiState {
    let t = GuiState { ports: s.ports.update(port as int, value), ..s };
    if 0x08 <= port <= 0x0d {
        GuiState { palette: palette_of(t.ports), needs_redraw: true, ..t }
    } else if port == 0x0f {
        if value != 0 { GuiState { terminated: true, exit_code: value & 0x7f, ..t } } else { t }
    } else if port == 0x22 || port == 0x23 {
        resized(t, join_short(t.ports[0x22], t.ports[0x23]) & 0x0fff, t.height)
    } else if port == 0x24 || port == 0x25 {
        resized(t, t.width, join_short(t.ports[0x24], t.ports[0x25]) & 0x0fff)
    } else if port == 0x26 {
        GuiState {
            auto_x: value & 0x01 != 0,
            auto_y: value & 0x02 != 0,
            auto_addr: ((value & 0x04) << 1u8) as u8,
            auto_len: value >> 4u8,
            dx: if value & 0x01 != 0 { 8 } else { 0 },
            dy: if value & 0x02 != 0 { 8 } else { 0 },
            ..t
        }
    } else if port == 0x28 || port == 0x29 {
        GuiState { x: join_short(t.ports[0x28], t.ports[0x29]) as i16, ..t }
    } else if port == 0x2a || port == 0x2b {
        GuiState { y: join_short(t.ports[0x2a], t.ports[0x2b]) as i16, ..t }
    } else if port == 0x2c || port == 0x2d {
        GuiState { addr: join_short(t.ports[0x2c], t.ports[0x2d]), ..t }
    } else if port == 0x2e {
        pixel_drawn(t)
    } else if port == 0x2f {
        sprite_drawn(t, memory)
    } else {
        t
    }
}

/// The first port of file device `id` (0 or 1).
pub open spec fn file_base(id: int) -> int {
    if id == 0 { 0xa0 } else { 0xb0 }
}

/// The bytes a transfer of `length` bytes from `address` may touch: at most up to the end of
/// memory.
pub open spec fn clamped_length(address: u16, length: int) -> int {
    if address + length > 0x10000 { 0x10000 - address } else { length }
}

/// `ram` with `data` written from `address` on, wrapping around at the end.
pub open spec fn ram_written(ram: Seq<u8>, address: u16, data: Seq<u8>) -> Seq<u8>
    decreases data.len(),
{
    if data.len() == 0 {
        ram
    } else {
        ram_written(ram, address, data.drop_last()).update((address + data.len() - 1) % 65536, data.last())
    }
}

/// The bytes of the zero-terminated string at `address`: up to the first zero, at most 4096,
/// wrapping around at the end of memory.
pub open spec fn ram_string_bytes(ram: Seq<u8>, address: u16, count: nat) -> Seq<u8>
    decreases count,
{
    if count == 0 {
        seq![]
    } else {
        let before = ram_string_bytes(ram, address, (count - 1) as nat);
        let byte = ram[(address + count - 1) % 65536];
        if before.len() == count - 1 && byte != 0 { before.push(byte) } else { before }
    }
}

/// The text `String::from_utf8_lossy` makes of `bytes`.
pub uninterp spec fn lossy_utf8(bytes: Seq<u8>) -> Seq<char>;

/// What the file system holds at a path, as File/stat shows it.
#[derive(Debug, Clone, Copy, PartialEq, Eq, Structural)]
pub enum FileKind {
    /// Nothing could be read about the path.
    Missing,
    Directory,
    /// A file of this many bytes.
    File(u64),
}

/// Whether a file of `size` bytes fits in `length` hexadecimal digits, as File/stat shows it.
pub open spec fn size_fits(size: u64, length: nat) -> bool {
    if length >= 8 { size < u64::MAX } else { size < (1u64 << (length * 4) as u64) }
}

/// `size` in lowercase hexadecimal, zero-padded to at least `length` digits.
pub open spec fn padded_hex(size: nat, length: nat) -> Seq<char> {
    let digits = hex_min_text(size);
    if digits.len() < length { Seq::new((length - digits.len()) as nat, |i: int| '0') + digits } else { digits }
}

/// What File/stat writes for `kind` in a field of `length` bytes: `!` for a missing path, `-`
/// for a directory, a file's size in hexadecimal, or `?` where the size does not fit.
pub open spec fn stat_bytes(kind: FileKind, length: nat) -> Seq<u8> {
    match kind {
        FileKind::Missing => Seq::new(length, |i: int| 0x21u8),
        FileKind::Directory => Seq::new(length, |i: int| 0x2du8),
        FileKind::File(size) => if size_fits(size, length) {
            padded_hex(size as nat, length).map_values(|c: char| c as u8)
        } else {
            Seq::new(length, |i: int| 0x3fu8)
        },
    }
}

/// One line of a directory listing: the entry's stat in four bytes, a tab, its name, a slash
/// after a directory's name, and a newline.
pub open spec fn listing_line(kind: FileKind, name: Seq<u8>) -> Seq<u8> {
    stat_bytes(kind, 4) + seq![0x09u8] + name + (if kind is Directory { seq![0x2fu8] } else { Seq::<u8>::empty() }) + seq![0x0au8]
}

/// How a sprite command draws: the sprite port's flags, and the blend mode of its low nibble.
#[derive(Clone, Copy)]
pub struct TileStyle {
    /// Two bit planes (bit 7) rather than one.
    pub two_bits: bool,
    /// Mirrored left to right (bit 4).
    pub flip_x: bool,
    /// Mirrored top to bottom (bit 5).
    pub flip_y: bool,
    /// On the foreground layer (bit 6).
    pub foreground: bool,
    /// The blend mode (bits 0-3).
    pub blend: u8,
}

/// The style the sprite port value `ctrl` asks for.
pub open spec fn tile_style(ctrl: u8) -> TileStyle {
    TileStyle {
        two_bits: ctrl & 0x80 != 0,
        flip_x: ctrl & 0x10 != 0,
        flip_y: ctrl & 0x20 != 0,
        foreground: ctrl & 0x40 != 0,
        blend: ctrl & 0x0f,
    }
}

/// The background colour each blend mode gives each sprite colour (0-3).
pub open spec fn blend_table() -> Seq<Seq<u8>> {
    seq![
        seq![0u8, 0, 1, 2], seq![0u8, 1, 2, 3], seq![0u8, 2, 3, 1], seq![0u8, 3, 1, 2],
        seq![1u8, 0, 1, 2], seq![1u8, 1, 2, 3], seq![1u8, 2, 3, 1], seq![1u8, 3, 1, 2],
        seq![2u8, 0, 1, 2], seq![2u8, 1, 2, 3], seq![2u8, 2, 3, 1], seq![2u8, 3, 1, 2],
        seq![3u8, 0, 1, 2], seq![3u8, 1, 2, 3], seq![3u8, 2, 3, 1], seq![3u8, 3, 1, 2],
    ]
}

/// The layer bits a sprite colour is drawn as: the blend table's colour, moved to the
/// foreground bits on the foreground layer.
pub open spec fn sprite_layer_bits(style: TileStyle, color: int) -> u8 {
    let value = blend_table()[style.blend as int][color];
    if style.foreground { (value * 4) as u8 } else { value }
}

/// The layer bits a sprite leaves alone.
pub open spec fn sprite_keep(style: TileStyle) -> u8 {
    if style.foreground { 0x03 } else { 0x0c }
}

/// Whether colour 0 of the blend mode is drawn too (it is transparent in modes 0, 5, 10, 15).
pub open spec fn sprite_opaque(style: TileStyle) -> bool {
    style.blend % 5 != 0
}

/// Bit `bit` of `byte`.
pub open spec fn plane_bit(byte: u8, bit: int) -> u32 {
    ((byte as u32) >> (bit as u32)) & 1
}

/// The colour (0-3) of the pixel in row `j` and column `k` of the 8x8 tile whose first plane
/// starts at `address` (and second plane, with two planes, 8 bytes on): one bit from each
/// plane, each row a byte, the leftmost pixel in its high bit; mirrored as the style asks.
pub open spec fn tile_color(memory: MemoryState, address: u16, style: TileStyle, j: int, k: int) -> u32 {
    let row_address = ((address + if style.flip_y { 7 - j } else { j }) % 65536) as u16;
    let bit = if style.flip_x { k } else { 7 - k };
    let low = plane_bit(memory.read8(row_address), bit);
    let high = if style.two_bits { plane_bit(memory.read8(((row_address + 8) % 65536) as u16), bit) } else { 0 };
    (low + 2 * high) as u32
}

/// Bit `i` of `byte` (bit 0 the lowest).
pub open spec fn bit_of(byte: u8, i: nat) -> nat {
    (byte as nat / vstd::arithmetic::power2::pow2(i)) % 2
}

proof fn lemma_plane_bit_is_bit_of(byte: u8, i: int)
    requires
        0 <= i < 8,
    ensures
        plane_bit(byte, i) as nat == bit_of(byte, i as nat),
{
    let x = byte as u32;
    vstd::bits::lemma_u32_shr_is_div(x, i as u32);
    let y = x >> (i as u32);
    assert(y & 1 == y % 2) by (bit_vector);
}

/// The pixels of a tile. Unmirrored, the pixel in row `j` and column `k` has as its low bit
/// bit `7 - k` of byte `j` of the tile (the leftmost pixel is the high bit) and, with two
/// planes, as its high bit bit `7 - k` of byte `j + 8`. Mirrored left to right, column `k`
/// shows what column `7 - k` shows unmirrored; mirrored top to bottom, row `j` shows row `7 - j`.
pub proof fn lemma_tile_pixels(memory: MemoryState, address: u16, style: TileStyle, j: int, k: int)
    requires
        0 <= j < 8,
        0 <= k < 8,
    ensures
        !style.flip_x && !style.flip_y ==> tile_color(memory, address, style, j, k) as nat
            == bit_of(memory.read8(((address + j) % 65536) as u16), (7 - k) as nat)
            + if style.two_bits { 2 * bit_of(memory.read8(((address + j + 8) % 65536) as u16), (7 - k) as nat) } else { 0 },
        tile_color(memory, address, style, j, k) == tile_color(
            memory,
            address,
            TileStyle { flip_x: false, flip_y: false, ..style },
            if style.flip_y { 7 - j } else { j },
            if style.flip_x { 7 - k } else { k },
        ),
{
    let row = ((address + j) % 65536) as u16;
    lemma_plane_bit_is_bit_of(memory.read8(row), 7 - k);
    lemma_plane_bit_is_bit_of(memory.read8(((row + 8) % 65536) as u16), 7 - k);
    assert(((row + 8) % 65536) as u16 == ((address + j + 8) % 65536) as u16);
}

/// `layers` (rows `stride` wide) with the tile at `address` drawn with its top left pixel at
/// (`x0`, `y0`): each of its 64 pixels blended in, but for transparent colour 0.
pub open spec fn tile_drawn(layers: Seq<u8>, stride: int, x0: int, y0: int, memory: MemoryState, address: u16, style: TileStyle) -> Seq<u8> {
    Seq::new(layers.len(), |i: int| {
        let j = i / stride - y0;
        let k = i % stride - x0;
        let color = tile_color(memory, address, style, j, k);
        if 0 <= j < 8 && 0 <= k < 8 && (sprite_opaque(style) || color != 0) {
            blended(layers[i], sprite_keep(style), sprite_layer_bits(style, color as int))
        } else {
            layers[i]
        }
    })
}

/// Where a tile lands: the pixel in row `y`, column `x` of layers `stride` wide takes the tile's
/// pixel in row `y - y0`, column `x - x0` when that lies in the 8x8 tile (blended in, unless it
/// is transparent colour 0), and is left as it was elsewhere.
pub proof fn lemma_tile_lands_at(layers: Seq<u8>, stride: int, x0: int, y0: int, memory: MemoryState, address: u16, style: TileStyle, x: int, y: int)
    requires
        0 <= x < stride,
        0 <= y,
        y * stride + x < layers.len(),
    ensures
        ({
            let i = y * stride + x;
            let j = y - y0;
            let k = x - x0;
            let color = tile_color(memory, address, style, j, k);
            &&& 0 <= j < 8 && 0 <= k < 8 && (sprite_opaque(style) || color != 0) ==> tile_drawn(layers, stride, x0, y0, memory, address, style)[i]
                == blended(layers[i], sprite_keep(style), sprite_layer_bits(style, color as int))
            &&& !(0 <= j < 8 && 0 <= k < 8) ==> tile_drawn(layers, stride, x0, y0, memory, address, style)[i] == layers[i]
        }),
{
    let i = y * stride + x;
    vstd::arithmetic::div_mod::lemma_fundamental_div_mod_converse(i, stride, y, x);
}

/// How far each further sprite of a sprite command moves, across and down, and how far its
/// address moves: auto-advance of x moves down and of y across, mirrored with the sprite.
pub open spec fn sprite_step_x(s: GuiState, style: TileStyle) -> int {
    if style.flip_x { -(s.dy as int) } else { s.dy as int }
}

pub open spec fn sprite_step_y(s: GuiState, style: TileStyle) -> int {
    if style.flip_y { -(s.dx as int) } else { s.dx as int }
}

pub open spec fn sprite_address_step(s: GuiState, style: TileStyle) -> int {
    if style.two_bits { s.auto_addr as int * 2 } else { s.auto_addr as int }
}

/// The layers after the first `count` sprites of the sprite command of state `s`: sprite `i`
/// at `i` steps from the position, from `i` address steps on, drawn where it lies wholly within
/// the padded screen.
pub open spec fn sprites_drawn(s: GuiState, memory: MemoryState, count: nat) -> Seq<u8>
    decreases count,
{
    if count == 0 {
        s.layers
    } else {
        let i = count - 1;
        let style = tile_style(s.ports[0x2f]);
        let before = sprites_drawn(s, memory, (count - 1) as nat);
        let x0 = s.x + i * sprite_step_x(s, style) + 8;
        let y0 = s.y + i * sprite_step_y(s, style) + 8;
        let address = ((s.addr + i * sprite_address_step(s, style)) % 65536) as u16;
        if x0 + 8 < stride_of(s.width) && y0 + 8 < s.height + PADDING && x0 >= 0 && y0 >= 0 {
            tile_drawn(before, stride_of(s.width) as int, x0, y0, memory, address, style)
        } else {
            before
        }
    }
}

/// The state after a write to the sprite port 0x2f: `auto_len + 1` sprites drawn, the address
/// moved past them, the position moved by one step where auto-advance is on, and a redraw asked.
pub open spec fn sprite_drawn(s: GuiState, memory: MemoryState) -> GuiState {
    let style = tile_style(s.ports[0x2f]);
    let count = s.auto_len + 1;
    let x: i16 = if s.auto_x { (s.x + if style.flip_x { -(s.dx as int) } else { s.dx as int }) as i16 } else { s.x };
    let y: i16 = if s.auto_y { (s.y + if style.flip_y { -(s.dy as int) } else { s.dy as int }) as i16 } else { s.y };
    coords_synced(GuiState {
        layers: sprites_drawn(s, memory, count as nat),
        addr: ((s.addr + count * sprite_address_step(s, style)) % 65536) as u16,
        x,
        y,
        needs_redraw: true,
        ..s
    })
}

/// The source pixel of output pixel `p` of a screen `width` wide: past the padding, row by row.
pub open spec fn source_index(width: u16, p: int) -> int {
    (p / width as int + 8) * stride_of(width) + p % width as int + 8
}

/// The RGBA image of the visible screen: four bytes a pixel, row by row.
pub open spec fn rgba_byte(s: GuiState, i: int) -> u8 {
    s.palette[s.layers[source_index(s.width, i / 4)] as int][i % 4]
}

/// Row `row` and column `col` of a grid `width` wide are at `row * width + col`, and back.
proof fn lemma_grid_cell(row: int, col: int, width: int)
    requires
        0 <= row,
        0 <= col < width,
    ensures
        (row * width + col) / width == row,
        (row * width + col) % width == col,
{
    vstd::arithmetic::div_mod::lemma_fundamental_div_mod_converse(row * width + col, width, row, col);
}

/// Every position is a row and a column of a grid.
proof fn lemma_cell_of(i: int, width: int)
    requires
        width > 0,
    ensures
        i == (i / width) * width + i % width,
{
    vstd::arithmetic::div_mod::lemma_fundamental_div_mod(i, width);
    vstd::arithmetic::mul::lemma_mul_is_commutative(width, i / width);
}

/// A cell of a grid lies within it.
proof fn lemma_grid_bound(row: int, col: int, width: int, rows: int)
    by (nonlinear_arith)
    requires
        0 <= row < rows,
        0 <= col < width,
    ensures
        0 <= row * width + col < rows * width,
        row * width + width <= rows * width,
        rows * width == width * rows,
{
}

/// Drawing colour bits over a layer byte keeps it a layer byte.
proof fn lemma_blend_small(old_byte: u8, keep: u8, color: u8)
    requires
        old_byte < 16,
        color < 16,
    ensures
        blended(old_byte, keep, color) < 16,
{
    assert((old_byte & keep) | color < 16) by (bit_vector)
        requires
            old_byte < 16,
            color < 16;
}

/// The padded screen and its RGBA image fit comfortably in memory.
proof fn lemma_screen_size(width: int, height: int)
    by (nonlinear_arith)
    requires
        0 <= width <= 0x0fff,
        0 <= height <= 0x0fff,
    ensures
        (width + 16) * (height + 16) <= 4111 * 4111,
        0 <= height * width * 4 <= 4095 * 4095 * 4,
        height * width == width * height,
{
}

/// Up to 256 steps of at most 255 stay well within 32 bits.
proof fn lemma_step_bound(i: int, step: int)
    by (nonlinear_arith)
    requires
        0 <= i <= 256,
        -255 <= step <= 255,
    ensures
        -65280 <= i * step <= 65280,
{
}

proof fn lemma_next_row(row: int, width: int)
    by (nonlinear_arith)
    ensures
        (row + 1) * width == row * width + width,
{
}

/// The devices of the graphical runner.
pub struct GuiDevice {
    dev: [u8; 256],
    screen_layers: Vec<u8>,
    screen_palette: [[u8; 4]; 16],
    width: u16,
    height: u16,
    x: i16,
    y: i16,
    addr: u16,
    auto_x: bool,
    auto_y: bool,
    auto_addr: u8,
    auto_len: u8,
    dx: u8,
    dy: u8,
    terminated: bool,
    exit_code: u8,
    needs_redraw: bool,
    size_changed: bool,
}

impl View for GuiDevice {
    type V = GuiState;

    closed spec fn view(&self) -> GuiState {
        GuiState {
            ports: self.dev@,
            layers: self.screen_layers@,
            palette: self.screen_palette@.map_values(|color: [u8; 4]| color@),
            width: self.width,
            height: self.height,
            x: self.x,
            y: self.y,
            addr: self.addr,
            auto_x: self.auto_x,
            auto_y: self.auto_y,
            auto_addr: self.auto_addr,
            auto_len: self.auto_len,
            dx: self.dx,
            dy: self.dy,
            terminated: self.terminated,
            exit_code: self.exit_code,
            needs_redraw: self.needs_redraw,
            size_changed: self.size_changed,
        }
    }
}

impl GuiDevice {

    /// A device with the default palette and a blank screen of the default size.
    pub fn new() -> (device: Self)
        ensures
            device@.well_formed(),
            device@ == (GuiState {
                ports: initial_ports(),
                layers: Seq::new(layers_len(DEFAULT_SCREEN_WIDTH, DEFAULT_SCREEN_HEIGHT), |i: int| 0u8),
                palette: palette_of(initial_ports()),
                width: DEFAULT_SCREEN_WIDTH,
                height: DEFAULT_SCREEN_HEIGHT,
                x: 0,
                y: 0,
                addr: 0,
                auto_x: false,
                auto_y: false,
                auto_addr: 0,
                auto_len: 0,
                dx: 0,
                dy: 0,
                terminated: false,
                exit_code: 0,
                needs_redraw: true,
                size_changed: false,
            }),
    {
        let mut dev = [0u8; 256];
        proof {
            vstd::array::axiom_spec_array_fill_for_copy_type::<u8, 256>(0u8);
            vstd::array::array_len_matches_n(&dev);
        }
        assert(dev@ =~= Seq::new(256, |i: int| 0u8));
        dev[0x08] = 0xf0;
        dev[0x09] = 0x7f;
        dev[0x0a] = 0xf0;
        dev[0x0b] = 0xd6;
        dev[0x0c] = 0xf0;
        dev[0x0d] = 0xb2;
        dev[0x22] = short_high(DEFAULT_SCREEN_WIDTH);
        dev[0x23] = short_low(DEFAULT_SCREEN_WIDTH);
        dev[0x24] = short_high(DEFAULT_SCREEN_HEIGHT);
        dev[0x25] = short_low(DEFAULT_SCREEN_HEIGHT);
        assert(dev@ =~= initial_ports());
        let stride = DEFAULT_SCREEN_WIDTH as usize + PADDING;
        let total_height = DEFAULT_SCREEN_HEIGHT as usize + PADDING;
        assert(stride * total_height == 528 * 336);
        let screen_layers = vec_of_zeros(stride * total_height);
        let mut device = GuiDevice {
            dev,
            screen_layers,
            screen_palette: [[0u8; 4]; 16],
            width: DEFAULT_SCREEN_WIDTH,
            height: DEFAULT_SCREEN_HEIGHT,
            x: 0,
            y: 0,
            addr: 0,
            auto_x: false,
            auto_y: false,
            auto_addr: 0,
            auto_len: 0,
            dx: 0,
            dy: 0,
            terminated: false,
            exit_code: 0,
            needs_redraw: true,
            size_changed: false,
        };
        device.update_palette();
        device
    }

    pub fn width(&self) -> (width: u16)
        ensures
            width == self@.width,
    {
        self.width
    }

    pub fn height(&self) -> (height: u16)
        ensures
            height == self@.height,
    {
        self.height
    }

    /// The screen vector: ports 0x20 and 0x21.
    pub fn screen_vector(&self) -> (vector: u16)
        ensures
            vector == join_short(self@.ports[0x20], self@.ports[0x21]),
    {
        short_from_bytes(self.dev[0x20], self.dev[0x21])
    }

    /// The mouse vector: ports 0x90 and 0x91.
    pub fn mouse_vector(&self) -> (vector: u16)
        ensures
            vector == join_short(self@.ports[0x90], self@.ports[0x91]),
    {
        short_from_bytes(self.dev[0x90], self.dev[0x91])
    }

    /// The controller vector: ports 0x80 and 0x81.
    pub fn controller_vector(&self) -> (vector: u16)
        ensures
            vector == join_short(self@.ports[0x80], self@.ports[0x81]),
    {
        short_from_bytes(self.dev[0x80], self.dev[0x81])
    }

    /// Sets the key the controller reports (port 0x83).
    pub fn set_controller_key(&mut self, key: u8)
        ensures
            final(self)@ == (GuiState { ports: old(self)@.ports.update(0x83, key), ..old(self)@ }),
    {
        self.dev[0x83] = key;
    }

    /// Sets the buttons the controller reports (port 0x82).
    pub fn set_controller_buttons(&mut self, buttons: u8)
        ensures
            final(self)@ == (GuiState { ports: old(self)@.ports.update(0x82, buttons), ..old(self)@ }),
    {
        self.dev[0x82] = buttons;
    }

    pub fn is_terminated(&self) -> (terminated: bool)
        ensures
            terminated == self@.terminated,
    {
        self.terminated
    }

    pub fn exit_code(&self) -> (code: u8)
        ensures
            code == self@.exit_code,
    {
        self.exit_code
    }

    pub fn needs_redraw(&self) -> (needs: bool)
        ensures
            needs == self@.needs_redraw,
    {
        self.needs_redraw
    }

    pub fn clear_needs_redraw(&mut self)
        ensures
            final(self)@ == (GuiState { needs_redraw: false, ..old(self)@ }),
    {
        self.needs_redraw = false;
    }

    pub fn size_changed(&self) -> (changed: bool)
        ensures
            changed == self@.size_changed,
    {
        self.size_changed
    }

    pub fn clear_size_changed(&mut self)
        ensures
            final(self)@ == (GuiState { size_changed: false, ..old(self)@ }),
    {
        self.size_changed = false;
    }

    /// Sets the mouse position the device reports (ports 0x92-0x95).
    pub fn set_mouse_position(&mut self, x: u16, y: u16)
        ensures
            final(self)@ == (GuiState {
                ports: old(self)@.ports.update(0x92, high_byte(x)).update(0x93, low_byte(x))
                    .update(0x94, high_byte(y)).update(0x95, low_byte(y)),
                ..old(self)@
            }),
    {
        self.dev[0x92] = short_high(x);
        self.dev[0x93] = short_low(x);
        self.dev[0x94] = short_high(y);
        self.dev[0x95] = short_low(y);
    }

    /// Marks the buttons of `mask` pressed (port 0x96).
    pub fn set_mouse_button_down(&mut self, mask: u8)
        ensures
            final(self)@ == (GuiState { ports: old(self)@.ports.update(0x96, old(self)@.ports[0x96] | mask), ..old(self)@ }),
    {
        self.dev[0x96] = self.dev[0x96] | mask;
    }

    /// Marks the buttons of `mask` released (port 0x96).
    pub fn set_mouse_button_up(&mut self, mask: u8)
        ensures
            final(self)@ == (GuiState { ports: old(self)@.ports.update(0x96, old(self)@.ports[0x96] & !mask), ..old(self)@ }),
    {
        self.dev[0x96] = self.dev[0x96] & !mask;
    }

    /// Sets the scroll the mouse reports (ports 0x9a-0x9d).
    pub fn set_mouse_scroll(&mut self, x: i16, y: i16)
        ensures
            final(self)@ == (GuiState {
                ports: old(self)@.ports.update(0x9a, high_byte(x as u16)).update(0x9b, low_byte(x as u16))
                    .update(0x9c, high_byte(y as u16)).update(0x9d, low_byte(y as u16)),
                ..old(self)@
            }),
    {
        self.dev[0x9a] = short_high(x as u16);
        self.dev[0x9b] = short_low(x as u16);
        self.dev[0x9c] = short_high(y as u16);
        self.dev[0x9d] = short_low(y as u16);
    }

    /// Clears the scroll the mouse reports.
    pub fn clear_mouse_scroll(&mut self)
        ensures
            final(self)@ == (GuiState {
                ports: old(self)@.ports.update(0x9a, 0u8).update(0x9b, 0u8).update(0x9c, 0u8).update(0x9d, 0u8),
                ..old(self)@
            }),
    {
        self.dev[0x9a] = 0;
        self.dev[0x9b] = 0;
        self.dev[0x9c] = 0;
        self.dev[0x9d] = 0;
    }

    /// Resizes the screen to `width` by `height`, each raised to at least 8.
    fn resize_screen(&mut self, width: u16, height: u16)
        requires
            old(self)@.well_formed(),
            width <= 0x0fff,
            height <= 0x0fff,
        ensures
            final(self)@ == resized(old(self)@, width, height),
            final(self)@.well_formed(),
    {
        let width = if width < 8 { 8 } else { width };
        let height = if height < 8 { 8 } else { height };
        if width != self.width || height != self.height {
            let stride = width as usize + PADDING;
            let total_height = height as usize + PADDING;
            proof { lemma_screen_size(width as int, height as int); }
            let layers = vec_of_zeros(stride * total_height);
            let mut dev = self.dev;
            dev[0x22] = short_high(width);
            dev[0x23] = short_low(width);
            dev[0x24] = short_high(height);
            dev[0x25] = short_low(height);
            *self = GuiDevice {
                dev,
                screen_layers: layers,
                width,
                height,
                needs_redraw: true,
                size_changed: true,
                ..*self
            };
        }
    }

    /// Shows the position and address on ports 0x28-0x2d.
    fn sync_coords_to_dev(&mut self)
        ensures
            final(self)@ == coords_synced(old(self)@),
    {
        self.dev[0x28] = short_high(self.x as u16);
        self.dev[0x29] = short_low(self.x as u16);
        self.dev[0x2a] = short_high(self.y as u16);
        self.dev[0x2b] = short_low(self.y as u16);
        self.dev[0x2c] = short_high(self.addr);
        self.dev[0x2d] = short_low(self.addr);
    }

    /// Draws what the pixel port asks for.
    #[verifier::spinoff_prover]
    #[verifier::rlimit(40)]
    fn deo_pixel(&mut self)
        requires
            old(self)@.well_formed(),
        ensures
            final(self)@ == pixel_drawn(old(self)@),
            final(self)@.well_formed(),
    {
        let ctrl = self.dev[0x2e];
        let foreground = (ctrl & 0x40) != 0;
        let keep: u8 = if foreground { 0x03 } else { 0x0c };
        let color: u8 = if foreground { (ctrl & 0x03) << 2u8 } else { ctrl & 0x03 };
        assert(color < 16) by (bit_vector)
            requires
                color == if foreground { (ctrl & 0x03) << 2u8 } else { ctrl & 0x03 };
        let x = self.x;
        let y = self.y;
        if x >= 0 && (x as u16) < self.width && y >= 0 && (y as u16) < self.height {
            let stride = self.width as usize + PADDING;
            let total_height = self.height as usize + PADDING;
            proof { lemma_screen_size(self.width as int, self.height as int); }
            assert(self.screen_layers@.len() <= 4111 * 4111);
            let x_u = x as usize;
            let y_u = y as usize;
            if (ctrl & 0x80) != 0 {
                let x1 = if (ctrl & 0x10) != 0 { HALF_PADDING } else { x_u + HALF_PADDING };
                let x2 = if (ctrl & 0x10) != 0 { x_u } else { self.width as usize };
                let y1 = if (ctrl & 0x20) != 0 { HALF_PADDING } else { y_u + HALF_PADDING };
                let y2 = if (ctrl & 0x20) != 0 { y_u } else { self.height as usize };
                let columns = (x2 + HALF_PADDING) - x1;
                let rows = (y2 + HALF_PADDING) - y1;
                let ghost start = self.screen_layers@;
                let ghost target = filled_rect(start, stride as int, x1 as int, y1 as int, columns as int, rows as int, keep, color);
                let mut row: usize = 0;
                while row < rows
                    invariant
                        self@.well_formed(),
                        self@ == (GuiState { layers: self@.layers, ..old(self)@ }),
                        stride == stride_of(self.width),
                        total_height == self.height + PADDING,
                        x1 + columns <= stride,
                        x1 < stride,
                        y1 + rows <= total_height,
                        row <= rows,
                        color < 16,
                        self.screen_layers@.len() <= 4111 * 4111,
                        start == old(self)@.layers,
                        target == filled_rect(start, stride as int, x1 as int, y1 as int, columns as int, rows as int, keep, color),
                        self.screen_layers@.len() == start.len(),
                        forall|i: int| 0 <= i < start.len() ==> #[trigger] self.screen_layers@[i] ==
                            if i / (stride as int) < y1 + row { target[i] } else { start[i] },
                    decreases rows - row,
                {
                    proof {
                        lemma_grid_bound((y1 + row) as int, x1 as int, stride as int, total_height as int);
                    }
                    let row_start = (y1 + row) * stride + x1;
                    let mut column: usize = 0;
                    while column < columns
                        invariant
                            self@.well_formed(),
                            self@ == (GuiState { layers: self@.layers, ..old(self)@ }),
                            stride == stride_of(self.width),
                            total_height == self.height + PADDING,
                            x1 + columns <= stride,
                            x1 < stride,
                            y1 + rows <= total_height,
                            row < rows,
                            color < 16,
                            self.screen_layers@.len() <= 4111 * 4111,
                            column <= columns,
                            row_start == (y1 + row) * stride + x1,
                            start == old(self)@.layers,
                            target == filled_rect(start, stride as int, x1 as int, y1 as int, columns as int, rows as int, keep, color),
                            self.screen_layers@.len() == start.len(),
                            forall|i: int| 0 <= i < start.len() ==> #[trigger] self.screen_layers@[i] ==
                                if i / (stride as int) < y1 + row || (i / (stride as int) == y1 + row && i % (stride as int) < x1 + column) { target[i] } else { start[i] },
                        decreases columns - column,
                    {
                        proof {
                            lemma_grid_bound((y1 + row) as int, (x1 + column) as int, stride as int, total_height as int);
                            lemma_grid_cell((y1 + row) as int, (x1 + column) as int, stride as int);
                        }
                        let index = row_start + column;
                        proof { lemma_blend_small(self.screen_layers@[index as int], keep, color); }
                        let value = (self.screen_layers[index] & keep) | color;
                        let ghost before = self.screen_layers@;
                        self.screen_layers.set(index, value);
                        proof {
                            let st = stride as int;
                            assert forall|i: int| 0 <= i < start.len() implies #[trigger] self.screen_layers@[i] ==
                                if i / st < y1 + row || (i / st == y1 + row && i % st < x1 + column + 1) { target[i] } else { start[i] } by {
                                if i != index && i / st == y1 + row && i % st == x1 + column {
                                    lemma_cell_of(i, st);
                                }
                            }
                        }
                        column += 1;
                    }
                    row += 1;
                }
                proof {
                    assert forall|i: int| 0 <= i < start.len() implies #[trigger] self.screen_layers@[i] == target[i] by {
                        if i / (stride as int) >= y1 + rows {
                            assert(!(y1 <= i / (stride as int) < y1 + rows));
                        }
                    }
                    assert(self.screen_layers@ =~= target);
                }
                self.needs_redraw = true;
            } else {
                proof {
                    lemma_grid_bound((y_u + 8) as int, (x_u + 8) as int, stride as int, total_height as int);
                }
                let target = (y_u + HALF_PADDING) * stride + (x_u + HALF_PADDING);
                proof { lemma_blend_small(self.screen_layers@[target as int], keep, color); }
                let value = (self.screen_layers[target] & keep) | color;
                self.screen_layers.set(target, value);
                if self.auto_x {
                    self.x = if (ctrl & 0x10) != 0 { self.x - 1 } else { self.x + 1 };
                }
                if self.auto_y {
                    self.y = if (ctrl & 0x20) != 0 { self.y - 1 } else { self.y + 1 };
                }
                self.needs_redraw = true;
                self.sync_coords_to_dev();
            }
        }
    }

    /// Draws what the sprite port asks for, reading the tiles from `memory`.
    #[verifier::spinoff_prover]
    #[verifier::rlimit(40)]
    fn deo_sprite(&mut self, memory: &Memory)
        requires
            old(self)@.well_formed(),
        ensures
            final(self)@ == sprite_drawn(old(self)@, memory@),
            final(self)@.well_formed(),
    {
        let ghost s = self@;
        let ctrl = self.dev[0x2f];
        let style = TileStyle {
            two_bits: (ctrl & 0x80) != 0,
            flip_x: (ctrl & 0x10) != 0,
            flip_y: (ctrl & 0x20) != 0,
            foreground: (ctrl & 0x40) != 0,
            blend: ctrl & 0x0f,
        };
        assert(style == tile_style(s.ports[0x2f]));
        assert(ctrl & 0x0f < 16) by (bit_vector);
        let step_x: i32 = if style.flip_x { -(self.dy as i32) } else { self.dy as i32 };
        let step_y: i32 = if style.flip_y { -(self.dx as i32) } else { self.dx as i32 };
        let address_step: u16 = if style.two_bits { (self.auto_addr as u16) * 2 } else { self.auto_addr as u16 };
        let stride = self.width as usize + PADDING;
        let total_height = self.height as usize + PADDING;
        proof {
            lemma_screen_size(self.width as int, self.height as int);
            vstd::arithmetic::mul::lemma_mul_is_commutative(stride as int, total_height as int);
        }
        let count: u32 = self.auto_len as u32 + 1;
        let mut cur_x: i32 = self.x as i32;
        let mut cur_y: i32 = self.y as i32;
        let mut i: u32 = 0;
        while i < count
            invariant
                self@ == (GuiState { layers: self@.layers, addr: self@.addr, ..s }),
                self@.well_formed(),
                s.well_formed(),
                style == tile_style(s.ports[0x2f]),
                style.blend < 16,
                step_x == sprite_step_x(s, style),
                step_y == sprite_step_y(s, style),
                address_step == sprite_address_step(s, style),
                stride == stride_of(s.width),
                total_height == s.height + PADDING,
                total_height * stride <= 4111 * 4111,
                self.screen_layers@.len() == total_height * stride,
                count == s.auto_len + 1,
                i <= count,
                cur_x == s.x + i * step_x,
                cur_y == s.y + i * step_y,
                self.addr == ((s.addr + i * address_step) % 65536) as u16,
                self.screen_layers@ == sprites_drawn(s, memory@, i as nat),
            decreases count - i,
        {
            proof {
                lemma_step_bound(i as int, step_x as int);
                lemma_step_bound(i as int, step_y as int);
                lemma_next_row(i as int, step_x as int);
                lemma_next_row(i as int, step_y as int);
                lemma_next_row(i as int, address_step as int);
            }
            let x0 = cur_x + 8;
            let y0 = cur_y + 8;
            if x0 + 8 < stride as i32 && y0 + 8 < total_height as i32 && x0 >= 0 && y0 >= 0 {
                draw_tile(&mut self.screen_layers, stride, x0 as usize, y0 as usize, total_height, memory, self.addr, style);
            }
            cur_x = cur_x + step_x;
            cur_y = cur_y + step_y;
            proof {
                vstd::arithmetic::div_mod::lemma_add_mod_noop(s.addr + i * address_step, address_step as int, 65536);
            }
            self.addr = add16(self.addr, address_step);
            i += 1;
        }
        if self.auto_x {
            self.x = #[verifier::truncate] ((self.x as i32 + if style.flip_x { -(self.dx as i32) } else { self.dx as i32 }) as i16);
        }
        if self.auto_y {
            self.y = #[verifier::truncate] ((self.y as i32 + if style.flip_y { -(self.dy as i32) } else { self.dy as i32 }) as i16);
        }
        self.needs_redraw = true;
        self.sync_coords_to_dev();
    }

    /// The value a read of `port` gives.
    pub fn input(&self, port: u8) -> (value: u8)
        ensures
            value == gui_port_value(self@, port),
    {
        if port == 0x22 {
            short_high(self.width)
        } else if port == 0x23 {
            short_low(self.width)
        } else if port == 0x24 {
            short_high(self.height)
        } else if port == 0x25 {
            short_low(self.height)
        } else if port == 0x28 {
            short_high(self.x as u16)
        } else if port == 0x29 {
            short_low(self.x as u16)
        } else if port == 0x2a {
            short_high(self.y as u16)
        } else if port == 0x2b {
            short_low(self.y as u16)
        } else if port == 0x2c {
            short_high(self.addr)
        } else if port == 0x2d {
            short_low(self.addr)
        } else {
            proof { vstd::array::array_len_matches_n(&self.dev); }
            self.dev[port as usize]
        }
    }

    /// Whether a read of `port` should first refresh the date and time ports (0xc0-0xca).
    pub fn is_datetime_port(port: u8) -> (datetime: bool)
        ensures
            datetime == (0xc0 <= port <= 0xca),
    {
        0xc0 <= port && port <= 0xca
    }

    /// Sets the date and time ports: the year (0xc0-0xc1), month from 0, day of the month, hour,
    /// minute, second, day of the week, day of the year (0xc8-0xc9) and daylight saving.
    pub fn set_datetime(&mut self, year: u16, month: u8, day: u8, hour: u8, minute: u8, second: u8, weekday: u8, year_day: u16, daylight_saving: bool)
        ensures
            final(self)@ == (GuiState {
                ports: old(self)@.ports.update(0xc0, high_byte(year)).update(0xc1, low_byte(year)).update(0xc2, month)
                    .update(0xc3, day).update(0xc4, hour).update(0xc5, minute).update(0xc6, second).update(0xc7, weekday)
                    .update(0xc8, high_byte(year_day)).update(0xc9, low_byte(year_day)).update(0xca, if daylight_saving { 1u8 } else { 0u8 }),
                ..old(self)@
            }),
    {
        self.dev[0xc0] = short_high(year);
        self.dev[0xc1] = short_low(year);
        self.dev[0xc2] = month;
        self.dev[0xc3] = day;
        self.dev[0xc4] = hour;
        self.dev[0xc5] = minute;
        self.dev[0xc6] = second;
        self.dev[0xc7] = weekday;
        self.dev[0xc8] = short_high(year_day);
        self.dev[0xc9] = short_low(year_day);
        self.dev[0xca] = if daylight_saving { 1 } else { 0 };
    }

    /// The value last written to `port`.
    pub fn port(&self, port: u8) -> (value: u8)
        ensures
            value == self@.ports[port as int],
    {
        proof { vstd::array::array_len_matches_n(&self.dev); }
        self.dev[port as usize]
    }

    /// Reports the outcome of an operation of file device `id` on its success ports.
    pub fn set_file_success(&mut self, id: u8, success: u16)
        requires
            id < 2,
        ensures
            final(self)@ == (GuiState {
                ports: old(self)@.ports.update(file_base(id as int) + 2, high_byte(success)).update(file_base(id as int) + 3, low_byte(success)),
                ..old(self)@
            }),
    {
        let base: usize = if id == 0 { 0xa0 } else { 0xb0 };
        self.dev[base + 0x02] = short_high(success);
        self.dev[base + 0x03] = short_low(success);
    }

    /// The memory address that ports `offset` and `offset + 1` of file device `id` hold, and the
    /// length its length ports ask for, cut at the end of memory.
    pub fn file_transfer(&self, id: u8, offset: u8) -> (transfer: (u16, usize))
        requires
            id < 2,
            offset < 0x0f,
        ensures
            transfer.0 == join_short(self@.ports[file_base(id as int) + offset], self@.ports[file_base(id as int) + offset + 1]),
            transfer.1 == clamped_length(transfer.0, join_short(self@.ports[file_base(id as int) + 0x0a], self@.ports[file_base(id as int) + 0x0b]) as int),
    {
        let base: usize = if id == 0 { 0xa0 } else { 0xb0 };
        let offset = offset as usize;
        let address = short_from_bytes(self.dev[base + offset], self.dev[base + offset + 1]);
        let mut length = short_from_bytes(self.dev[base + 0x0a], self.dev[base + 0x0b]) as usize;
        if address as usize + length > 0x10000 {
            length = 0x10000 - address as usize;
        }
        (address, length)
    }

    /// Stores `value` on `port` and lets the port's device act: a write to port 0x03 runs the
    /// expansion command whose descriptor address ports 0x02 and 0x03 hold. Returns what else
    /// the write asks of the caller.
    pub fn output(&mut self, port: u8, value: u8, memory: &mut Memory) -> (request: GuiRequest)
        requires
            old(self)@.well_formed(),
        ensures
            final(self)@ == gui_output(old(self)@, port, value, old(memory)@),
            final(self)@.well_formed(),
            port == 0x03 ==> final(memory)@ == old(memory)@.expansion_command(join_short(old(self)@.ports[0x02], value)),
            port != 0x03 ==> final(memory)@ == old(memory)@,
            request == gui_request(port, value),
    {
        proof { vstd::array::array_len_matches_n(&self.dev); }
        self.dev[port as usize] = value;
        assert(self@.well_formed());
        if port == 0x03 {
            let descriptor_address = short_from_bytes(self.dev[0x02], self.dev[0x03]);
            memory.expansion_execute(descriptor_address);
        } else if 0x08 <= port && port <= 0x0d {
            self.update_palette();
        } else if port == 0x0f {
            if value != 0 {
                self.terminated = true;
                self.exit_code = value & 0x7f;
            }
        } else if port == 0x22 || port == 0x23 {
            let raw = short_from_bytes(self.dev[0x22], self.dev[0x23]);
            let width = raw & 0x0fff;
            assert(raw & 0x0fff <= 0x0fff) by (bit_vector);
            let height = self.height;
            self.resize_screen(width, height);
        } else if port == 0x24 || port == 0x25 {
            let raw = short_from_bytes(self.dev[0x24], self.dev[0x25]);
            let height = raw & 0x0fff;
            assert(raw & 0x0fff <= 0x0fff) by (bit_vector);
            let width = self.width;
            self.resize_screen(width, height);
        } else if port == 0x26 {
            self.auto_x = (value & 0x01) != 0;
            self.auto_y = (value & 0x02) != 0;
            self.auto_addr = (value & 0x04) << 1u8;
            self.auto_len = value >> 4u8;
            self.dx = if self.auto_x { 8 } else { 0 };
            self.dy = if self.auto_y { 8 } else { 0 };
        } else if port == 0x28 || port == 0x29 {
            self.x = #[verifier::truncate] (short_from_bytes(self.dev[0x28], self.dev[0x29]) as i16);
        } else if port == 0x2a || port == 0x2b {
            self.y = #[verifier::truncate] (short_from_bytes(self.dev[0x2a], self.dev[0x2b]) as i16);
        } else if port == 0x2c || port == 0x2d {
            self.addr = short_from_bytes(self.dev[0x2c], self.dev[0x2d]);
        } else if port == 0x2e {
            self.deo_pixel();
        } else if port == 0x2f {
            self.deo_sprite(memory);
        }
        if port == 0x18 {
            GuiRequest::Stdout(value)
        } else if port == 0x19 {
            GuiRequest::Stderr(value)
        } else if port == 0xa5 || port == 0xb5 {
            GuiRequest::FileStat(if port == 0xa5 { 0 } else { 1 })
        } else if port == 0xa6 || port == 0xb6 {
            GuiRequest::FileDelete(if port == 0xa6 { 0 } else { 1 })
        } else if port == 0xa9 || port == 0xb9 {
            GuiRequest::FileName(if port == 0xa9 { 0 } else { 1 })
        } else if port == 0xad || port == 0xbd {
            GuiRequest::FileRead(if port == 0xad { 0 } else { 1 })
        } else if port == 0xaf || port == 0xbf {
            GuiRequest::FileWrite(if port == 0xaf { 0 } else { 1 })
        } else if port <= 0x2f || (0x90 <= port && port <= 0xcf) {
            GuiRequest::Nothing
        } else {
            GuiRequest::UnknownPort
        }
    }

    /// Writes the visible screen as RGBA into the first `width * height * 4` bytes of `dst`.
    pub fn render_to_rgba(&self, dst: &mut [u8])
        requires
            self@.well_formed(),
            old(dst)@.len() >= self@.height * self@.width * 4,
        ensures
            final(dst)@.len() == old(dst)@.len(),
            forall|i: int| 0 <= i < self@.height * self@.width * 4 ==> #[trigger] final(dst)@[i] == rgba_byte(self@, i),
            forall|i: int| self@.height * self@.width * 4 <= i < old(dst)@.len() ==> #[trigger] final(dst)@[i] == old(dst)@[i],
    {
        let width = self.width as usize;
        let height = self.height as usize;
        let stride = width + PADDING;
        proof { lemma_screen_size(width as int, height as int); }
        let ghost total = height * width * 4;
        assert(self.screen_layers@.len() <= 4111 * 4111);
        let mut source_row = HALF_PADDING * stride + HALF_PADDING;
        let mut out: usize = 0;
        let mut row: usize = 0;
        while row < height
            invariant
                self@.well_formed(),
                width == self.width,
                height == self.height,
                stride == stride_of(self.width),
                total == height * width * 4,
                total <= dst@.len(),
                total <= 4095 * 4095 * 4,
                self.screen_layers@.len() <= 4111 * 4111,
                dst@.len() == old(dst)@.len(),
                row <= height,
                out == row * width * 4,
                source_row == (row + 8) * stride + 8,
                forall|i: int| 0 <= i < out ==> #[trigger] dst@[i] == rgba_byte(self@, i),
                forall|i: int| out <= i < dst@.len() ==> #[trigger] dst@[i] == old(dst)@[i],
            decreases height - row,
        {
            proof {
                lemma_grid_bound(row as int, 0, width as int, height as int);
                lemma_grid_bound((row + 8) as int, 8, stride as int, (height + 16) as int);
                lemma_next_row((row + 8) as int, stride as int);
            }
            let mut column: usize = 0;
            while column < width
                invariant
                    self@.well_formed(),
                    width == self.width,
                    height == self.height,
                    stride == stride_of(self.width),
                    total == height * width * 4,
                    total <= dst@.len(),
                    total <= 4095 * 4095 * 4,
                    self.screen_layers@.len() <= 4111 * 4111,
                    dst@.len() == old(dst)@.len(),
                    row < height,
                    column <= width,
                    out == (row * width + column) * 4,
                    row * width + width <= height * width,
                    source_row == (row + 8) * stride + 8,
                    source_row + width < (row + 8) * stride + stride,
                    (row + 8) * stride + stride <= self.screen_layers@.len(),
                    forall|i: int| 0 <= i < out ==> #[trigger] dst@[i] == rgba_byte(self@, i),
                    forall|i: int| out <= i < dst@.len() ==> #[trigger] dst@[i] == old(dst)@[i],
                decreases width - column,
            {
                let layer = self.screen_layers[source_row + column];
                let color = self.screen_palette[layer as usize];
                proof {
                    lemma_grid_cell(row as int, column as int, width as int);
                    assert(source_index(self.width, row * width + column) == source_row + column);
                }
                let mut c: usize = 0;
                while c < 4
                    invariant
                        self@.well_formed(),
                        width == self.width,
                        stride == stride_of(self.width),
                        dst@.len() == old(dst)@.len(),
                        c <= 4,
                        out + 4 <= dst@.len(),
                        out == (row * width + column) * 4,
                        source_index(self.width, row * width + column) == source_row + column,
                        source_row + column < self.screen_layers@.len(),
                        layer == self.screen_layers@[source_row + column],
                        color@ == self@.palette[layer as int],
                        forall|i: int| 0 <= i < out + c ==> #[trigger] dst@[i] == rgba_byte(self@, i),
                        forall|i: int| out + c <= i < dst@.len() ==> #[trigger] dst@[i] == old(dst)@[i],
                    decreases 4 - c,
                {
                    assert((out + c) / 4 == row * width + column);
                    assert((out + c) % 4 == c);
                    dst[out + c] = color[c];
                    c += 1;
                }
                out += 4;
                column += 1;
            }
            proof { lemma_next_row(row as int, width as int); }
            source_row += stride;
            row += 1;
        }
    }

    /// Recomputes the palette from the colour ports, and asks for a redraw.
    fn update_palette(&mut self)
        ensures
            final(self)@ == (GuiState { palette: palette_of(old(self)@.ports), needs_redraw: true, ..old(self)@ }),
    {
        let mut colors = [[0u8; 4]; 4];
        let mut i: usize = 0;
        while i < 4
            invariant
                i <= 4,
                self@ == old(self)@,
                forall|k: int| 0 <= k < i ==> (#[trigger] colors@[k])@ == base_color(self@.ports, k),
            decreases 4 - i,
        {
            let shift: u8 = if i % 2 == 0 { 4 } else { 0 };
            let byte_offset = i / 2;
            let r = (self.dev[0x08 + byte_offset] >> shift) & 0x0f;
            let g = (self.dev[0x0a + byte_offset] >> shift) & 0x0f;
            let b = (self.dev[0x0c + byte_offset] >> shift) & 0x0f;
            let color: [u8; 4] = [(r << 4u8) | r, (g << 4u8) | g, (b << 4u8) | b, 255];
            assert(color@ =~= base_color(self@.ports, i as int));
            colors[i] = color;
            i += 1;
        }
        let mut k: usize = 0;
        while k < 16
            invariant
                k <= 16,
                self@.ports == old(self)@.ports,
                forall|j: int| 0 <= j < 4 ==> (#[trigger] colors@[j])@ == base_color(old(self)@.ports, j),
                forall|j: int| 0 <= j < k ==> (#[trigger] self.screen_palette@[j])@ == palette_of(old(self)@.ports)[j],
                self@ == (GuiState { palette: self@.palette, ..old(self)@ }),
            decreases 16 - k,
        {
            let color = if k < 4 { colors[k] } else { colors[k / 4] };
            self.screen_palette[k] = color;
            k += 1;
        }
        self.needs_redraw = true;
        assert(self@.palette =~= palette_of(old(self)@.ports));
    }
}

/// Writes `data` to memory from `address` on, wrapping around at the end.
pub fn write_ram_slice(memory: &mut Memory, address: u16, data: &[u8])
    ensures
        final(memory)@ == (MemoryState { ram: ram_written(old(memory)@.ram, address, data@), ..old(memory)@ }),
{
    let mut index: usize = 0;
    while index < data.len()
        invariant
            index <= data@.len(),
            memory@ == (MemoryState { ram: ram_written(old(memory)@.ram, address, data@.take(index as int)), ..old(memory)@ }),
        decreases data@.len() - index,
    {
        let target = add16(address, (index % 65536) as u16);
        memory.write_u8_at(target, data[index]);
        proof {
            assert(data@.take(index + 1).drop_last() == data@.take(index as int));
            vstd::arithmetic::div_mod::lemma_add_mod_noop(address as int, index as int, 65536);
        }
        index += 1;
    }
    assert(data@.take(data@.len() as int) == data@);
}

/// The text `String::from_utf8_lossy` makes of `bytes`: the text they encode where they are
/// valid UTF-8, with each invalid sequence replaced by U+FFFD otherwise. Trusted to give the
/// named result, and for valid UTF-8 the text whose encoding is `bytes`; what it gives for
/// invalid sequences is left to the name.
#[verifier::external_body]
fn lossy_text(bytes: &[u8]) -> (text: String)
    ensures
        text@ == lossy_utf8(bytes@),
        valid_utf8(bytes@) ==> encode_utf8(text@) == bytes@,
{
    String::from_utf8_lossy(bytes).to_string()
}

/// The zero-terminated string at `address` (at most 4096 bytes), as text.
pub fn read_ram_string(memory: &Memory, address: u16) -> (text: String)
    ensures
        text@ == lossy_utf8(ram_string_bytes(memory@.ram, address, 4096)),
{
    let mut bytes: Vec<u8> = Vec::new();
    let mut current = address;
    let mut count: usize = 0;
    while count < 4096
        invariant
            count <= 4096,
            bytes@ == ram_string_bytes(memory@.ram, address, count as nat),
            bytes@.len() == count,
            current == ((address + count) % 65536) as u16,
        decreases 4096 - count,
    {
        let byte = memory.read_u8_at(current);
        if byte == 0 {
            proof { lemma_string_stops(memory@.ram, address, count as nat, 4096); }
            return lossy_text(bytes.as_slice());
        }
        bytes.push(byte);
        proof { vstd::arithmetic::div_mod::lemma_add_mod_noop(address + count, 1, 65536); }
        current = add16(current, 1);
        count += 1;
    }
    lossy_text(bytes.as_slice())
}

/// After the terminating zero the string grows no more.
proof fn lemma_string_stops(ram: Seq<u8>, address: u16, count: nat, total: nat)
    requires
        count < total,
        ram_string_bytes(ram, address, count).len() == count,
        ram[(address + count) % 65536] == 0,
    ensures
        ram_string_bytes(ram, address, total) == ram_string_bytes(ram, address, count),
    decreases total - count,
{
    if total == count + 1 {
    } else {
        lemma_string_stops(ram, address, count, (total - 1) as nat);
        lemma_string_short(ram, address, count, (total - 1) as nat);
    }
}

/// Once a string stopped short, it stays as it is.
proof fn lemma_string_short(ram: Seq<u8>, address: u16, count: nat, total: nat)
    requires
        count < total,
        ram_string_bytes(ram, address, total) == ram_string_bytes(ram, address, count),
        ram_string_bytes(ram, address, count).len() == count,
    ensures
        ram_string_bytes(ram, address, total + 1) == ram_string_bytes(ram, address, count),
{
}

/// What File/stat writes for `kind` in a field of `length` bytes.
pub fn format_stat(kind: FileKind, length: usize) -> (bytes: Vec<u8>)
    ensures
        bytes@ == stat_bytes(kind, length as nat),
{
    let fill: u8 = match kind {
        FileKind::Missing => 0x21,
        FileKind::Directory => 0x2d,
        FileKind::File(size) => {
            let fits = if length >= 8 { size < u64::MAX } else { size < (1u64 << (length * 4) as u64) };
            if fits {
                let mut text = String::new();
                push_hex_min(&mut text, size);
                let digits = chars_of(text.as_str());
                let mut bytes: Vec<u8> = Vec::new();
                let mut padding: usize = 0;
                let count = digits.len();
                let zeros: usize = if count < length { length - count } else { 0 };
                while padding < zeros
                    invariant
                        count == digits@.len(),
                        digits@ == hex_min_text(size as nat),
                        zeros == if count < length { (length - count) as usize } else { 0usize },
                        padding <= zeros,
                        bytes@ == Seq::new(padding as nat, |i: int| 0x30u8),
                    decreases zeros - padding,
                {
                    bytes.push(0x30);
                    padding += 1;
                }
                let mut index: usize = 0;
                while index < count
                    invariant
                        count == digits@.len(),
                        digits@ == hex_min_text(size as nat),
                        zeros == if count < length { (length - count) as usize } else { 0usize },
                        index <= count,
                        bytes@ == Seq::new(zeros as nat, |i: int| 0x30u8) + digits@.take(index as int).map_values(|c: char| c as u8),
                    decreases count - index,
                {
                    let ghost before = bytes@;
                    bytes.push(digits[index] as u8);
                    proof {
                        assert(digits@.take(index + 1).map_values(|c: char| c as u8)
                            =~= digits@.take(index as int).map_values(|c: char| c as u8).push(digits@[index as int] as u8));
                    }
                    index += 1;
                }
                proof {
                    assert(digits@.take(count as int) =~= digits@);
                    assert(padded_hex(size as nat, length as nat) =~= Seq::new(zeros as nat, |i: int| '0') + digits@);
                    assert(bytes@ =~= padded_hex(size as nat, length as nat).map_values(|c: char| c as u8));
                }
                return bytes;
            }
            0x3f
        },
    };
    let mut bytes: Vec<u8> = Vec::new();
    while bytes.len() < length
        invariant
            bytes@.len() <= length,
            forall|i: int| 0 <= i < bytes@.len() ==> bytes@[i] == fill,
        decreases length - bytes@.len(),
    {
        bytes.push(fill);
    }
    assert(bytes@ =~= stat_bytes(kind, length as nat));
    bytes
}

/// Appends the directory listing line for an entry of kind `kind` named `name`.
pub fn push_listing_line(listing: &mut Vec<u8>, kind: FileKind, name: &[u8])
    ensures
        final(listing)@ == old(listing)@ + listing_line(kind, name@),
{
    let stat = format_stat(kind, 4);
    let mut index: usize = 0;
    while index < stat.len()
        invariant
            index <= stat@.len(),
            listing@ == old(listing)@ + stat@.take(index as int),
        decreases stat@.len() - index,
    {
        listing.push(stat[index]);
        index += 1;
        assert(stat@.take(index as int) =~= stat@.take(index - 1).push(stat@[index - 1]));
    }
    listing.push(0x09);
    let ghost middle = listing@;
    let mut index: usize = 0;
    while index < name.len()
        invariant
            index <= name@.len(),
            listing@ == middle + name@.take(index as int),
        decreases name@.len() - index,
    {
        listing.push(name[index]);
        index += 1;
        assert(name@.take(index as int) =~= name@.take(index - 1).push(name@[index - 1]));
    }
    if kind == FileKind::Directory {
        listing.push(0x2f);
    }
    listing.push(0x0a);
    assert(stat@.take(stat@.len() as int) =~= stat@);
    assert(name@.take(name@.len() as int) =~= name@);
    assert(listing@ =~= old(listing)@ + listing_line(kind, name@));
}

/// The next part of a directory listing that a File/read of `length` bytes gets, from `offset`
/// on, and the offset after it.
pub fn next_listing_chunk(data: &[u8], offset: usize, length: usize) -> (chunk: (Vec<u8>, usize))
    ensures
        offset <= data@.len() ==> chunk.0@ == data@.subrange(offset as int, offset + (if data@.len() - offset < length { data@.len() - offset } else { length as int })),
        offset > data@.len() ==> chunk.0@.len() == 0,
        chunk.1 == offset + chunk.0@.len(),
{
    let total = data.len();
    let available = if total > offset { total - offset } else { 0 };
    let count = if available < length { available } else { length };
    let mut bytes: Vec<u8> = Vec::new();
    let mut index: usize = 0;
    while index < count
        invariant
            total == data@.len(),
            available == if data@.len() > offset { data@.len() - offset } else { 0 },
            count <= available,
            count > 0 ==> offset + count <= data@.len(),
            index <= count,
            bytes@.len() == index,
            forall|k: int| 0 <= k < index ==> bytes@[k] == data@[offset + k],
        decreases count - index,
    {
        bytes.push(data[offset + index]);
        index += 1;
    }
    proof {
        if offset <= data@.len() {
            assert(bytes@ =~= data@.subrange(offset as int, offset + count));
        }
    }
    (bytes, offset + count)
}

/// The row of the blend table for mode `blend`.
fn blend_row(blend: u8) -> (row: [u8; 4])
    requires
        blend < 16,
    ensures
        row@ == blend_table()[blend as int],
{
    let row: [u8; 4] = match blend {
        0 => [0, 0, 1, 2],
        1 => [0, 1, 2, 3],
        2 => [0, 2, 3, 1],
        3 => [0, 3, 1, 2],
        4 => [1, 0, 1, 2],
        5 => [1, 1, 2, 3],
        6 => [1, 2, 3, 1],
        7 => [1, 3, 1, 2],
        8 => [2, 0, 1, 2],
        9 => [2, 1, 2, 3],
        10 => [2, 2, 3, 1],
        11 => [2, 3, 1, 2],
        12 => [3, 0, 1, 2],
        13 => [3, 1, 2, 3],
        14 => [3, 2, 3, 1],
        _ => [3, 3, 1, 2],
    };
    assert(row@ =~= blend_table()[blend as int]);
    row
}

/// The colour bits of a pixel, from the bytes of its row in each plane.
proof fn lemma_pixel_color(low: u8, high: u8, bit: u32, two_bits: bool)
    requires
        bit < 8,
    ensures
        (((low as u32) >> bit) & 1) | ((if two_bits { (high as u32) << 1u32 } else { 0u32 } >> bit) & 2)
            == (((low as u32) >> bit) & 1) + 2 * (if two_bits { ((high as u32) >> bit) & 1 } else { 0u32 }),
        (((low as u32) >> bit) & 1) + 2 * (if two_bits { ((high as u32) >> bit) & 1 } else { 0u32 }) < 4,
{
    let l = low as u32;
    let h = high as u32;
    if two_bits {
        assert(((l >> bit) & 1) | (((h << 1u32) >> bit) & 2) == ((l >> bit) & 1) + 2 * ((h >> bit) & 1)
            && ((l >> bit) & 1) + 2 * ((h >> bit) & 1) < 4) by (bit_vector)
            requires
                bit < 8,
                l < 256,
                h < 256;
    } else {
        assert(((l >> bit) & 1) | ((0u32 >> bit) & 2) == ((l >> bit) & 1) + 2 * 0u32
            && ((l >> bit) & 1) < 2) by (bit_vector)
            requires
                bit < 8;
    }
}

/// Draws the tile at `address` with its top left pixel at (`x0`, `y0`) of `layers`.
fn draw_tile(layers: &mut Vec<u8>, stride: usize, x0: usize, y0: usize, rows: usize, memory: &Memory, address: u16, style: TileStyle)
    requires
        x0 + 8 < stride,
        y0 + 8 < rows,
        old(layers)@.len() == rows * stride,
        rows * stride <= 4111 * 4111,
        style.blend < 16,
        forall|i: int| 0 <= i < old(layers)@.len() ==> #[trigger] old(layers)@[i] < 16,
    ensures
        final(layers)@ == tile_drawn(old(layers)@, stride as int, x0 as int, y0 as int, memory@, address, style),
        forall|i: int| 0 <= i < final(layers)@.len() ==> #[trigger] final(layers)@[i] < 16,
{
    let ghost start = layers@;
    let ghost target = tile_drawn(start, stride as int, x0 as int, y0 as int, memory@, address, style);
    let ghost st = stride as int;
    let keep: u8 = if style.foreground { 0x03 } else { 0x0c };
    let opaque = style.blend % 5 != 0;
    let table = blend_row(style.blend);
    let mut j: usize = 0;
    while j < 8
        invariant
            x0 + 8 < stride,
            y0 + 8 < rows,
            st == stride,
            start.len() == rows * stride,
            rows * stride <= 4111 * 4111,
            layers@.len() == start.len(),
            style.blend < 16,
            keep == sprite_keep(style),
            opaque == sprite_opaque(style),
            table@ == blend_table()[style.blend as int],
            target == tile_drawn(start, st, x0 as int, y0 as int, memory@, address, style),
            j <= 8,
            forall|i: int| 0 <= i < layers@.len() ==> #[trigger] layers@[i] < 16,
            forall|i: int| 0 <= i < start.len() ==> #[trigger] layers@[i] == if i / st < y0 + j { target[i] } else { start[i] },
        decreases 8 - j,
    {
        let column_offset: u16 = if style.flip_y { 7 - j as u16 } else { j as u16 };
        let row_address = add16(address, column_offset);
        let low = memory.read_u8_at(row_address);
        let high = if style.two_bits { memory.read_u8_at(add16(row_address, 8)) } else { 0 };
        let ch1 = low as u32;
        let ch2: u32 = if style.two_bits { (high as u32) << 1u32 } else { 0 };
        proof {
            lemma_grid_bound((y0 + j) as int, x0 as int, st, rows as int);
        }
        let row_start = (y0 + j) * stride + x0;
        let mut k: usize = 0;
        while k < 8
            invariant
                x0 + 8 < stride,
                y0 + 8 < rows,
                st == stride,
                start.len() == rows * stride,
                rows * stride <= 4111 * 4111,
                layers@.len() == start.len(),
                style.blend < 16,
                keep == sprite_keep(style),
                opaque == sprite_opaque(style),
                table@ == blend_table()[style.blend as int],
                target == tile_drawn(start, st, x0 as int, y0 as int, memory@, address, style),
                j < 8,
                k <= 8,
                row_start == (y0 + j) * stride + x0,
                row_address == ((address + if style.flip_y { 7 - j } else { j as int }) % 65536) as u16,
                low == memory@.read8(row_address),
                style.two_bits ==> high == memory@.read8(((row_address + 8) % 65536) as u16),
                ch1 == low as u32,
                ch2 == if style.two_bits { (high as u32) << 1u32 } else { 0u32 },
                forall|i: int| 0 <= i < layers@.len() ==> #[trigger] layers@[i] < 16,
                forall|i: int| 0 <= i < start.len() ==> #[trigger] layers@[i] ==
                    if i / st < y0 + j || (i / st == y0 + j && i % st < x0 + k) { target[i] } else { start[i] },
            decreases 8 - k,
        {
            let bit: u32 = if style.flip_x { k as u32 } else { 7 - k as u32 };
            let color = ((ch1 >> bit) & 1) | ((ch2 >> bit) & 2);
            proof {
                lemma_pixel_color(low, high, bit, style.two_bits);
                lemma_grid_bound((y0 + j) as int, (x0 + k) as int, st, rows as int);
                lemma_grid_cell((y0 + j) as int, (x0 + k) as int, st);
                assert(color == tile_color(memory@, address, style, j as int, k as int));
            }
            let index = row_start + k;
            let ghost before = layers@;
            if opaque || color != 0 {
                let bits: u8 = if style.foreground { table[color as usize] * 4 } else { table[color as usize] };
                proof { lemma_blend_small(layers@[index as int], keep, bits); }
                let value = (layers[index] & keep) | bits;
                layers.set(index, value);
            }
            proof {
                assert forall|i: int| 0 <= i < start.len() implies #[trigger] layers@[i] ==
                    if i / st < y0 + j || (i / st == y0 + j && i % st < x0 + k + 1) { target[i] } else { start[i] } by {
                    if i != index && i / st == y0 + j && i % st == x0 + k {
                        lemma_cell_of(i, st);
                    }
                }
            }
            k += 1;
        }
        j += 1;
    }
    proof {
        assert forall|i: int| 0 <= i < start.len() implies #[trigger] layers@[i] == target[i] by {}
        assert(layers@ =~= target);
    }
}

/// A vector of `length` zeros.
fn vec_of_zeros(length: usize) -> (zeros: Vec<u8>)
    ensures
        zeros@ == Seq::new(length as nat, |i: int| 0u8),
{
    let mut zeros: Vec<u8> = Vec::new();
    while zeros.len() < length
        invariant
            zeros@.len() <= length,
            forall|i: int| 0 <= i < zeros@.len() ==> zeros@[i] == 0u8,
        decreases length - zeros@.len(),
    {
        zeros.push(0);
    }
    assert(zeros@ =~= Seq::new(length as nat, |i: int| 0u8));
    zeros
}

/// Asking twice for the same screen size changes nothing the second time.
pub proof fn lemma_resize_idempotent(s: GuiState, width: u16, height: u16)
    requires
        s.well_formed(),
        width <= 0x0fff,
        height <= 0x0fff,
    ensures
        resized(resized(s, width, height), width, height) == resized(s, width, height),
        resized(s, width, height).well_formed(),
{
}

/// Reading a port gives the value just written to it, for every port but the screen size ports
/// (which read back the size the screen took, at least 8 and at most 0x0fff).
pub proof fn lemma_gui_read_after_write(s: GuiState, port: u8, value: u8, memory: MemoryState)
    requires
        s.well_formed(),
        !(0x22 <= port <= 0x25),
    ensures
        gui_port_value(gui_output(s, port, value, memory), port) == value,
{
    let t = GuiState { ports: s.ports.update(port as int, value), ..s };
    if port == 0x28 || port == 0x29 {
        let j = join_short(t.ports[0x28], t.ports[0x29]);
        assert((j as i16) as u16 == j) by (bit_vector);
        crate::uxn::bytes::lemma_split_join(t.ports[0x28], t.ports[0x29]);
    } else if port == 0x2a || port == 0x2b {
        let j = join_short(t.ports[0x2a], t.ports[0x2b]);
        assert((j as i16) as u16 == j) by (bit_vector);
        crate::uxn::bytes::lemma_split_join(t.ports[0x2a], t.ports[0x2b]);
    } else if port == 0x2c || port == 0x2d {
        crate::uxn::bytes::lemma_split_join(t.ports[0x2c], t.ports[0x2d]);
    }
}

} // verus!
