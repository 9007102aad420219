use uxr::file_device::{FileMode, OpenedPath, ReadAction, UxnFile, WriteAction};
use uxr::gui_frame::{frame_events, FrameEvent, FrameInput, HeldKeys};
use uxr::gui_device::{format_stat, next_listing_chunk, push_listing_line, read_ram_string, write_ram_slice, FileKind, GuiDevice, GuiRequest};
use uxr::uxn::memory::Memory;

const STRIDE: usize = 512 + 16;

fn layer_at(device: &GuiDevice, x: usize, y: usize) -> u8 {
    let mut rgba = vec![0u8; device.width() as usize * device.height() as usize * 4];
    device.render_to_rgba(&mut rgba);
    // Identify the layer byte by its colour: palette entries are distinct for 0..4.
    let index = (y * device.width() as usize + x) * 4;
    let pixel = &rgba[index..index + 4];
    let mut probe = GuiDevice::new();
    let mut memory = Memory::new();
    for color in 0u8..4 {
        probe.output(0x28, 0, &mut memory);
        probe.output(0x29, 0, &mut memory);
        probe.output(0x2a, 0, &mut memory);
        probe.output(0x2b, 0, &mut memory);
        probe.output(0x2e, color, &mut memory);
        let mut sample = vec![0u8; probe.width() as usize * probe.height() as usize * 4];
        probe.render_to_rgba(&mut sample);
        if &sample[0..4] == pixel {
            return color;
        }
    }
    0xff
}

fn set_position(device: &mut GuiDevice, memory: &mut Memory, x: u16, y: u16) {
    device.output(0x28, (x >> 8) as u8, memory);
    device.output(0x29, x as u8, memory);
    device.output(0x2a, (y >> 8) as u8, memory);
    device.output(0x2b, y as u8, memory);
}

#[test]
fn new_device_has_default_screen_and_palette() {
    let device = GuiDevice::new();
    assert_eq!(device.width(), 512);
    assert_eq!(device.height(), 320);
    assert_eq!(device.input(0x22), 0x02);
    assert_eq!(device.input(0x23), 0x00);
    assert_eq!(device.input(0x24), 0x01);
    assert_eq!(device.input(0x25), 0x40);
    assert!(device.needs_redraw());
    assert!(!device.is_terminated());
    let mut rgba = vec![0u8; 512 * 320 * 4];
    device.render_to_rgba(&mut rgba);
    // Background colour 0 is white (#fff).
    assert_eq!(&rgba[0..4], &[0xff, 0xff, 0xff, 0xff]);
}

#[test]
fn pixel_port_draws_one_pixel_and_auto_advances() {
    let mut device = GuiDevice::new();
    let mut memory = Memory::new();
    device.output(0x26, 0x01, &mut memory); // auto x
    set_position(&mut device, &mut memory, 10, 20);
    device.output(0x2e, 0x01, &mut memory); // background colour 1
    assert_eq!(layer_at(&device, 10, 20), 1);
    assert_eq!(layer_at(&device, 11, 20), 0);
    assert_eq!(device.input(0x29), 11);
    assert_eq!(device.input(0x2b), 20);
    let mut rgba = vec![0u8; 512 * 320 * 4];
    device.render_to_rgba(&mut rgba);
    let index = (20 * 512 + 10) * 4;
    // Colour 1 is black (#000).
    assert_eq!(&rgba[index..index + 4], &[0x00, 0x00, 0x00, 0xff]);
}

#[test]
fn pixel_port_fills_to_the_corner() {
    let mut device = GuiDevice::new();
    let mut memory = Memory::new();
    set_position(&mut device, &mut memory, 508, 316);
    device.output(0x2e, 0x82, &mut memory); // fill with colour 2 to the bottom right
    assert_eq!(layer_at(&device, 508, 316), 2);
    assert_eq!(layer_at(&device, 511, 319), 2);
    assert_eq!(layer_at(&device, 507, 319), 0);
    assert_eq!(layer_at(&device, 511, 315), 0);
}

#[test]
fn off_screen_pixels_are_ignored() {
    let mut device = GuiDevice::new();
    let mut memory = Memory::new();
    device.clear_needs_redraw();
    set_position(&mut device, &mut memory, 600, 0);
    device.output(0x2e, 0x01, &mut memory);
    assert!(!device.needs_redraw());
}

#[test]
fn sprite_port_draws_a_tile_from_memory() {
    let mut device = GuiDevice::new();
    let mut memory = Memory::new();
    // A tile whose first row is all set and the rest clear.
    memory.write_u8_at(0x0300, 0xff);
    device.output(0x2c, 0x03, &mut memory);
    device.output(0x2d, 0x00, &mut memory);
    set_position(&mut device, &mut memory, 0, 0);
    device.output(0x2f, 0x01, &mut memory); // one plane, background, blend 1
    for x in 0..8 {
        assert_eq!(layer_at(&device, x, 0), 1);
        assert_eq!(layer_at(&device, x, 1), 0);
    }
    assert_eq!(layer_at(&device, 8, 0), 0);
}

#[test]
fn sprite_auto_length_repeats_the_tile() {
    let mut device = GuiDevice::new();
    let mut memory = Memory::new();
    memory.write_u8_at(0x0300, 0x80);
    device.output(0x2c, 0x03, &mut memory);
    device.output(0x2d, 0x00, &mut memory);
    set_position(&mut device, &mut memory, 0, 0);
    device.output(0x26, 0x11, &mut memory); // auto x, two sprites
    device.output(0x2f, 0x01, &mut memory);
    // auto x moves each further sprite down by dy (0 here) and the position across by 8.
    assert_eq!(layer_at(&device, 0, 0), 1);
    assert_eq!(device.input(0x29), 8);
    assert_eq!(device.input(0x2d), 0x00);
}

#[test]
fn resizing_the_screen() {
    let mut device = GuiDevice::new();
    let mut memory = Memory::new();
    device.clear_size_changed();
    device.output(0x22, 0x00, &mut memory);
    device.output(0x23, 0x40, &mut memory);
    assert_eq!(device.width(), 64);
    assert!(device.size_changed());
    device.output(0x24, 0x00, &mut memory);
    device.output(0x25, 0x02, &mut memory);
    assert_eq!(device.height(), 8);
    assert_eq!(device.input(0x25), 8);
    let mut rgba = vec![0u8; 64 * 8 * 4];
    device.render_to_rgba(&mut rgba);
}

#[test]
fn palette_ports_change_the_colours() {
    let mut device = GuiDevice::new();
    let mut memory = Memory::new();
    device.output(0x08, 0x00, &mut memory);
    device.output(0x0a, 0x00, &mut memory);
    device.output(0x0c, 0x00, &mut memory);
    let mut rgba = vec![0u8; 512 * 320 * 4];
    device.render_to_rgba(&mut rgba);
    assert_eq!(&rgba[0..4], &[0x00, 0x00, 0x00, 0xff]);
    device.output(0x08, 0xa0, &mut memory);
    device.render_to_rgba(&mut rgba);
    assert_eq!(&rgba[0..4], &[0xaa, 0x00, 0x00, 0xff]);
}

#[test]
fn system_console_and_file_requests() {
    let mut device = GuiDevice::new();
    let mut memory = Memory::new();
    assert_eq!(device.output(0x18, b'x', &mut memory), GuiRequest::Stdout(b'x'));
    assert_eq!(device.output(0x19, b'y', &mut memory), GuiRequest::Stderr(b'y'));
    assert_eq!(device.output(0xa9, 0x00, &mut memory), GuiRequest::FileName(0));
    assert_eq!(device.output(0xbd, 0x00, &mut memory), GuiRequest::FileRead(1));
    assert_eq!(device.output(0x50, 0x01, &mut memory), GuiRequest::UnknownPort);
    assert_eq!(device.output(0x0f, 0x83, &mut memory), GuiRequest::Nothing);
    assert!(device.is_terminated());
    assert_eq!(device.exit_code(), 3);
}

#[test]
fn vectors_mouse_and_controller_ports() {
    let mut device = GuiDevice::new();
    let mut memory = Memory::new();
    device.output(0x20, 0x01, &mut memory);
    device.output(0x21, 0x23, &mut memory);
    assert_eq!(device.screen_vector(), 0x0123);
    device.output(0x80, 0x02, &mut memory);
    assert_eq!(device.controller_vector(), 0x0200);
    device.output(0x91, 0x10, &mut memory);
    assert_eq!(device.mouse_vector(), 0x0010);
    device.set_mouse_position(0x0102, 0x0304);
    assert_eq!(device.input(0x92), 0x01);
    assert_eq!(device.input(0x95), 0x04);
    device.set_mouse_button_down(0x01);
    device.set_mouse_button_down(0x04);
    assert_eq!(device.input(0x96), 0x05);
    device.set_mouse_button_up(0x01);
    assert_eq!(device.input(0x96), 0x04);
    device.set_mouse_scroll(-1, 2);
    assert_eq!(device.input(0x9a), 0xff);
    assert_eq!(device.input(0x9b), 0xff);
    assert_eq!(device.input(0x9d), 0x02);
    device.clear_mouse_scroll();
    assert_eq!(device.input(0x9b), 0x00);
    device.set_controller_buttons(0x81);
    device.set_controller_key(b'q');
    assert_eq!(device.input(0x82), 0x81);
    assert_eq!(device.input(0x83), b'q');
}

#[test]
fn datetime_and_file_ports() {
    let mut device = GuiDevice::new();
    assert!(GuiDevice::is_datetime_port(0xc0));
    assert!(GuiDevice::is_datetime_port(0xca));
    assert!(!GuiDevice::is_datetime_port(0xcb));
    device.set_datetime(2024, 1, 29, 13, 45, 30, 4, 59, false);
    assert_eq!(device.input(0xc0), 0x07);
    assert_eq!(device.input(0xc1), 0xe8);
    assert_eq!(device.input(0xc3), 29);
    assert_eq!(device.input(0xc9), 59);
    assert_eq!(device.input(0xca), 0);
    let mut memory = Memory::new();
    device.output(0xac, 0xff, &mut memory);
    device.output(0xad, 0xf0, &mut memory);
    device.output(0xaa, 0x01, &mut memory);
    device.output(0xab, 0x00, &mut memory);
    // Address 0xfff0 with a length of 0x100 is cut at the end of memory.
    assert_eq!(device.file_transfer(0, 0x0c), (0xfff0, 0x10));
    device.set_file_success(1, 0x0203);
    assert_eq!(device.port(0xb2), 0x02);
    assert_eq!(device.port(0xb3), 0x03);
}

#[test]
fn ram_strings_and_slices() {
    let mut memory = Memory::new();
    write_ram_slice(&mut memory, 0xfffe, b"abc\0");
    assert_eq!(memory.read_u8_at(0xfffe), b'a');
    assert_eq!(memory.read_u8_at(0x0000), b'c');
    assert_eq!(read_ram_string(&memory, 0xfffe), "abc");
    assert_eq!(read_ram_string(&memory, 0x0001), "");
}

#[test]
fn stride_is_padded() {
    assert_eq!(STRIDE, 528);
}

#[test]
fn file_stat_fields() {
    assert_eq!(format_stat(FileKind::File(0x1a), 4), b"001a".to_vec());
    assert_eq!(format_stat(FileKind::File(0x10000), 4), b"????".to_vec());
    assert_eq!(format_stat(FileKind::File(0xffff), 4), b"ffff".to_vec());
    assert_eq!(format_stat(FileKind::Missing, 4), b"!!!!".to_vec());
    assert_eq!(format_stat(FileKind::Directory, 2), b"--".to_vec());
    assert_eq!(format_stat(FileKind::File(0x1_2345_6789), 8), b"123456789".to_vec());
    assert_eq!(format_stat(FileKind::File(u64::MAX), 8), b"????????".to_vec());
    assert_eq!(format_stat(FileKind::File(5), 0), Vec::<u8>::new());
}

#[test]
fn directory_listing_lines_and_chunks() {
    let mut listing = Vec::new();
    push_listing_line(&mut listing, FileKind::Directory, b"sub");
    push_listing_line(&mut listing, FileKind::File(3), b"a.txt");
    assert_eq!(listing, b"----\tsub/\n0003\ta.txt\n".to_vec());
    assert_eq!(next_listing_chunk(b"abcdef", 4, 10), (b"ef".to_vec(), 6));
    assert_eq!(next_listing_chunk(b"abcdef", 0, 2), (b"ab".to_vec(), 2));
    assert_eq!(next_listing_chunk(b"abcdef", 7, 2), (Vec::new(), 7));
}

fn set_short(device: &mut GuiDevice, memory: &mut Memory, port: u8, value: u16) {
    device.output(port, (value >> 8) as u8, memory);
    device.output(port + 1, value as u8, memory);
}

fn success(device: &GuiDevice, base: u8) -> u16 {
    ((device.port(base + 2) as u16) << 8) | device.port(base + 3) as u16
}

#[test]
fn file_name_is_read_from_memory_and_resets_the_device() {
    let mut device = GuiDevice::new();
    let mut memory = Memory::new();
    write_ram_slice(&mut memory, 0x0300, b"notes.txt\0");
    set_short(&mut device, &mut memory, 0xa8, 0x0300);
    let mut file = UxnFile::new();
    file.state = FileMode::FileRead;
    file.name(&mut device, 0, &memory);
    assert_eq!(file.filepath, "notes.txt");
    assert!(matches!(file.state, FileMode::Idle));
    assert_eq!(success(&device, 0xa0), 0);
}

#[test]
fn reading_without_a_path_reports_nothing() {
    let mut device = GuiDevice::new();
    let mut memory = Memory::new();
    set_short(&mut device, &mut memory, 0xaa, 0x0010);
    device.set_file_success(0, 7);
    let mut file = UxnFile::new();
    let action = file.begin_read(&mut device, 0, &mut memory);
    assert!(matches!(action, ReadAction::Done));
    assert_eq!(success(&device, 0xa0), 0);
}

#[test]
fn a_directory_listing_is_read_piece_by_piece() {
    let mut device = GuiDevice::new();
    let mut memory = Memory::new();
    set_short(&mut device, &mut memory, 0xba, 0x0004);
    set_short(&mut device, &mut memory, 0xbc, 0x0200);
    let mut file = UxnFile::new();
    file.filepath = "dir".to_string();
    assert!(matches!(file.begin_read(&mut device, 1, &mut memory), ReadAction::Open));
    let action = file.opened_for_read(&mut device, 1, &mut memory, OpenedPath::Directory(b"abcdef".to_vec()));
    assert!(matches!(action, ReadAction::Done));
    assert_eq!(success(&device, 0xb0), 4);
    assert_eq!((0..4).map(|i| memory.read_u8_at(0x0200 + i)).collect::<Vec<u8>>(), b"abcd".to_vec());
    assert!(matches!(file.begin_read(&mut device, 1, &mut memory), ReadAction::Done));
    assert_eq!(success(&device, 0xb0), 2);
    assert_eq!((0..2).map(|i| memory.read_u8_at(0x0200 + i)).collect::<Vec<u8>>(), b"ef".to_vec());
    assert!(matches!(file.begin_read(&mut device, 1, &mut memory), ReadAction::Done));
    assert_eq!(success(&device, 0xb0), 0);
    assert!(matches!(file.state, FileMode::Idle));
}

#[test]
fn a_file_read_delivers_what_the_host_read() {
    let mut device = GuiDevice::new();
    let mut memory = Memory::new();
    set_short(&mut device, &mut memory, 0xaa, 0x0100);
    set_short(&mut device, &mut memory, 0xac, 0xfffe);
    let mut file = UxnFile::new();
    file.filepath = "data.bin".to_string();
    let action = file.opened_for_read(&mut device, 0, &mut memory, OpenedPath::File);
    assert!(matches!(action, ReadAction::ReadFile(2)));
    file.finish_read(&mut device, 0, &mut memory, Some(&[7, 9]));
    assert_eq!(success(&device, 0xa0), 2);
    assert_eq!(memory.read_u8_at(0xfffe), 7);
    assert_eq!(memory.read_u8_at(0xffff), 9);
    assert!(matches!(file.state, FileMode::FileRead));
    file.finish_read(&mut device, 0, &mut memory, None);
    assert_eq!(success(&device, 0xa0), 0);
    assert!(matches!(file.state, FileMode::Idle));
    assert!(matches!(file.opened_for_read(&mut device, 0, &mut memory, OpenedPath::Failed), ReadAction::Done));
}

#[test]
fn writing_opens_then_sends_the_bytes_in_memory() {
    let mut device = GuiDevice::new();
    let mut memory = Memory::new();
    write_ram_slice(&mut memory, 0x0400, &[1, 2, 3]);
    set_short(&mut device, &mut memory, 0xaa, 0x0003);
    set_short(&mut device, &mut memory, 0xae, 0x0400);
    device.output(0xa7, 0x01, &mut memory);
    let mut file = UxnFile::new();
    file.filepath = "out.bin".to_string();
    file.state = FileMode::FileRead;
    let action = file.begin_write(&mut device, 0, &memory);
    assert!(matches!(action, WriteAction::Open { append: true }));
    assert!(matches!(file.state, FileMode::Idle));
    match file.opened_for_write(&mut device, 0, &memory, true) {
        WriteAction::Write(bytes) => assert_eq!(bytes, vec![1, 2, 3]),
        _ => panic!("expected the bytes to write"),
    }
    UxnFile::finish_write(&mut device, 0, true);
    assert_eq!(success(&device, 0xa0), 3);
    assert!(matches!(file.begin_write(&mut device, 0, &memory), WriteAction::Write(_)));
    UxnFile::finish_write(&mut device, 0, false);
    assert_eq!(success(&device, 0xa0), 0);
    file.filepath = "new/".to_string();
    assert!(matches!(file.begin_write(&mut device, 0, &memory), WriteAction::CreateDirectory));
    UxnFile::report_outcome(&mut device, 0, true);
    assert_eq!(success(&device, 0xa0), 1);
}

#[test]
fn stat_writes_the_size_and_delete_asks_for_a_path() {
    let mut device = GuiDevice::new();
    let mut memory = Memory::new();
    set_short(&mut device, &mut memory, 0xaa, 0x0004);
    set_short(&mut device, &mut memory, 0xa4, 0x0500);
    let mut file = UxnFile::new();
    file.stat(&mut device, 0, &mut memory, FileKind::File(0x1f));
    assert_eq!(success(&device, 0xa0), 0);
    file.filepath = "a".to_string();
    file.stat(&mut device, 0, &mut memory, FileKind::File(0x1f));
    assert_eq!(success(&device, 0xa0), 4);
    assert_eq!((0..4).map(|i| memory.read_u8_at(0x0500 + i)).collect::<Vec<u8>>(), b"001f".to_vec());
    assert!(file.begin_delete(&mut device, 0));
    file.filepath.clear();
    assert!(!file.begin_delete(&mut device, 0));
    assert_eq!(success(&device, 0xa0), 0);
}

fn quiet_frame(controller_vector: u16) -> FrameInput {
    FrameInput {
        controller_vector,
        escape_pressed: false,
        held: HeldKeys { control: false, alt: false, shift: false, home: false, up: false, down: false, left: false, right: false },
        typed: Vec::new(),
        backspace_pressed: false,
        tab_pressed: false,
        enter_pressed: false,
        mouse: (10, 20),
        last_mouse: (10, 20),
        pressed: (false, false, false),
        released: (false, false, false),
        wheel: (0, 0),
    }
}

#[test]
fn escape_without_a_controller_vector_quits() {
    let mut input = quiet_frame(0);
    input.escape_pressed = true;
    assert_eq!(frame_events(&input), vec![FrameEvent::Quit]);
    input.controller_vector = 0x0200;
    assert_eq!(frame_events(&input)[0], FrameEvent::ControllerKey(0x1b));
}

#[test]
fn frame_events_follow_keys_mouse_and_wheel() {
    let mut input = quiet_frame(0x0300);
    input.held.control = true;
    input.held.right = true;
    input.typed = vec![0x61, 0x1b, 0x263a, 0x62];
    input.enter_pressed = true;
    input.mouse = (11, 20);
    input.pressed.2 = true;
    input.released.0 = true;
    input.wheel = (1, 1);
    assert_eq!(
        frame_events(&input),
        vec![
            FrameEvent::Buttons(0x81),
            FrameEvent::ControllerKey(0x61),
            FrameEvent::ControllerKey(0x62),
            FrameEvent::ControllerKey(0x0a),
            FrameEvent::MouseMove(11, 20),
            FrameEvent::MouseUp(0x01),
            FrameEvent::MouseDown(0x04),
            FrameEvent::Scroll(1, -1),
            FrameEvent::RunMouseVector,
            FrameEvent::ClearScroll,
            FrameEvent::RunScreenVector,
        ]
    );
    let quiet = quiet_frame(0);
    assert_eq!(frame_events(&quiet), vec![FrameEvent::Buttons(0), FrameEvent::RunScreenVector]);
}
