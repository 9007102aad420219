//! What the window runner does with one frame of input: the decisions, as a list of events
//! that the host carries out in order on the machine and its screen device.
use vstd::prelude::*;

verus! {

/// One thing the host does for a frame.
#[derive(Debug, Clone, Copy, PartialEq, Eq, Structural)]
pub enum FrameEvent {
    /// Close the window.
    Quit,
    /// Put the key on the controller's key port and run the controller vector.
    ControllerKey(u8),
    /// Put the held buttons on the controller's button port.
    Buttons(u8),
    /// Put the pointer at this position on the mouse ports.
    MouseMove(u16, u16),
    /// A mouse button went down.
    MouseDown(u8),
    /// A mouse button went up.
    MouseUp(u8),
    /// Put this horizontal and vertical scroll on the mouse ports.
    Scroll(i16, i16),
    /// Run the mouse vector.
    RunMouseVector,
    /// Clear the scroll ports.
    ClearScroll,
    /// Run the screen vector.
    RunScreenVector,
}

/// Which keys are held down for the controller's buttons.
#[derive(Debug, Clone, Copy, PartialEq, Eq, Structural)]
pub struct HeldKeys {
    pub control: bool,
    pub alt: bool,
    pub shift: bool,
    pub home: bool,
    pub up: bool,
    pub down: bool,
    pub left: bool,
    pub right: bool,
}

/// One frame of input, as the host read it.
#[derive(Debug)]
pub struct FrameInput {
    /// The controller vector when the frame began.
    pub controller_vector: u16,
    pub escape_pressed: bool,
    pub held: HeldKeys,
    /// The characters typed, by their code points.
    pub typed: Vec<u32>,
    pub backspace_pressed: bool,
    pub tab_pressed: bool,
    pub enter_pressed: bool,
    /// The pointer on the screen device, and where it was at the last frame.
    pub mouse: (u16, u16),
    pub last_mouse: (u16, u16),
    /// Left, middle and right buttons: pressed and released in this frame.
    pub pressed: (bool, bool, bool),
    pub released: (bool, bool, bool),
    /// The signs (-1, 0 or 1) of the wheel's horizontal and vertical movement.
    pub wheel: (i8, i8),
}

/// The controller's button byte: Ctrl, Alt, Shift, Home, Up, Down, Left, Right from bit 0 up.
pub open spec fn button_bits(held: HeldKeys) -> u8 {
    (if held.control { 0x01u8 } else { 0 }) | (if held.alt { 0x02u8 } else { 0 }) | (if held.shift { 0x04u8 } else { 0 })
        | (if held.home { 0x08u8 } else { 0 }) | (if held.up { 0x10u8 } else { 0 }) | (if held.down { 0x20u8 } else { 0 })
        | (if held.left { 0x40u8 } else { 0 }) | (if held.right { 0x80u8 } else { 0 })
}

/// The key events of the typed characters: those of one byte that are not Escape, when the
/// controller has a vector.
pub open spec fn typed_events(typed: Seq<u32>, controller_vector: u16) -> Seq<FrameEvent>
    decreases typed.len(),
{
    if typed.len() == 0 {
        seq![]
    } else {
        let earlier = typed_events(typed.drop_last(), controller_vector);
        let code = typed.last();
        if code <= 0xff && code != 0x1b && controller_vector != 0 {
            earlier.push(FrameEvent::ControllerKey(code as u8))
        } else {
            earlier
        }
    }
}

/// `event` when `happens`, else nothing.
#[verifier::opaque]
pub open spec fn when(happens: bool, event: FrameEvent) -> Seq<FrameEvent> {
    if happens { seq![event] } else { seq![] }
}

/// The event of one mouse button with mask `mask`: down when pressed, else up when released.
#[verifier::opaque]
pub open spec fn button_events(pressed: bool, released: bool, mask: u8) -> Seq<FrameEvent> {
    if pressed { seq![FrameEvent::MouseDown(mask)] } else if released { seq![FrameEvent::MouseUp(mask)] } else { seq![] }
}

/// The events of a frame, in order: Escape runs the controller with key 0x1b, or closes the
/// window when the controller has no vector; then the held buttons; the typed characters;
/// Backspace, Tab and Enter as keys 0x08, 0x09 and 0x0a; the pointer when it moved; the mouse
/// buttons (masks 1, 2 and 4); the wheel, its vertical sign turned over; the mouse vector when
/// anything of the mouse changed, and the scroll cleared after a wheel movement; and the screen
/// vector.
pub open spec fn frame_events_spec(input: FrameInput) -> Seq<FrameEvent> {
    let cv = input.controller_vector;
    let moved = input.mouse != input.last_mouse;
    let button_changed = input.pressed.0 || input.released.0 || input.pressed.1 || input.released.1 || input.pressed.2
        || input.released.2;
    let wheel_moved = input.wheel.0 != 0 || input.wheel.1 != 0;
    if input.escape_pressed && cv == 0 {
        seq![FrameEvent::Quit]
    } else {
        when(input.escape_pressed, FrameEvent::ControllerKey(0x1b))
            + seq![FrameEvent::Buttons(button_bits(input.held))]
            + typed_events(input.typed@, cv)
            + when(input.backspace_pressed && cv != 0, FrameEvent::ControllerKey(0x08))
            + when(input.tab_pressed && cv != 0, FrameEvent::ControllerKey(0x09))
            + when(input.enter_pressed && cv != 0, FrameEvent::ControllerKey(0x0a))
            + when(moved, FrameEvent::MouseMove(input.mouse.0, input.mouse.1))
            + button_events(input.pressed.0, input.released.0, 0x01)
            + button_events(input.pressed.1, input.released.1, 0x02)
            + button_events(input.pressed.2, input.released.2, 0x04)
            + when(wheel_moved, FrameEvent::Scroll(input.wheel.0 as i16, (-(input.wheel.1 as int)) as i16))
            + when(moved || button_changed || wheel_moved, FrameEvent::RunMouseVector)
            + when((moved || button_changed || wheel_moved) && wheel_moved, FrameEvent::ClearScroll)
            + seq![FrameEvent::RunScreenVector]
    }
}

fn push_when(events: &mut Vec<FrameEvent>, happens: bool, event: FrameEvent)
    ensures
        final(events)@ == old(events)@ + when(happens, event),
{
    reveal(when);
    if happens {
        events.push(event);
    } else {
        assert(old(events)@ + seq![] =~= old(events)@);
    }
}

fn push_one(events: &mut Vec<FrameEvent>, event: FrameEvent)
    ensures
        final(events)@ == old(events)@ + seq![event],
{
    events.push(event);
    assert(events@ =~= old(events)@ + seq![event]);
}

fn push_button(events: &mut Vec<FrameEvent>, pressed: bool, released: bool, mask: u8)
    ensures
        final(events)@ == old(events)@ + button_events(pressed, released, mask),
{
    reveal(button_events);
    if pressed {
        events.push(FrameEvent::MouseDown(mask));
    } else if released {
        events.push(FrameEvent::MouseUp(mask));
    } else {
        assert(old(events)@ + seq![] =~= old(events)@);
    }
}

/// The controller's button byte for the held keys.
fn button_byte(held: HeldKeys) -> (bits: u8)
    ensures
        bits == button_bits(held),
{
    (if held.control { 0x01u8 } else { 0 }) | (if held.alt { 0x02u8 } else { 0 }) | (if held.shift { 0x04u8 } else { 0 })
        | (if held.home { 0x08u8 } else { 0 }) | (if held.up { 0x10u8 } else { 0 }) | (if held.down { 0x20u8 } else { 0 })
        | (if held.left { 0x40u8 } else { 0 }) | (if held.right { 0x80u8 } else { 0 })
}

/// Adds the key events of the typed characters.
fn push_typed(events: &mut Vec<FrameEvent>, typed: &Vec<u32>, cv: u16)
    ensures
        final(events)@ == old(events)@ + typed_events(typed@, cv),
{
    let ghost start = events@;
    let mut index: usize = 0;
    assert(start + typed_events(typed@.take(0), cv) =~= start);
    while index < typed.len()
        invariant
            index <= typed@.len(),
            events@ == start + typed_events(typed@.take(index as int), cv),
            start == old(events)@,
        decreases typed@.len() - index,
    {
        let code = typed[index];
        assert(typed@.take(index + 1).drop_last() =~= typed@.take(index as int));
        if code <= 0xff && code != 0x1b && cv != 0 {
            events.push(FrameEvent::ControllerKey(code as u8));
        }
        index += 1;
        assert(events@ =~= start + typed_events(typed@.take(index as int), cv));
    }
    assert(typed@.take(index as int) =~= typed@);
}

/// The events of one frame of input.
#[verifier::rlimit(40)]
pub fn frame_events(input: &FrameInput) -> (events: Vec<FrameEvent>)
    ensures
        events@ == frame_events_spec(*input),
{
    let cv = input.controller_vector;
    let mut events: Vec<FrameEvent> = Vec::new();
    if input.escape_pressed && cv == 0 {
        events.push(FrameEvent::Quit);
        return events;
    }
    push_when(&mut events, input.escape_pressed, FrameEvent::ControllerKey(0x1b));
    assert(Seq::<FrameEvent>::empty() + when(input.escape_pressed, FrameEvent::ControllerKey(0x1b))
        =~= when(input.escape_pressed, FrameEvent::ControllerKey(0x1b)));
    push_one(&mut events, FrameEvent::Buttons(button_byte(input.held)));
    push_typed(&mut events, &input.typed, cv);
    push_when(&mut events, input.backspace_pressed && cv != 0, FrameEvent::ControllerKey(0x08));
    push_when(&mut events, input.tab_pressed && cv != 0, FrameEvent::ControllerKey(0x09));
    push_when(&mut events, input.enter_pressed && cv != 0, FrameEvent::ControllerKey(0x0a));
    let moved = input.mouse.0 != input.last_mouse.0 || input.mouse.1 != input.last_mouse.1;
    push_when(&mut events, moved, FrameEvent::MouseMove(input.mouse.0, input.mouse.1));
    push_button(&mut events, input.pressed.0, input.released.0, 0x01);
    push_button(&mut events, input.pressed.1, input.released.1, 0x02);
    push_button(&mut events, input.pressed.2, input.released.2, 0x04);
    let button_changed = input.pressed.0 || input.released.0 || input.pressed.1 || input.released.1 || input.pressed.2
        || input.released.2;
    let wheel_moved = input.wheel.0 != 0 || input.wheel.1 != 0;
    push_when(&mut events, wheel_moved, FrameEvent::Scroll(input.wheel.0 as i16, -(input.wheel.1 as i16)));
    let mouse_changed = moved || button_changed || wheel_moved;
    push_when(&mut events, mouse_changed, FrameEvent::RunMouseVector);
    push_when(&mut events, mouse_changed && wheel_moved, FrameEvent::ClearScroll);
    push_one(&mut events, FrameEvent::RunScreenVector);
    events
}

} // verus!
