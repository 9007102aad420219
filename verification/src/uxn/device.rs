use vstd::prelude::*;
use super::memory::Memory;

verus! {

/// Defines the interface for devices attached to the UXN VM.
pub trait VmDevice {
    /// Reads a byte from the specified device port.
    fn input(&mut self, port: u8) -> u8;

    /// Writes a byte to the specified device port.
    fn output(&mut self, port: u8, value: u8, memory: &mut Memory);
}

/// A no-op device that ignores all output and returns 0 for all input.
#[derive(Debug, Default, Clone, Copy, PartialEq, Eq, Structural)]
pub struct NullDevice;

impl VmDevice for NullDevice {
    fn input(&mut self, port: u8) -> (byte: u8)
        ensures
            byte == 0,
    {
        0
    }

    fn output(&mut self, port: u8, value: u8, memory: &mut Memory)
        ensures
            final(memory)@ == old(memory)@,
    {
    }
}

/// A boxed device acts as the device in the box.
impl<D: VmDevice + ?Sized> VmDevice for Box<D> {
    /// Reads port `port` of the inner device: what that device's `input` returns, the inner
    /// device going from its state before to its state after.
    fn input(&mut self, port: u8) -> (byte: u8)
        ensures
            exists|inner: &mut D| &**old(self) == &*inner && &**final(self) == &*final(inner)
                && call_ensures(D::input, (inner, port), byte),
    {
        let inner: &mut D = &mut **self;
        let read = D::input;
        read(inner, port)
    }

    /// Writes `value` to port `port` of the inner device: what that device's `output` does to
    /// itself and to `memory`.
    fn output(&mut self, port: u8, value: u8, memory: &mut Memory)
        ensures
            exists|inner: &mut D, ram: &mut Memory| {
                &&& &**old(self) == &*inner && &**final(self) == &*final(inner)
                &&& *old(memory) == *ram && *final(memory) == *final(ram)
                &&& call_ensures(D::output, (inner, port, value, ram), ())
            },
    {
        let inner: &mut D = &mut **self;
        let write = D::output;
        write(inner, port, value, memory);
    }
}

/// A borrowed device acts as the device it borrows.
impl<D: VmDevice + ?Sized> VmDevice for &mut D {
    /// Reads port `port` of the inner device: what that device's `input` returns, the inner
    /// device going from its state before to its state after.
    fn input(&mut self, port: u8) -> (byte: u8)
        ensures
            exists|inner: &mut D| &**old(self) == &*inner && &**final(self) == &*final(inner)
                && call_ensures(D::input, (inner, port), byte),
    {
        let inner: &mut D = &mut **self;
        let read = D::input;
        read(inner, port)
    }

    /// Writes `value` to port `port` of the inner device: what that device's `output` does to
    /// itself and to `memory`.
    fn output(&mut self, port: u8, value: u8, memory: &mut Memory)
        ensures
            exists|inner: &mut D, ram: &mut Memory| {
                &&& &**old(self) == &*inner && &**final(self) == &*final(inner)
                &&& *old(memory) == *ram && *final(memory) == *final(ram)
                &&& call_ensures(D::output, (inner, port, value, ram), ())
            },
    {
        let inner: &mut D = &mut **self;
        let write = D::output;
        write(inner, port, value, memory);
    }
}

} // verus!
