//! Typed x86 I/O ports.
//!
//! A port only names a number; constructing one touches no hardware. The
//! device drivers of the library do not perform port I/O themselves: they
//! compute the sequence of byte writes that a device needs and return it, as a
//! list of [`PortWrite`]s, to the code that owns the hardware.
use core::marker::PhantomData;
use vstd::prelude::*;

verus! {

/// A typed I/O port: `T` is the width of the values read and written there.
pub struct Port<T> {
    pub number: u16,
    pub value_type: PhantomData<T>,
}

impl<T> Port<T> {
    /// A port with the given number.
    pub fn new(number: u16) -> (r: Self)
        ensures
            r.number == number,
    {
        Port { number, value_type: PhantomData }
    }
}

/// One byte written to an I/O port.
#[derive(Clone, Copy, PartialEq, Eq, Debug, Structural)]
pub struct PortWrite {
    pub port: u16,
    pub value: u8,
}

/// The write of `value` to `port`.
pub open spec fn port_write(port: u16, value: u8) -> PortWrite {
    PortWrite { port, value }
}

} // verus!
