//! Core logic of an 8x8 switch-matrix MIDI controller: matrix scanning with
//! debounce and diffing, USB-MIDI packet framing and parsing, reassembly of
//! multi-packet SysEx messages, and the device-identity inquiry response.
//!
//! Hardware access (GPIO, the USB endpoint, interrupt masking) stays outside;
//! the functions here work on the plain values those edges produce.
use vstd::prelude::*;

pub mod events;
pub mod matrix;
pub mod packet;
pub mod sysex;
pub mod dispatch;

verus! {

/// Error taxonomy for one tick of the controller loop.
///
/// Each tick's work returns a single outcome; an error aborts only that tick.
#[derive(Clone, Copy, Debug, PartialEq, Eq, Structural)]
pub enum MidiError {
    /// A GPIO pin read or write failed.
    HardwareIo,
    /// The USB transport failed hard (would-block is not surfaced here).
    Transport,
    /// A MIDI payload could not be parsed.
    ProtocolParse,
    /// A SysEx message exceeded the reassembly buffer capacity.
    BufferOverflow,
    /// The core was invoked before startup completed.
    NotInitialized,
}

/// Runs each of the given closures once, in order.
pub fn compose_loop<F>(fns: &[F]) where F: Fn()
    requires
        forall|i: int| 0 <= i < fns@.len() ==> #[trigger] call_requires(fns@[i], ()),
{
    let mut j: usize = 0;
    while j < fns.len()
        invariant
            j <= fns@.len(),
            forall|i: int| 0 <= i < fns@.len() ==> #[trigger] call_requires(fns@[i], ()),
        decreases fns@.len() - j,
    {
        (&fns[j])();
        j += 1;
    }
}

} // verus!
