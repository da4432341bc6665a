//! Fixed-point convention shared by the whole crate.

use vstd::prelude::*;

verus! {

/// The fixed-point representation of `1.0`: two to the sixteenth.
pub const ONE: u32 = 65536;

/// Largest fixed-point value of a colour channel: `255.0`, that is `255 * ONE`.
pub const CHANNEL_LIMIT: u32 = 16711680;

} // verus!
