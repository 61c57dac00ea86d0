//! Construction-time configuration: the display scale factor the host
//! renders at, the ROM image, and the quirk flags that pin down the
//! historically ambiguous instruction behaviours. All of it is immutable
//! for the engine's lifetime.
use vstd::prelude::*;

verus! {

/// The historically ambiguous instruction behaviours, pinned down at
/// construction. Different original interpreters disagreed on each of
/// these; the engine branches on these flags, never on an undocumented
/// accident.
#[derive(Clone, Copy, PartialEq, Eq, Structural, Debug)]
pub struct Quirks {
    /// Shift instructions read their operand from Vy when set, from Vx
    /// (the default) when clear.
    pub shift_source_vy: bool,
    /// When an instruction writes both a result register and the VF flag,
    /// the flag is written after the result when set, before it (the
    /// default) when clear. Only observable when the result register is
    /// VF itself.
    pub flag_write_last: bool,
    /// Register dump and load advance the index register past the last
    /// transferred byte (the default, the standard rule) when set, and
    /// leave it unchanged when clear.
    pub increment_index_on_transfer: bool,
}

/// The documented default quirk choice: shifts read Vx, the VF flag is
/// written before the result, and dump/load advance the index register.
pub open spec fn spec_default_quirks() -> Quirks {
    Quirks { shift_source_vy: false, flag_write_last: false, increment_index_on_transfer: true }
}

impl Default for Quirks {
    fn default() -> (q: Quirks)
        ensures
            q == spec_default_quirks(),
    {
        Quirks { shift_source_vy: false, flag_write_last: false, increment_index_on_transfer: true }
    }
}

/// What the engine is built from: the host display's scale factor, the
/// path the ROM came from, the ROM image itself, and the quirk flags.
pub struct Chip8Options {
    pub scale_factor: u32,
    pub file: String,
    pub rom: Vec<u8>,
    pub quirks: Quirks,
}

impl Chip8Options {
    /// Options for a ROM already in memory, with the default quirks.
    pub fn new(scale_factor: u32, rom: Vec<u8>) -> (o: Chip8Options)
        ensures
            o.scale_factor == scale_factor,
            o.rom@ == rom@,
            o.quirks == spec_default_quirks(),
            o.file@.len() == 0,
    {
        Chip8Options { scale_factor, file: String::new(), rom, quirks: Quirks::default() }
    }
}

} // verus!
