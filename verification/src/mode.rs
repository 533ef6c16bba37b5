//! The display-effect modes of the sign and their 4-bit wire codes.
//!
//! On the wire a slot's mode and scroll speed share one byte:
//! the speed occupies the high nibble and the mode code the low nibble.

use vstd::prelude::*;

verus! {

/// The closed set of display effects the sign supports. Each mode has a
/// fixed 4-bit wire code in `[0, 8]`, given by [`Mode::code_spec`].
#[derive(Clone, Copy, Debug, PartialEq, Eq, Structural)]
pub enum Mode {
    ScrollLeft,
    ScrollRight,
    ScrollUp,
    ScrollDown,
    Fixed,
    Animation,
    Snowflake,
    Picture,
    Laser,
}

impl Mode {
    /// The stable numeric wire code of this mode.
    pub open spec fn code_spec(self) -> u8 {
        match self {
            Mode::ScrollLeft => 0,
            Mode::ScrollRight => 1,
            Mode::ScrollUp => 2,
            Mode::ScrollDown => 3,
            Mode::Fixed => 4,
            Mode::Animation => 5,
            Mode::Snowflake => 6,
            Mode::Picture => 7,
            Mode::Laser => 8,
        }
    }

    /// Returns this mode's wire code.
    pub fn code(self) -> (c: u8)
        ensures
            c == self.code_spec(),
            c <= 8,
    {
        match self {
            Mode::ScrollLeft => 0,
            Mode::ScrollRight => 1,
            Mode::ScrollUp => 2,
            Mode::ScrollDown => 3,
            Mode::Fixed => 4,
            Mode::Animation => 5,
            Mode::Snowflake => 6,
            Mode::Picture => 7,
            Mode::Laser => 8,
        }
    }

    /// Returns the mode with the given wire code, or `None` when the code
    /// lies outside the defined range `[0, 8]`.
    pub fn from_code(c: u8) -> (r: Option<Mode>)
        ensures
            match r {
                Some(m) => m.code_spec() == c,
                None => c > 8,
            },
            c <= 8 ==> r is Some,
    {
        match c {
            0 => Some(Mode::ScrollLeft),
            1 => Some(Mode::ScrollRight),
            2 => Some(Mode::ScrollUp),
            3 => Some(Mode::ScrollDown),
            4 => Some(Mode::Fixed),
            5 => Some(Mode::Animation),
            6 => Some(Mode::Snowflake),
            7 => Some(Mode::Picture),
            8 => Some(Mode::Laser),
            _ => None,
        }
    }
}

/// Two distinct modes never share a wire code.
pub proof fn lemma_mode_code_injective(a: Mode, b: Mode)
    requires
        a.code_spec() == b.code_spec(),
    ensures
        a == b,
{
}

/// The byte that carries a slot's speed and mode: speed in the high
/// nibble, mode code in the low nibble.
pub open spec fn packed_mode_spec(speed: u8, m: Mode) -> u8 {
    (speed << 4) | m.code_spec()
}

/// Packs a speed in `[0, 15]` and a mode into their shared wire byte.
pub fn pack_mode(speed: u8, m: Mode) -> (b: u8)
    requires
        speed <= 15,
    ensures
        b == packed_mode_spec(speed, m),
{
    (speed << 4u8) | m.code()
}

/// Splits a packed mode byte back into its speed (high nibble) and mode
/// (low nibble); `None` exactly when the low nibble is not a defined code.
pub fn unpack_mode(b: u8) -> (r: Option<(u8, Mode)>)
    ensures
        match r {
            Some(p) => p.0 == b >> 4 && p.0 <= 15 && p.1.code_spec() == b & 0x0f,
            None => (b & 0x0f) > 8,
        },
        (b & 0x0f) <= 8 ==> r is Some,
{
    let speed = b >> 4u8;
    proof {
        assert(b >> 4 <= 15) by (bit_vector);
    }
    match Mode::from_code(b & 0x0fu8) {
        Some(m) => Some((speed, m)),
        None => None,
    }
}

/// Packing a speed in `[0, 15]` with any defined mode and unpacking the
/// resulting byte recovers exactly the original speed and mode code.
pub proof fn lemma_mode_pack_round_trip(speed: u8, m: Mode)
    requires
        speed <= 15,
    ensures
        packed_mode_spec(speed, m) >> 4 == speed,
        packed_mode_spec(speed, m) & 0x0f == m.code_spec(),
{
    let c = m.code_spec();
    assert(c <= 8);
    assert(((speed << 4) | c) >> 4 == speed) by (bit_vector)
        requires
            speed <= 15u8,
            c <= 8u8,
    ;
    assert(((speed << 4) | c) & 0x0f == c) by (bit_vector)
        requires
            speed <= 15u8,
            c <= 8u8,
    ;
}

} // verus!
