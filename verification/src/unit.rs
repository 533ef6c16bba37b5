//! One display slot of the sign: effect flags, mode, speed and pixel data.

use vstd::prelude::*;

use crate::mode::Mode;
use crate::raster::Glyph;
use crate::raster::rasterize;
use crate::raster::rasterized;

verus! {

/// One addressable slot on the sign.
///
/// `data` holds the slot's pixel rows as a sequence of 11-byte row-groups,
/// as [`crate::raster::rasterize`] produces them. The encoder relies on the
/// slot being well formed in the sense of [`Bitmap::wf`]: the speed fits in
/// its 4-bit field and the data length is a whole number of row-groups.
#[derive(Clone, Debug)]
pub struct Bitmap {
    /// Whether the slot blinks.
    pub flash: bool,
    /// Whether the slot scrolls independently of its mode.
    pub marquee: bool,
    /// The slot's display effect.
    pub mode: Mode,
    /// Scroll/animation speed, a 4-bit value in `[0, 15]`.
    pub speed: u8,
    /// The slot's pixel rows, a multiple of 11 bytes.
    pub data: Vec<u8>,
}

impl Bitmap {
    /// The slot invariants the encoder relies on: the speed fits in its
    /// 4-bit field and the pixel data is a whole number of 11-byte
    /// row-groups.
    pub open spec fn wf(self) -> bool {
        &&& self.speed <= 15
        &&& self.data@.len() % 11 == 0
    }

    /// The number of 11-byte row-groups in this slot's pixel data.
    pub open spec fn row_groups(self) -> int {
        self.data@.len() as int / 11
    }

    /// A fresh, empty slot: no effects, mode `ScrollLeft`, speed 0, no
    /// pixel data.
    pub fn new() -> (b: Bitmap)
        ensures
            b.flash == false,
            b.marquee == false,
            b.mode == Mode::ScrollLeft,
            b.speed == 0,
            b.data@ == Seq::<u8>::empty(),
            b.wf(),
    {
        Bitmap { flash: false, marquee: false, mode: Mode::ScrollLeft, speed: 0, data: Vec::new() }
    }

    /// Replaces this slot's pixel data with the rasterization of the given
    /// glyphs: one vertically centered 11-byte cell per character, in
    /// order. The caller resolves each character of its text through the
    /// glyph table first. Flags, mode and speed are untouched.
    pub fn put_string(&mut self, glyphs: &Vec<Glyph>)
        ensures
            final(self).data@ == rasterized(glyphs@),
            final(self).data@.len() == 11 * glyphs@.len(),
            final(self).flash == old(self).flash,
            final(self).marquee == old(self).marquee,
            final(self).mode == old(self).mode,
            final(self).speed == old(self).speed,
            old(self).speed <= 15 ==> final(self).wf(),
    {
        self.data = rasterize(glyphs);
        proof {
            assert(self.data@.len() % 11 == 0);
        }
    }
}

} // verus!
