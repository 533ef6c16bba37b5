//! The sign's wire format: aggregation of up to eight display slots into
//! one byte stream.
//!
//! Layout, with big-endian multi-byte integers:
//! 6 magic bytes `w a n g 0 0`; one flash bitmask byte (bit `i` set iff
//! slot `i` flashes); one marquee bitmask byte; 8 mode bytes (speed in the
//! high nibble, mode code in the low nibble, 0 for unused slots); 16 bytes
//! of size table (8 big-endian `u16` row-group counts, 0 for unused
//! slots); 32 reserved zero bytes; the slots' pixel data in slot order;
//! and trailing zero padding that brings the pixel region up to a
//! multiple of 16 bytes, so transmission in 16-byte chunks ends exactly
//! on a chunk boundary.

use vstd::prelude::*;

use crate::mode::packed_mode_spec;
use crate::unit::Bitmap;

verus! {

/// The number of bytes before the pixel payload: magic, the two bitmask
/// bytes, the mode bytes, the size table and the reserved region.
pub const HEADER_LEN: usize = 64;

/// The reasons encoding can be refused; both are contract violations of
/// the caller and are reported before any byte is produced.
#[derive(Clone, Copy, Debug, PartialEq, Eq, Structural)]
pub enum EncodeError {
    /// More than 8 slots were supplied; slot indices are bit positions in
    /// one-byte bitmasks and must stay below 8.
    TooManyUnits,
    /// A slot's row-group count does not fit the 16-bit size-table field.
    RowGroupOverflow,
}

/// A sequence of `n` zero bytes.
pub open spec fn zeros(n: int) -> Seq<u8> {
    Seq::new(n as nat, |i: int| 0u8)
}

/// The 6 magic bytes that open every message: `w a n g 0 0`.
pub open spec fn magic() -> Seq<u8> {
    seq![0x77u8, 0x61u8, 0x6eu8, 0x67u8, 0u8, 0u8]
}

/// The contribution of one slot to a flag bitmask: bit `i` when the flag
/// is set, nothing otherwise.
pub open spec fn flag_bit(flag: bool, i: int) -> u8 {
    if flag {
        1u8 << (i as u8)
    } else {
        0u8
    }
}

/// The flash bitmask byte: the bitwise OR of `1 << i` over all slot
/// indices `i` whose unit flashes.
pub open spec fn flash_mask(units: Seq<Bitmap>) -> u8
    decreases units.len(),
{
    if units.len() == 0 {
        0u8
    } else {
        flash_mask(units.drop_last()) | flag_bit(units.last().flash, units.len() - 1)
    }
}

/// The marquee bitmask byte: the bitwise OR of `1 << i` over all slot
/// indices `i` whose unit has the marquee flag.
pub open spec fn marquee_mask(units: Seq<Bitmap>) -> u8
    decreases units.len(),
{
    if units.len() == 0 {
        0u8
    } else {
        marquee_mask(units.drop_last()) | flag_bit(units.last().marquee, units.len() - 1)
    }
}

/// Mode byte `i`: the slot's packed speed and mode, or 0 for an unused
/// slot.
pub open spec fn mode_entry(units: Seq<Bitmap>, i: int) -> u8 {
    if 0 <= i < units.len() {
        packed_mode_spec(units[i].speed, units[i].mode)
    } else {
        0u8
    }
}

/// The 8 mode bytes.
pub open spec fn mode_table(units: Seq<Bitmap>) -> Seq<u8> {
    Seq::new(8, |i: int| mode_entry(units, i))
}

/// Size-table entry `i`: the slot's row-group count (`data.len() / 11`),
/// or 0 for an unused slot.
pub open spec fn size_entry(units: Seq<Bitmap>, i: int) -> u16 {
    if 0 <= i < units.len() {
        units[i].row_groups() as u16
    } else {
        0u16
    }
}

/// The 16 size-table bytes: the 8 entries, each as a big-endian `u16`.
pub open spec fn size_table(units: Seq<Bitmap>) -> Seq<u8> {
    Seq::new(
        16,
        |i: int|
            if i % 2 == 0 {
                (size_entry(units, i / 2) >> 8) as u8
            } else {
                (size_entry(units, i / 2) & 0xff) as u8
            },
    )
}

/// The fixed 64-byte header: magic, flag bitmasks, mode bytes, size table
/// and the 32 reserved zero bytes.
pub open spec fn header(units: Seq<Bitmap>) -> Seq<u8> {
    magic() + seq![flash_mask(units), marquee_mask(units)] + mode_table(units) + size_table(units)
        + zeros(32)
}

/// The pixel payload: the slots' data, concatenated in slot order.
pub open spec fn payload(units: Seq<Bitmap>) -> Seq<u8>
    decreases units.len(),
{
    if units.len() == 0 {
        Seq::empty()
    } else {
        payload(units.drop_last()) + units.last().data@
    }
}

/// The trailing padding owed to a pixel payload of `p` bytes: the zero
/// count that brings `p` up to the next multiple of 16, and 0 when `p`
/// already is one.
pub open spec fn pad_len(p: int) -> int {
    (16 - p % 16) % 16
}

/// The whole encoded message: header, payload, trailing padding.
pub open spec fn encoded(units: Seq<Bitmap>) -> Seq<u8> {
    header(units) + payload(units) + zeros(pad_len(payload(units).len() as int))
}

/// Whether every unit satisfies the slot invariants of [`Bitmap::wf`].
pub open spec fn units_wf(units: Seq<Bitmap>) -> bool {
    forall|i: int| 0 <= i < units.len() ==> units[i].wf()
}

/// Whether a unit's row-group count fits the 16-bit size-table field.
pub open spec fn fits_size_field(b: Bitmap) -> bool {
    b.row_groups() <= 0xFFFF
}

/// Encoding is deterministic: the byte stream is a function of the slot
/// sequence alone, so equal slot sequences encode to identical bytes.
pub proof fn lemma_encode_deterministic(a: Seq<Bitmap>, b: Seq<Bitmap>)
    requires
        a == b,
    ensures
        encoded(a) == encoded(b),
{
}

/// Bit `j` of the flash bitmask is set exactly when slot `j` exists and
/// flashes: the mask is the OR of `1 << i` over the flashing slots.
pub proof fn lemma_flash_mask_bit(units: Seq<Bitmap>, j: int)
    requires
        units.len() <= 8,
        0 <= j < 8,
    ensures
        (flash_mask(units) >> (j as u8)) & 1 == (if j < units.len() && units[j].flash {
            1u8
        } else {
            0u8
        }),
    decreases units.len(),
{
    let jj = j as u8;
    if units.len() == 0 {
        assert((0u8 >> jj) & 1 == 0) by (bit_vector);
    } else {
        let prev = units.drop_last();
        let l = (units.len() - 1) as u8;
        let m = flash_mask(prev);
        lemma_flash_mask_bit(prev, j);
        if units.last().flash {
            assert(((m | (1u8 << l)) >> jj) & 1 == (if jj == l {
                1u8
            } else {
                (m >> jj) & 1
            })) by (bit_vector)
                requires
                    l < 8u8,
                    jj < 8u8,
            ;
        } else {
            assert(m | 0u8 == m) by (bit_vector);
        }
    }
}

/// Bit `j` of the marquee bitmask is set exactly when slot `j` exists and
/// has the marquee flag: the mask is the OR of `1 << i` over those slots.
pub proof fn lemma_marquee_mask_bit(units: Seq<Bitmap>, j: int)
    requires
        units.len() <= 8,
        0 <= j < 8,
    ensures
        (marquee_mask(units) >> (j as u8)) & 1 == (if j < units.len() && units[j].marquee {
            1u8
        } else {
            0u8
        }),
    decreases units.len(),
{
    let jj = j as u8;
    if units.len() == 0 {
        assert((0u8 >> jj) & 1 == 0) by (bit_vector);
    } else {
        let prev = units.drop_last();
        let l = (units.len() - 1) as u8;
        let m = marquee_mask(prev);
        lemma_marquee_mask_bit(prev, j);
        if units.last().marquee {
            assert(((m | (1u8 << l)) >> jj) & 1 == (if jj == l {
                1u8
            } else {
                (m >> jj) & 1
            })) by (bit_vector)
                requires
                    l < 8u8,
                    jj < 8u8,
            ;
        } else {
            assert(m | 0u8 == m) by (bit_vector);
        }
    }
}

/// Reading size-table entry `i` back as a big-endian 16-bit value yields
/// exactly the slot's row-group count (`data.len() / 11`), and 0 for an
/// unused slot.
pub proof fn lemma_size_table_entry(units: Seq<Bitmap>, i: int)
    requires
        0 <= i < 8,
    ensures
        (size_table(units)[2 * i] as int) * 256 + (size_table(units)[2 * i + 1] as int)
            == size_entry(units, i) as int,
        0 <= i < units.len() && fits_size_field(units[i]) ==> size_entry(units, i) as int
            == units[i].row_groups(),
{
    let e = size_entry(units, i);
    assert(size_table(units)[2 * i] == (e >> 8) as u8);
    assert(size_table(units)[2 * i + 1] == (e & 0xff) as u8);
    assert(((e >> 8) as u8 as int) * 256 + ((e & 0xff) as u8 as int) == e as int) by (bit_vector);
}

/// The pixel region — payload plus trailing padding — is always a whole
/// number of 16-byte chunks, and so is the entire message, the fixed
/// header being 64 bytes.
pub proof fn lemma_encoded_aligned(units: Seq<Bitmap>)
    ensures
        (payload(units).len() + pad_len(payload(units).len() as int)) % 16 == 0,
        encoded(units).len() == 64 + payload(units).len() + pad_len(payload(units).len() as int),
        encoded(units).len() % 16 == 0,
{
    let p = payload(units).len() as int;
    assert((p + (16 - p % 16) % 16) % 16 == 0) by (nonlinear_arith)
        requires
            p >= 0,
    ;
    let x = p + pad_len(p);
    assert((64 + x) % 16 == 0) by (nonlinear_arith)
        requires
            x >= 0,
            x % 16 == 0,
    ;
}

/// A message with no slots is the bare 64-byte header: all flag, mode and
/// size fields zero, empty payload, no trailing padding; 64 divides
/// evenly into four 16-byte chunks.
pub proof fn lemma_encoded_empty()
    ensures
        payload(Seq::<Bitmap>::empty()) == Seq::<u8>::empty(),
        pad_len(0) == 0,
        encoded(Seq::<Bitmap>::empty()).len() == 64,
        flash_mask(Seq::<Bitmap>::empty()) == 0,
        marquee_mask(Seq::<Bitmap>::empty()) == 0,
        forall|i: int| 0 <= i < 8 ==> mode_entry(Seq::<Bitmap>::empty(), i) == 0,
        forall|i: int| 0 <= i < 8 ==> size_entry(Seq::<Bitmap>::empty(), i) == 0,
{
    assert(encoded(Seq::<Bitmap>::empty()).len() == 64);
}

/// An ordered collection of up to 8 display slots, encoded as one message.
pub struct Data {
    /// The slots, in order; a slot's position is its index on the sign.
    pub bitmaps: Vec<Bitmap>,
}

impl Data {
    /// An empty message with no slots.
    pub fn new() -> (d: Data)
        ensures
            d.bitmaps@ == Seq::<Bitmap>::empty(),
    {
        Data { bitmaps: Vec::new() }
    }

    /// Appends one slot after the existing ones.
    pub fn push_bitmap(&mut self, bitmap: Bitmap)
        ensures
            final(self).bitmaps@ == old(self).bitmaps@.push(bitmap),
    {
        self.bitmaps.push(bitmap);
    }

    /// Encodes the slots into the sign's wire format.
    ///
    /// Succeeds exactly when at most 8 slots are present and every slot's
    /// row-group count fits the 16-bit size field; the result is then
    /// byte-for-byte the [`encoded`] form of the slots. Fails fast
    /// otherwise, producing no bytes.
    pub fn to_bytes(&self) -> (r: Result<Vec<u8>, EncodeError>)
        requires
            units_wf(self.bitmaps@),
        ensures
            match r {
                Ok(out) => self.bitmaps@.len() <= 8 && (forall|i: int|
                    0 <= i < self.bitmaps@.len() ==> fits_size_field(self.bitmaps@[i]))
                    && out@ == encoded(self.bitmaps@),
                Err(e) => match e {
                    EncodeError::TooManyUnits => self.bitmaps@.len() > 8,
                    EncodeError::RowGroupOverflow => self.bitmaps@.len() <= 8 && exists|i: int|
                        0 <= i < self.bitmaps@.len() && !fits_size_field(self.bitmaps@[i]),
                },
            },
    {
        let ghost units = self.bitmaps@;
        let n = self.bitmaps.len();
        if n > 8 {
            return Err(EncodeError::TooManyUnits);
        }
        let mut i: usize = 0;
        while i < n
            invariant
                i <= n,
                n == units.len(),
                n <= 8,
                units == self.bitmaps@,
                forall|k: int| 0 <= k < i ==> fits_size_field(units[k]),
            decreases n - i,
        {
            if self.bitmaps[i].data.len() / 11 > 0xFFFF {
                proof {
                    assert(!fits_size_field(units[i as int]));
                }
                return Err(EncodeError::RowGroupOverflow);
            }
            i += 1;
        }

        let mut out: Vec<u8> = Vec::new();
        out.push(0x77);
        out.push(0x61);
        out.push(0x6e);
        out.push(0x67);
        out.push(0);
        out.push(0);
        proof {
            assert(out@ =~= magic());
        }

        let mut flash: u8 = 0;
        let mut marquee: u8 = 0;
        let mut i: usize = 0;
        while i < n
            invariant
                i <= n,
                n == units.len(),
                n <= 8,
                units == self.bitmaps@,
                flash == flash_mask(units.take(i as int)),
                marquee == marquee_mask(units.take(i as int)),
            decreases n - i,
        {
            let ghost prev_flash = flash;
            let ghost prev_marquee = marquee;
            if self.bitmaps[i].flash {
                flash = flash | (1u8 << (i as u8));
            }
            if self.bitmaps[i].marquee {
                marquee = marquee | (1u8 << (i as u8));
            }
            proof {
                assert(units.take(i + 1).drop_last() =~= units.take(i as int));
                assert(units.take(i + 1).last() == units[i as int]);
                assert(prev_flash | 0u8 == prev_flash) by (bit_vector);
                assert(prev_marquee | 0u8 == prev_marquee) by (bit_vector);
            }
            i += 1;
        }
        proof {
            assert(units.take(n as int) =~= units);
        }
        out.push(flash);
        out.push(marquee);
        proof {
            assert(out@ =~= magic() + seq![flash_mask(units), marquee_mask(units)]);
        }

        let ghost pre_modes = out@;
        let mut i: usize = 0;
        while i < 8
            invariant
                i <= 8,
                n == units.len(),
                n <= 8,
                units == self.bitmaps@,
                units_wf(units),
                out@ == pre_modes + mode_table(units).take(i as int),
            decreases 8 - i,
        {
            let byte: u8 = if i < n {
                let b = &self.bitmaps[i];
                (b.speed << 4u8) | b.mode.code()
            } else {
                0u8
            };
            out.push(byte);
            proof {
                assert(mode_table(units).take(i + 1) =~= mode_table(units).take(i as int).push(
                    mode_entry(units, i as int),
                ));
            }
            i += 1;
        }
        proof {
            assert(mode_table(units).take(8) =~= mode_table(units));
        }

        let ghost pre_sizes = out@;
        let mut i: usize = 0;
        while i < 8
            invariant
                i <= 8,
                n == units.len(),
                n <= 8,
                units == self.bitmaps@,
                forall|k: int| 0 <= k < n ==> fits_size_field(units[k]),
                out@ == pre_sizes + size_table(units).take(2 * i as int),
            decreases 8 - i,
        {
            let entry: u16 = if i < n {
                let rg = self.bitmaps[i].data.len() / 11;
                proof {
                    assert(fits_size_field(units[i as int]));
                }
                rg as u16
            } else {
                0u16
            };
            out.push((entry >> 8u16) as u8);
            out.push((entry & 0xffu16) as u8);
            proof {
                assert(size_table(units)[2 * i as int] == (size_entry(units, i as int) >> 8) as u8);
                assert(size_table(units)[2 * i as int + 1] == (size_entry(units, i as int)
                    & 0xff) as u8);
                assert(size_table(units).take(2 * (i + 1)) =~= size_table(units).take(
                    2 * i as int,
                ).push((size_entry(units, i as int) >> 8) as u8).push(
                    (size_entry(units, i as int) & 0xff) as u8,
                ));
            }
            i += 1;
        }
        proof {
            assert(size_table(units).take(16) =~= size_table(units));
        }

        let ghost pre_reserved = out@;
        let mut i: usize = 0;
        while i < 32
            invariant
                i <= 32,
                out@ == pre_reserved + zeros(i as int),
            decreases 32 - i,
        {
            out.push(0);
            proof {
                assert(zeros(i + 1) =~= zeros(i as int).push(0u8));
            }
            i += 1;
        }
        proof {
            assert(out@ =~= header(units));
            assert(out@.len() == 64);
        }

        let ghost hdr = out@;
        let mut u: usize = 0;
        while u < n
            invariant
                u <= n,
                n == units.len(),
                units == self.bitmaps@,
                out@ == hdr + payload(units.take(u as int)),
            decreases n - u,
        {
            let d = &self.bitmaps[u].data;
            let ghost pre_unit = out@;
            let mut j: usize = 0;
            while j < d.len()
                invariant
                    j <= d@.len(),
                    0 <= u < self.bitmaps@.len(),
                    d == &self.bitmaps@[u as int].data,
                    out@ == pre_unit + d@.take(j as int),
                decreases d@.len() - j,
            {
                out.push(d[j]);
                proof {
                    assert(d@.take(j + 1) =~= d@.take(j as int).push(d@[j as int]));
                }
                j += 1;
            }
            proof {
                assert(d@.take(d@.len() as int) =~= d@);
                assert(units.take(u + 1).drop_last() =~= units.take(u as int));
                assert(units.take(u + 1).last() == units[u as int]);
                assert(out@ =~= hdr + payload(units.take(u + 1)));
            }
            u += 1;
        }
        proof {
            assert(units.take(n as int) =~= units);
        }

        let rem = out.len() % 16;
        let pad = if rem == 0 {
            0
        } else {
            16 - rem
        };
        proof {
            let p = payload(units).len() as int;
            assert(out@.len() == 64 + p);
            assert((64 + p) % 16 == p % 16) by (nonlinear_arith)
                requires
                    p >= 0,
            ;
            assert(pad == pad_len(p));
        }
        let ghost pre_pad = out@;
        let mut i: usize = 0;
        while i < pad
            invariant
                i <= pad,
                out@ == pre_pad + zeros(i as int),
            decreases pad - i,
        {
            out.push(0);
            proof {
                assert(zeros(i + 1) =~= zeros(i as int).push(0u8));
            }
            i += 1;
        }
        proof {
            assert(out@ =~= encoded(units));
        }
        Ok(out)
    }
}

} // verus!
