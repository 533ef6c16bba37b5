//! Rasterization of glyphs into the sign's 11-row character cells.
//!
//! The sign draws each character as an 11-row column of 8-pixel bitmask
//! rows. A glyph itself is only 7 rows high; the rasterizer centers it
//! vertically by placing 2 zero rows above and 2 below. Resolving a
//! character to its 7 glyph rows is the glyph table's job and stays with
//! the caller; the rasterizer works on the rows it is handed.

use vstd::prelude::*;

verus! {

/// The 7-row bitmask block of one character, as the glyph table supplies it.
/// Row 0 is the topmost row; bit 7 of a row is the leftmost pixel.
#[derive(Clone, Copy, Debug)]
pub struct Glyph {
    pub rows: [u8; 7],
}

/// The number of rows in one rasterized character cell.
pub const CELL_ROWS: usize = 11;

/// The 11-byte cell of one glyph: two zero rows, the 7 glyph rows in
/// order, then two zero rows.
pub open spec fn cell(g: Glyph) -> Seq<u8> {
    seq![0u8, 0u8] + g.rows@ + seq![0u8, 0u8]
}

/// The rasterization of a whole sequence of glyphs: the concatenation of
/// their cells, in input order.
pub open spec fn rasterized(gs: Seq<Glyph>) -> Seq<u8>
    decreases gs.len(),
{
    if gs.len() == 0 {
        Seq::empty()
    } else {
        rasterized(gs.drop_last()) + cell(gs.last())
    }
}

/// A rasterized sequence occupies exactly 11 bytes per glyph.
pub proof fn lemma_rasterized_len(gs: Seq<Glyph>)
    ensures
        rasterized(gs).len() == 11 * gs.len(),
    decreases gs.len(),
{
    if gs.len() > 0 {
        lemma_rasterized_len(gs.drop_last());
    }
}

/// Cell `k` of a rasterization is the 11-byte block of glyph `k`: rows 0,
/// 1, 9 and 10 are zero and rows 2 through 8 are the glyph's 7 rows in
/// order.
pub proof fn lemma_rasterized_block(gs: Seq<Glyph>, k: int)
    requires
        0 <= k < gs.len(),
    ensures
        rasterized(gs).subrange(11 * k, 11 * k + 11) == cell(gs[k]),
        cell(gs[k])[0] == 0u8,
        cell(gs[k])[1] == 0u8,
        cell(gs[k])[9] == 0u8,
        cell(gs[k])[10] == 0u8,
        forall|r: int| 0 <= r < 7 ==> cell(gs[k])[2 + r] == gs[k].rows@[r],
    decreases gs.len(),
{
    lemma_rasterized_len(gs.drop_last());
    if k == gs.len() - 1 {
        assert(rasterized(gs).subrange(11 * k, 11 * k + 11) =~= cell(gs[k]));
    } else {
        lemma_rasterized_block(gs.drop_last(), k);
        assert(rasterized(gs).subrange(11 * k, 11 * k + 11) =~= rasterized(
            gs.drop_last(),
        ).subrange(11 * k, 11 * k + 11));
        assert(gs.drop_last()[k] == gs[k]);
    }
}

/// Builds the pixel data for a text: one vertically centered 11-byte cell
/// per glyph, in input order. The caller resolves each character of its
/// text through the glyph table first.
pub fn rasterize(glyphs: &Vec<Glyph>) -> (r: Vec<u8>)
    ensures
        r@ == rasterized(glyphs@),
        r@.len() == 11 * glyphs@.len(),
{
    let mut out: Vec<u8> = Vec::new();
    let mut i: usize = 0;
    while i < glyphs.len()
        invariant
            i <= glyphs@.len(),
            out@ == rasterized(glyphs@.take(i as int)),
        decreases glyphs@.len() - i,
    {
        let g = &glyphs[i];
        out.push(0);
        out.push(0);
        let mut row: usize = 0;
        while row < 7
            invariant
                row <= 7,
                g == &glyphs@[i as int],
                0 <= i < glyphs@.len(),
                out@ == rasterized(glyphs@.take(i as int)) + seq![0u8, 0u8] + g.rows@.take(
                    row as int,
                ),
            decreases 7 - row,
        {
            out.push(g.rows[row]);
            proof {
                assert(g.rows@.take(row + 1) =~= g.rows@.take(row as int).push(g.rows@[row as int]));
            }
            row += 1;
        }
        out.push(0);
        out.push(0);
        proof {
            assert(g.rows@.take(7) =~= g.rows@);
            assert(glyphs@.take(i + 1).drop_last() =~= glyphs@.take(i as int));
            assert(glyphs@.take(i + 1).last() == glyphs@[i as int]);
            assert(out@ =~= rasterized(glyphs@.take(i as int)) + cell(glyphs@[i as int]));
        }
        i += 1;
    }
    proof {
        assert(glyphs@.take(glyphs@.len() as int) =~= glyphs@);
        lemma_rasterized_len(glyphs@);
    }
    out
}

} // verus!
