//! Icon bitmaps and the battery gauge as cells to paint.
//!
//! A bitmap is bit-packed row by row, MSB first, each row padded to a
//! whole byte: cell `(col, row)` of a `w`-wide bitmap is bit
//! `7 - col % 8` of byte `row * ceil(w / 8) + col / 8`.
use vstd::prelude::*;

verus! {

/// Bytes per bitmap row: `w` bits rounded up to whole bytes.
pub open spec fn row_bytes(w: usize) -> int {
    (w as int + 7) / 8
}

/// Whether cell `(col, row)` of the bitmap is lit.
pub open spec fn cell_lit(bits: Seq<u8>, w: usize, col: usize, row: usize) -> bool {
    (bits[row * row_bytes(w) + col / 8] >> ((7 - col % 8) as u8)) & 1u8 == 1u8
}

/// The lit cells among the first `c` columns of row `row`, left to right.
pub open spec fn lit_in_row(bits: Seq<u8>, w: usize, row: usize, c: usize) -> Seq<(usize, usize)>
    decreases c,
{
    if c == 0 {
        seq![]
    } else {
        let before = lit_in_row(bits, w, row, (c - 1) as usize);
        if cell_lit(bits, w, (c - 1) as usize, row) {
            before.push(((c - 1) as usize, row))
        } else {
            before
        }
    }
}

/// The lit cells of the first `r` rows, row by row, each left to right.
pub open spec fn lit_rows(bits: Seq<u8>, w: usize, r: usize) -> Seq<(usize, usize)>
    decreases r,
{
    if r == 0 {
        seq![]
    } else {
        lit_rows(bits, w, (r - 1) as usize) + lit_in_row(bits, w, (r - 1) as usize, w)
    }
}

/// The lit cells `(col, row)` of a `w` x `h` bitmap, in drawing order
/// (row by row, each left to right). The bitmap must hold all `h` rows.
pub fn lit_cells(bits: &[u8], w: usize, h: usize) -> (r: Vec<(usize, usize)>)
    requires
        h * row_bytes(w) <= bits@.len(),
    ensures
        r@ == lit_rows(bits@, w, h),
{
    let stride: usize = if w % 8 == 0 {
        w / 8
    } else {
        w / 8 + 1
    };
    assert(stride == row_bytes(w));
    let len: usize = bits.len();
    let mut out: Vec<(usize, usize)> = Vec::new();
    let mut row: usize = 0;
    while row < h
        invariant
            row <= h,
            stride == row_bytes(w),
            h * stride <= bits@.len(),
            len == bits@.len(),
            out@ == lit_rows(bits@, w, row),
        decreases h - row,
    {
        let ghost start = out@;
        let mut col: usize = 0;
        while col < w
            invariant
                row < h,
                col <= w,
                stride == row_bytes(w),
                h * stride <= bits@.len(),
                len == bits@.len(),
                start == lit_rows(bits@, w, row),
                out@ == start + lit_in_row(bits@, w, row, col),
            decreases w - col,
        {
            assert(row * stride + col / 8 < bits@.len()) by (nonlinear_arith)
                requires
                    row < h,
                    col < w,
                    stride == (w as int + 7) / 8,
                    h * stride <= bits@.len(),
            {
                assert(col / 8 < stride);
                assert(row * stride + stride == (row + 1) * stride);
                assert((row + 1) * stride <= h * stride);
            }
            let byte = bits[row * stride + col / 8];
            let shift: u8 = (7 - col % 8) as u8;
            if (byte >> shift) & 1u8 == 1u8 {
                out.push((col, row));
            }
            proof {
                assert(out@ == start + lit_in_row(bits@, w, row, (col + 1) as usize));
            }
            col = col + 1;
        }
        row = row + 1;
    }
    out
}

/// Width and height of the battery outline, in pixels.
pub const BATT_W: i32 = 20;
pub const BATT_H: i32 = 10;

/// A filled rectangle: top-left corner, width and height.
#[derive(Debug, Clone, Copy, PartialEq, Eq, Structural)]
pub struct FillRect {
    pub x: i32,
    pub y: i32,
    pub w: u32,
    pub h: u32,
}

/// Fill segment `i` of a battery gauge whose outline's top-left corner is
/// at `(x, y)`: the inside is split into four segments, each drawn one
/// pixel narrower than its pitch so that a gap shows between them.
pub open spec fn battery_segment(x: i32, y: i32, i: int) -> FillRect {
    FillRect { x: (x + 2 + i * 4) as i32, y: (y + 2) as i32, w: 3, h: 6 }
}

/// The fill segments of a battery gauge at `(x, y)` showing `level` bars
/// (at most four), left to right.
pub fn battery_segments(x: i32, y: i32, level: u8) -> (r: Vec<FillRect>)
    requires
        level <= 4,
        x + 2 + 4 * 4 <= i32::MAX,
        y + 2 <= i32::MAX,
    ensures
        r@.len() == level,
        forall|i: int| 0 <= i < level ==> #[trigger] r@[i] == battery_segment(x, y, i),
{
    let seg_w: i32 = (BATT_W - 4) / 4;
    let mut out: Vec<FillRect> = Vec::new();
    let mut i: u8 = 0;
    while i < level
        invariant
            i <= level,
            level <= 4,
            seg_w == 4,
            x + 2 + 4 * 4 <= i32::MAX,
            y + 2 <= i32::MAX,
            out@.len() == i,
            forall|j: int| 0 <= j < i ==> #[trigger] out@[j] == battery_segment(x, y, j),
        decreases level - i,
    {
        let left: i32 = x + 2 + (i as i32) * seg_w;
        out.push(FillRect { x: left, y: y + 2, w: (seg_w - 1) as u32, h: (BATT_H - 4) as u32 });
        i = i + 1;
    }
    out
}

} // verus!
