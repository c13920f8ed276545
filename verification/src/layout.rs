//! Byte layouts of the textures and buffers that the bokeh pass reads and writes.
use vstd::prelude::*;
use vstd::arithmetic::power2::pow2;
use vstd::bits::{low_bits_mask, lemma_usize_low_bits_mask_is_mod, lemma_usize_pow2_no_overflow};
use vstd::arithmetic::div_mod::{lemma_fundamental_div_mod, lemma_fundamental_div_mod_converse};
use vstd::arithmetic::mul::lemma_mul_inequality;

verus! {

/// `align` is a power of two that a `usize` can hold.
pub open spec fn is_power_of_two(align: usize) -> bool {
    exists|k: nat| k < usize::BITS && align == pow2(k)
}

/// The least multiple of `align` that is at least `x`.
pub open spec fn round_up(x: int, align: int) -> int {
    ((x + align - 1) / align) * align
}

/// Bytes per row of an image with four 16-bit channels per pixel.
pub open spec fn rgba16f_row_bytes(width: int) -> int {
    width * 8
}

/// The row layout of a texture copied into a buffer: the bytes a row holds,
/// and the bytes a row takes in the buffer once padded to the copy alignment.
#[derive(Clone, Copy, Debug, PartialEq, Eq, Structural)]
pub struct RowLayout {
    pub unpadded_bytes: usize,
    pub padded_bytes: usize,
}

proof fn lemma_mask_rounds_down(y: usize, align: usize)
    requires
        is_power_of_two(align),
    ensures
        align > 0,
        y & !((align - 1) as usize) == (y / align) * align,
{
    let k = choose|k: nat| k < usize::BITS && align == pow2(k);
    lemma_usize_pow2_no_overflow(k);
    lemma_usize_low_bits_mask_is_mod(y, k);
    let m = (align - 1) as usize;
    assert(low_bits_mask(k) as usize == m);
    assert((y & !m) + (y & m) == y) by (bit_vector);
    lemma_fundamental_div_mod(y as int, align as int);
}

/// Row layout of an Rgba16Float texture of `width` pixels, each row padded to
/// a multiple of `align` bytes.
pub fn rgba16f_row_layout(width: u32, align: usize) -> (r: RowLayout)
    requires
        is_power_of_two(align),
        rgba16f_row_bytes(width as int) + align <= usize::MAX,
    ensures
        r.unpadded_bytes == rgba16f_row_bytes(width as int),
        r.padded_bytes == round_up(rgba16f_row_bytes(width as int), align as int),
{
    proof {
        lemma_mask_rounds_down(0, align);
    }
    let channels = width as usize * 4;
    let unpadded = channels * 2;
    let padded = (unpadded + align - 1) & !(align - 1);
    proof {
        lemma_mask_rounds_down((unpadded + align - 1) as usize, align);
    }
    RowLayout { unpadded_bytes: unpadded, padded_bytes: padded }
}

/// The rows of a padded buffer with the padding removed: row `r` keeps the
/// first `row_bytes` of the `padded_row_bytes` bytes it takes.
pub open spec fn strip_padding(padded: Seq<u8>, row_bytes: int, padded_row_bytes: int, rows: int) -> Seq<u8> {
    Seq::new(
        (rows * row_bytes) as nat,
        |i: int| padded[(i / row_bytes) * padded_row_bytes + i % row_bytes],
    )
}

/// Removes the per-row padding from a readback buffer of `height` rows laid
/// out as `layout` says.
pub fn strip_row_padding(padded: &[u8], layout: RowLayout, height: u32) -> (out: Vec<u8>)
    requires
        layout.unpadded_bytes <= layout.padded_bytes,
        layout.unpadded_bytes * height <= usize::MAX,
        height == 0 || (height - 1) * layout.padded_bytes + layout.unpadded_bytes <= padded@.len(),
    ensures
        out@ == strip_padding(padded@, layout.unpadded_bytes as int, layout.padded_bytes as int, height as int),
{
    let row_bytes = layout.unpadded_bytes;
    let stride = layout.padded_bytes;
    let mut out: Vec<u8> = Vec::with_capacity(row_bytes * height as usize);
    let ghost target = strip_padding(padded@, row_bytes as int, stride as int, height as int);
    let len: usize = padded.len();
    let mut row: u32 = 0;
    while row < height
        invariant
            len == padded@.len(),
            row <= height,
            row_bytes <= stride,
            row_bytes * height <= usize::MAX,
            height == 0 || (height - 1) * stride + row_bytes <= padded@.len(),
            target == strip_padding(padded@, row_bytes as int, stride as int, height as int),
            out@.len() == row * row_bytes,
            forall|j: int| 0 <= j < out@.len() ==> out@[j] == #[trigger] target[j],
        decreases height - row,
    {
        proof {
            lemma_mul_inequality(row as int, (height - 1) as int, stride as int);
            lemma_mul_inequality(row as int + 1, height as int, row_bytes as int);
            assert(height * row_bytes == row_bytes * height) by (nonlinear_arith);
        }
        let start: usize = row as usize * stride;
        let mut col: usize = 0;
        while col < row_bytes
            invariant
                len == padded@.len(),
                row < height,
                col <= row_bytes,
                row_bytes <= stride,
                start == row * stride,
                start + row_bytes <= padded@.len(),
                (row + 1) * row_bytes <= height * row_bytes,
                height * row_bytes <= usize::MAX,
                target == strip_padding(padded@, row_bytes as int, stride as int, height as int),
                out@.len() == row * row_bytes + col,
                forall|j: int| 0 <= j < out@.len() ==> out@[j] == #[trigger] target[j],
            decreases row_bytes - col,
        {
            let ghost j = row * row_bytes + col;
            proof {
                lemma_fundamental_div_mod_converse(j, row_bytes as int, row as int, col as int);
                assert(j < (row + 1) * row_bytes) by (nonlinear_arith)
                    requires
                        j == row * row_bytes + col,
                        col < row_bytes,
                ;
            }
            out.push(padded[start + col]);
            col = col + 1;
        }
        assert(out@.len() == (row + 1) * row_bytes) by (nonlinear_arith)
            requires
                out@.len() == row * row_bytes + row_bytes,
        ;
        row = row + 1;
    }
    assert(out@.len() == target.len()) by (nonlinear_arith)
        requires
            out@.len() == height * row_bytes,
            target.len() == height * row_bytes,
    ;
    assert(out@ =~= target);
    out
}

/// A padded row is the least multiple of the alignment that holds the row:
/// it is a multiple of `align`, at least `x`, and less than `x + align`.
pub proof fn lemma_round_up_is_least_multiple(x: int, align: int)
    requires
        x >= 0,
        align > 0,
    ensures
        round_up(x, align) % align == 0,
        x <= round_up(x, align) < x + align,
{
    let q = (x + align - 1) / align;
    lemma_fundamental_div_mod(x + align - 1, align);
    let r = (x + align - 1) % align;
    assert(q * align == x + align - 1 - r) by (nonlinear_arith)
        requires
            x + align - 1 == align * q + r,
    ;
    lemma_fundamental_div_mod_converse(q * align, align, q, 0);
}

/// Stripping gives back the rows that were written: if row `r` of `rows`
/// (each `row_bytes` long) stands at offset `r * padded_row_bytes` of
/// `padded`, stripping the padding yields `rows` exactly, whatever the
/// padding bytes hold.
pub proof fn lemma_strip_recovers_rows(padded: Seq<u8>, rows: Seq<u8>, row_bytes: int, padded_row_bytes: int, height: int)
    requires
        0 <= row_bytes <= padded_row_bytes,
        height >= 0,
        rows.len() == height * row_bytes,
        forall|r: int, c: int| #![trigger rows[r * row_bytes + c]]
            0 <= r < height && 0 <= c < row_bytes ==> padded[r * padded_row_bytes + c] == rows[r * row_bytes + c],
    ensures
        strip_padding(padded, row_bytes, padded_row_bytes, height) == rows,
{
    let out = strip_padding(padded, row_bytes, padded_row_bytes, height);
    assert forall|i: int| 0 <= i < out.len() implies out[i] == rows[i] by {
        let r = i / row_bytes;
        let c = i % row_bytes;
        assert(row_bytes > 0) by (nonlinear_arith)
            requires
                0 <= i < height * row_bytes,
                height >= 0,
                row_bytes >= 0,
        ;
        lemma_fundamental_div_mod(i, row_bytes);
        assert(0 <= r < height) by (nonlinear_arith)
            requires
                0 <= i < height * row_bytes,
                row_bytes > 0,
                r == i / row_bytes,
        ;
        assert(r * row_bytes + c == i) by (nonlinear_arith)
            requires
                i == row_bytes * r + c,
        ;
        assert(padded[r * padded_row_bytes + c] == rows[r * row_bytes + c]);
    }
    assert(out =~= rows);
}

/// Size in bytes of the buffer that receives `height` padded rows.
pub fn readback_buffer_size(layout: RowLayout, height: u32) -> (size: u64)
    requires
        layout.padded_bytes * height <= usize::MAX,
    ensures
        size == layout.padded_bytes * height,
{
    (layout.padded_bytes * height as usize) as u64
}

/// Bytes per row of the Rgba16Float input texture (four 2-byte channels per pixel).
pub fn rgba16f_bytes_per_row(width: u32) -> (bytes: u32)
    requires
        rgba16f_row_bytes(width as int) <= u32::MAX,
    ensures
        bytes == rgba16f_row_bytes(width as int),
{
    2 * width * 4
}

/// Bytes per row of the R32Float depth texture (one 4-byte channel per pixel).
pub fn r32f_bytes_per_row(width: u32) -> (bytes: u32)
    requires
        4 * width <= u32::MAX,
    ensures
        bytes == 4 * width,
{
    4 * width
}

/// Pixels along each axis that one workgroup of the bokeh shader covers.
pub const WORKGROUP_SIZE: u32 = 8;

/// Number of workgroups along one axis: enough 8-pixel groups to cover `extent`.
pub open spec fn workgroups_for(extent: int) -> int {
    (extent + 7) / 8
}

/// Workgroup counts along x and y for an image of `width` by `height` pixels.
pub fn workgroup_counts(width: u32, height: u32) -> (counts: (u32, u32))
    requires
        width + 7 <= u32::MAX,
        height + 7 <= u32::MAX,
    ensures
        counts.0 == workgroups_for(width as int),
        counts.1 == workgroups_for(height as int),
        counts.0 * WORKGROUP_SIZE >= width,
        (counts.0 as int - 1) * WORKGROUP_SIZE < width,
        counts.1 * WORKGROUP_SIZE >= height,
        (counts.1 as int - 1) * WORKGROUP_SIZE < height,
{
    ((width + 7) / WORKGROUP_SIZE, (height + 7) / WORKGROUP_SIZE)
}

} // verus!
