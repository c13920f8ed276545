//! Nearest-neighbour resampling of the depth map to the size of the image
//! being processed (the depth model outputs its own fixed-size map).
use vstd::prelude::*;
use vstd::arithmetic::div_mod::{lemma_fundamental_div_mod_converse, lemma_div_is_ordered, lemma_fundamental_div_mod};
use vstd::arithmetic::mul::lemma_mul_inequality;

verus! {

/// Nearest source coordinate for destination coordinate `i` when `src`
/// samples are stretched over `dst`: `round(i * src / dst)`, halves up.
pub open spec fn nearest_index(i: int, src: int, dst: int) -> int {
    (2 * i * src + dst) / (2 * dst)
}

/// Index into the source map of the sample taken for destination pixel `(x, y)`;
/// coordinates past the last source row or column are clamped to it.
pub open spec fn sample_index(x: int, y: int, sw: int, sh: int, dw: int, dh: int) -> int {
    let sx = nearest_index(x, sw, dw);
    let sy = nearest_index(y, sh, dh);
    let cx = if sx < sw - 1 { sx } else { sw - 1 };
    let cy = if sy < sh - 1 { sy } else { sh - 1 };
    cy * sw + cx
}

/// The `sw` x `sh` row-major map `src` resampled to `dw` x `dh` by nearest neighbour.
pub open spec fn resampled<T>(src: Seq<T>, sw: int, sh: int, dw: int, dh: int) -> Seq<T> {
    Seq::new(
        (dw * dh) as nat,
        |i: int| src[sample_index(i % dw, i / dw, sw, sh, dw, dh)],
    )
}

/// Resampling a map to its own size gives back the map unchanged.
pub proof fn lemma_resample_same_size_is_identity<T>(src: Seq<T>, w: int, h: int)
    requires
        w >= 0,
        h >= 0,
        src.len() == w * h,
    ensures
        resampled(src, w, h, w, h) == src,
{
    let r = resampled(src, w, h, w, h);
    assert forall|i: int| 0 <= i < r.len() implies r[i] == src[i] by {
        let x = i % w;
        let y = i / w;
        assert(w > 0) by (nonlinear_arith)
            requires
                0 <= i < w * h,
                w >= 0,
                h >= 0,
        ;
        lemma_nearest_index_same_size(x, w);
        assert(0 <= x < w);
        assert(0 <= y < h) by (nonlinear_arith)
            requires
                0 <= i < w * h,
                w > 0,
                y == i / w,
        ;
        lemma_nearest_index_same_size(y, h);
        assert(y * w + x == i) by (nonlinear_arith)
            requires
                w > 0,
                x == i % w,
                y == i / w,
        ;
    }
    assert(r.len() == src.len());
    assert(r =~= src);
}

/// Each destination pixel takes the source sample nearest to it: destination
/// pixel `(x, y)` takes source column `sx` and row `sy` where `x * sw / dw` is
/// within half a pixel of `sx` (halves rounding up) and likewise for `sy`,
/// each clamped to the last source column or row.
pub proof fn lemma_resampled_takes_nearest_sample<T>(src: Seq<T>, sw: int, sh: int, dw: int, dh: int, x: int, y: int)
    requires
        0 <= x < dw,
        0 <= y < dh,
        sw > 0,
        sh > 0,
    ensures
        forall|sx: int, sy: int|
            (2 * sx - 1) * dw <= 2 * x * sw < (2 * sx + 1) * dw
            && (2 * sy - 1) * dh <= 2 * y * sh < (2 * sy + 1) * dh
            ==> resampled(src, sw, sh, dw, dh)[y * dw + x] == src[#[trigger] clamped_position(sx, sy, sw, sh)],
{
    let i = y * dw + x;
    lemma_fundamental_div_mod_converse(i, dw, y, x);
    assert(i < dw * dh) by (nonlinear_arith)
        requires
            i == y * dw + x,
            0 <= x < dw,
            0 <= y < dh,
    ;
    assert(0 <= i);
    lemma_nearest_index_rounds(x, sw, dw);
    lemma_nearest_index_rounds(y, sh, dh);
    assert forall|sx: int, sy: int|
        (2 * sx - 1) * dw <= 2 * x * sw < (2 * sx + 1) * dw
        && (2 * sy - 1) * dh <= 2 * y * sh < (2 * sy + 1) * dh
        implies resampled(src, sw, sh, dw, dh)[y * dw + x] == src[#[trigger] clamped_position(sx, sy, sw, sh)] by {
        lemma_rounding_unique(sx, nearest_index(x, sw, dw), 2 * x * sw, dw);
        lemma_rounding_unique(sy, nearest_index(y, sh, dh), 2 * y * sh, dh);
    }
}

/// Index of source position `(sx, sy)`, each clamped to the last column or row.
pub open spec fn clamped_position(sx: int, sy: int, sw: int, sh: int) -> int {
    (if sy < sh - 1 { sy } else { sh - 1 }) * sw + (if sx < sw - 1 { sx } else { sw - 1 })
}

proof fn lemma_rounding_unique(a: int, b: int, t: int, d: int)
    requires
        d > 0,
        (2 * a - 1) * d <= t < (2 * a + 1) * d,
        (2 * b - 1) * d <= t < (2 * b + 1) * d,
    ensures
        a == b,
{
    assert(a == b) by (nonlinear_arith)
        requires
            d > 0,
            (2 * a - 1) * d <= t < (2 * a + 1) * d,
            (2 * b - 1) * d <= t < (2 * b + 1) * d,
    ;
}

proof fn lemma_nearest_index_rounds(i: int, src: int, dst: int)
    requires
        0 <= i,
        0 < dst,
        0 < src,
    ensures
        (2 * nearest_index(i, src, dst) - 1) * dst <= 2 * i * src < (2 * nearest_index(i, src, dst) + 1) * dst,
{
    let q = nearest_index(i, src, dst);
    assert(0 <= 2 * i * src + dst) by (nonlinear_arith)
        requires
            0 <= i,
            0 < src,
            0 < dst,
    ;
    lemma_fundamental_div_mod(2 * i * src + dst, 2 * dst);
    let r = (2 * i * src + dst) % (2 * dst);
    assert(0 <= r < 2 * dst);
    assert((2 * q - 1) * dst <= 2 * i * src < (2 * q + 1) * dst) by (nonlinear_arith)
        requires
            2 * i * src + dst == (2 * dst) * q + r,
            0 <= r < 2 * dst,
    ;
}

proof fn lemma_nearest_index_same_size(i: int, n: int)
    requires
        0 <= i < n,
    ensures
        nearest_index(i, n, n) == i,
{
    assert(2 * i * n + n == i * (2 * n) + n) by (nonlinear_arith);
    lemma_fundamental_div_mod_converse(2 * i * n + n, 2 * n, i, n);
}

proof fn lemma_nearest_index_bounded(i: int, src: int, dst: int)
    requires
        0 <= i < dst,
        0 < src,
    ensures
        0 <= nearest_index(i, src, dst) <= src,
{
    assert(0 <= 2 * i * src + dst) by (nonlinear_arith)
        requires
            0 <= i,
            0 < src,
            0 < dst,
    ;
    assert(2 * i * src + dst <= 2 * dst * src + 2 * dst) by (nonlinear_arith)
        requires
            0 <= i < dst,
            0 < src,
    ;
    lemma_div_is_ordered(2 * i * src + dst, 2 * dst * src + 2 * dst, 2 * dst);
    assert(2 * dst * src + 2 * dst == (src + 1) * (2 * dst) + 0) by (nonlinear_arith);
    lemma_fundamental_div_mod_converse(2 * dst * src + 2 * dst, 2 * dst, src + 1, 0);
    assert(nearest_index(i, src, dst) <= src + 1);
    assert(nearest_index(i, src, dst) >= 0) by (nonlinear_arith)
        requires
            0 <= 2 * i * src + dst,
            0 < dst,
            nearest_index(i, src, dst) == (2 * i * src + dst) / (2 * dst),
    ;
    // Strictly below src + 1: the numerator is less than 2 * dst * (src + 1).
    assert(2 * i * src + dst < (2 * dst) * (src + 1)) by (nonlinear_arith)
        requires
            0 <= i < dst,
            0 < src,
    ;
    assert(nearest_index(i, src, dst) < src + 1) by (nonlinear_arith)
        requires
            0 <= 2 * i * src + dst < (2 * dst) * (src + 1),
            0 < dst,
            nearest_index(i, src, dst) == (2 * i * src + dst) / (2 * dst),
    ;
}

fn nearest_coordinate(i: u32, src: u32, dst: u32) -> (r: u32)
    requires
        i < dst,
        0 < src,
    ensures
        r == nearest_index(i as int, src as int, dst as int),
{
    proof {
        lemma_nearest_index_bounded(i as int, src as int, dst as int);
        assert(2 * (i as int) * (src as int) + dst <= 2 * 0xffff_ffffint * 0xffff_ffffint + 0xffff_ffff) by (nonlinear_arith)
            requires
                i < dst <= 0xffff_ffff,
                src <= 0xffff_ffff,
        ;
    }
    let numerator: u128 = 2 * (i as u128) * (src as u128) + dst as u128;
    let r: u128 = numerator / (2 * dst as u128);
    r as u32
}

/// Resamples the `src_w` x `src_h` row-major map `src` to `dst_w` x `dst_h`;
/// a map already of the target size is copied as it is.
pub fn resample_nearest<T: Copy>(src: &Vec<T>, src_w: u32, src_h: u32, dst_w: u32, dst_h: u32) -> (out: Vec<T>)
    requires
        src@.len() == src_w * src_h,
        dst_w * dst_h <= u32::MAX,
        (src_w != dst_w || src_h != dst_h) && dst_w > 0 && dst_h > 0 ==> src_w > 0 && src_h > 0,
    ensures
        out@ == resampled(src@, src_w as int, src_h as int, dst_w as int, dst_h as int),
{
    let len: usize = src.len();
    if src_w == dst_w && src_h == dst_h {
        proof {
            lemma_resample_same_size_is_identity(src@, src_w as int, src_h as int);
        }
        let mut copy: Vec<T> = Vec::with_capacity(len);
        let mut k: usize = 0;
        while k < len
            invariant
                len == src@.len(),
                k <= len,
                copy@ == src@.subrange(0, k as int),
            decreases len - k,
        {
            copy.push(src[k]);
            k = k + 1;
            assert(copy@ =~= src@.subrange(0, k as int));
        }
        assert(copy@ =~= src@);
        return copy;
    }
    let ghost target = resampled(src@, src_w as int, src_h as int, dst_w as int, dst_h as int);
    let mut out: Vec<T> = Vec::new();
    let mut y: u32 = 0;
    while y < dst_h
        invariant
            y <= dst_h,
            len == src@.len(),
            dst_w * dst_h <= u32::MAX,
            src@.len() == src_w * src_h,
            (src_w != dst_w || src_h != dst_h) && dst_w > 0 && dst_h > 0 ==> src_w > 0 && src_h > 0,
            src_w != dst_w || src_h != dst_h,
            target == resampled(src@, src_w as int, src_h as int, dst_w as int, dst_h as int),
            out@.len() == y * dst_w,
            forall|j: int| 0 <= j < out@.len() ==> out@[j] == #[trigger] target[j],
        decreases dst_h - y,
    {
        let mut x: u32 = 0;
        while x < dst_w
            invariant
                y < dst_h,
                x <= dst_w,
                len == src@.len(),
                dst_w * dst_h <= u32::MAX,
                src@.len() == src_w * src_h,
                dst_w > 0 ==> src_w > 0 && src_h > 0,
                target == resampled(src@, src_w as int, src_h as int, dst_w as int, dst_h as int),
                out@.len() == y * dst_w + x,
                forall|j: int| 0 <= j < out@.len() ==> out@[j] == #[trigger] target[j],
            decreases dst_w - x,
        {
            let sx = nearest_coordinate(x, src_w, dst_w);
            let sy = nearest_coordinate(y, src_h, dst_h);
            let cx: u32 = if sx < src_w - 1 { sx } else { src_w - 1 };
            let cy: u32 = if sy < src_h - 1 { sy } else { src_h - 1 };
            proof {
                lemma_mul_inequality(cy as int, src_h as int - 1, src_w as int);
                assert((src_h as int - 1) * src_w + src_w == src_w * src_h) by (nonlinear_arith);
                assert(cy * src_w + cx < src_w * src_h);
                let j = y * dst_w + x;
                lemma_fundamental_div_mod_converse(j as int, dst_w as int, y as int, x as int);
                assert(j < dst_w * dst_h) by (nonlinear_arith)
                    requires
                        j == y * dst_w + x,
                        x < dst_w,
                        y < dst_h,
                ;
            }
            let si: usize = cy as usize * src_w as usize + cx as usize;
            out.push(src[si]);
            x = x + 1;
        }
        assert(out@.len() == (y + 1) * dst_w) by (nonlinear_arith)
            requires
                out@.len() == y * dst_w + dst_w,
        ;
        y = y + 1;
    }
    assert(out@.len() == target.len()) by (nonlinear_arith)
        requires
            out@.len() == dst_h * dst_w,
            target.len() == dst_w * dst_h,
    ;
    assert(out@ =~= target);
    out
}

} // verus!
