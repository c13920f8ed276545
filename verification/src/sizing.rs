//! The sizes the effect renders at.
use vstd::prelude::*;

verus! {

/// The larger of `a` and `b`.
pub open spec fn max_u32(a: u32, b: u32) -> u32 {
    if a >= b {
        a
    } else {
        b
    }
}

fn max_of(a: u32, b: u32) -> (m: u32)
    ensures
        m == max_u32(a, b),
{
    if a >= b {
        a
    } else {
        b
    }
}

/// Target size outside interactive preview: the requested size, each side
/// at least one pixel, or else the size of the original image.
pub fn fixed_target_size(original: (u32, u32), requested: Option<(u32, u32)>) -> (target: (u32, u32))
    ensures
        match requested {
            Some((w, h)) => target == (max_u32(w, 1), max_u32(h, 1)),
            None => target == original,
        },
{
    match requested {
        Some((w, h)) => (max_of(w, 1), max_of(h, 1)),
        None => original,
    }
}

/// The long-side size of the transformed preview rendered for a target size.
pub fn preview_dimension(target: (u32, u32)) -> (dim: u32)
    ensures
        dim == max_u32(max_u32(target.0, target.1), 1),
        dim >= 1,
        dim >= target.0,
        dim >= target.1,
{
    max_of(max_of(target.0, target.1), 1)
}

/// In interactive preview, the size to downscale the rendered image to, when
/// it is wider than the target; `None` keeps the image as rendered.
pub fn interactive_downscale_size(current_width: u32, target: (u32, u32)) -> (size: Option<(u32, u32)>)
    ensures
        current_width > target.0 ==> size == Some((max_u32(target.0, 1), max_u32(target.1, 1))),
        current_width <= target.0 ==> size is None,
{
    if current_width > target.0 {
        Some((max_of(target.0, 1), max_of(target.1, 1)))
    } else {
        None
    }
}

} // verus!
