//! Posterization: replace each pixel with the index of its nearest
//! palette color.

use vstd::prelude::*;
use crate::colors::IntColor;
use crate::palette::Palette;
use crate::plane::Plane;

verus! {

/// `idx` is the index `Palette::find` resolves `c` to: a nearest palette
/// entry, and the first one among equally near entries.
pub open spec fn is_first_nearest(pal: Seq<IntColor>, c: IntColor, idx: int) -> bool {
    &&& 0 <= idx < pal.len()
    &&& forall|j: int| 0 <= j < pal.len() ==> c.dist2(pal[idx]) <= c.dist2(#[trigger] pal[j])
    &&& forall|j: int| 0 <= j < idx ==> c.dist2(pal[idx]) < c.dist2(#[trigger] pal[j])
}

/// Map every pixel of the input plane to the index of its nearest
/// palette color.
pub fn convert_posterize(
    in_image: &Plane<IntColor>,
    out_image: &mut Plane<i32>,
    palette: &Palette,
)
    requires
        in_image@.len() == old(out_image)@.len(),
        1 <= palette@.len() <= 0x7fffffff,
        palette.wf(),
        forall|i: int| 0 <= i < in_image@.len() ==> (#[trigger] in_image@[i]).wf(),
    ensures
        final(out_image)@.len() == old(out_image)@.len(),
        final(out_image).width == old(out_image).width,
        final(out_image).height == old(out_image).height,
        forall|i: int|
            0 <= i < in_image@.len() ==> is_first_nearest(
                palette@,
                in_image@[i],
                #[trigger] final(out_image)@[i] as int,
            ),
{
    let n = in_image.data.len();
    let mut i: usize = 0;
    while i < n
        invariant
            n == in_image@.len(),
            n == out_image@.len(),
            out_image.width == old(out_image).width,
            out_image.height == old(out_image).height,
            i <= n,
            1 <= palette@.len() <= 0x7fffffff,
            palette.wf(),
            forall|j: int| 0 <= j < in_image@.len() ==> (#[trigger] in_image@[j]).wf(),
            forall|j: int|
                0 <= j < i ==> is_first_nearest(
                    palette@,
                    in_image@[j],
                    #[trigger] out_image@[j] as int,
                ),
        decreases n - i,
    {
        let idx = palette.find(in_image.data[i]);
        out_image.data.set(i, idx);
        i = i + 1;
    }
}

} // verus!
