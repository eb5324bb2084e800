//! Sweeps: runs of frames of one size, numbered from zero.

use vstd::prelude::*;
use crate::raster::{render, Grid, Raster};

verus! {

/// The frame numbers of a sweep of `count` frames, in rising order.
pub open spec fn index_run(count: nat) -> Seq<u32> {
    Seq::new(count, |i: int| i as u32)
}

/// Each of the numbers below `count` stands in `indices` exactly once, and
/// nothing else does. The order in which they stand is left open.
pub open spec fn covers_once(indices: Seq<u32>, count: nat) -> bool {
    &&& indices.len() == count
    &&& forall|i: int| 0 <= i < indices.len() ==> indices[i] < count
    &&& forall|i: int, j: int| 0 <= i < j < indices.len() ==> indices[i] != indices[j]
    &&& forall|n: u32| n < count ==> indices.contains(n)
}

/// The frame numbers that stand in `frames`, in the same order.
pub open spec fn indices_of(frames: Seq<(u32, Raster)>) -> Seq<u32> {
    Seq::new(frames.len(), |i: int| frames[i].0)
}

/// `shade` can be called on every pixel of a `width` by `height` raster, with
/// the parameter `c`.
pub open spec fn shades_all<C, S: Fn(&C, u32, u32) -> u8>(
    shade: S,
    c: C,
    width: u32,
    height: u32,
) -> bool {
    forall|x: u32, y: u32| x < width && y < height ==> call_requires(shade, (&c, x, y))
}

/// Every sample of `grid` is a value that `shade` can return for its pixel
/// under the parameter `c`.
pub open spec fn shaded<C, S: Fn(&C, u32, u32) -> u8>(shade: S, c: C, grid: Grid) -> bool {
    forall|x: u32, y: u32|
        x < grid.width && y < grid.height ==> call_ensures(
            shade,
            (&c, x, y),
            #[trigger] grid.at(x as int, y as int),
        )
}

/// `grid` is frame `index` of the sweep: a rendering under a parameter that
/// `param` gives for that frame number.
pub open spec fn frame_of<C, P: Fn(u32) -> C, S: Fn(&C, u32, u32) -> u8>(
    param: P,
    shade: S,
    index: u32,
    grid: Grid,
) -> bool {
    exists|c: C| #[trigger] call_ensures(param, (index,), c) && shaded(shade, c, grid)
}

/// The frame numbers `0, 1, .., count - 1`.
pub fn frame_indices(count: u32) -> (indices: Vec<u32>)
    ensures
        indices@ == index_run(count as nat),
{
    let mut indices: Vec<u32> = Vec::new();
    let mut next: u32 = 0;
    while next < count
        invariant
            next <= count,
            indices@ == index_run(next as nat),
        decreases count - next,
    {
        indices.push(next);
        next = next + 1;
        assert(indices@ =~= index_run(next as nat));
    }
    indices
}

/// Renders a sweep of `count` frames of `width` by `height` pixels.
///
/// Frame `i` is rendered under the parameter `param(i)`: its pixel `(x, y)`
/// holds `shade(&param(i), x, y)`. The frames come back in rising order, each
/// with its number.
pub fn sweep<C, P: Fn(u32) -> C, S: Fn(&C, u32, u32) -> u8>(
    width: u32,
    height: u32,
    count: u32,
    param: P,
    shade: S,
) -> (frames: Vec<(u32, Raster)>)
    requires
        width > 0,
        height > 0,
        width * height <= isize::MAX,
        forall|i: u32| i < count ==> call_requires(param, (i,)),
        forall|i: u32, c: C|
            i < count && #[trigger] call_ensures(param, (i,), c) ==> shades_all(
                shade,
                c,
                width,
                height,
            ),
    ensures
        indices_of(frames@) == index_run(count as nat),
        covers_once(indices_of(frames@), count as nat),
        forall|i: int|
            0 <= i < count ==> {
                &&& (#[trigger] frames@[i]).1@.width == width
                &&& frames@[i].1@.height == height
                &&& frames@[i].1@.wf()
                &&& frame_of(param, shade, i as u32, frames@[i].1@)
            },
{
    let mut frames: Vec<(u32, Raster)> = Vec::new();
    let mut index: u32 = 0;
    while index < count
        invariant
            width > 0,
            height > 0,
            width * height <= isize::MAX,
            index <= count,
            forall|i: u32| i < count ==> call_requires(param, (i,)),
            forall|i: u32, c: C|
                i < count && #[trigger] call_ensures(param, (i,), c) ==> shades_all(
                    shade,
                    c,
                    width,
                    height,
                ),
            frames@.len() == index,
            forall|i: int|
                0 <= i < index ==> {
                    &&& (#[trigger] frames@[i]).0 == i
                    &&& frames@[i].1@.width == width
                    &&& frames@[i].1@.height == height
                    &&& frames@[i].1@.wf()
                    &&& frame_of(param, shade, i as u32, frames@[i].1@)
                },
        decreases count - index,
    {
        let c = param(index);
        assert(shades_all(shade, c, width, height));
        let shade_here = &shade;
        let c_here = &c;
        let pixel = |x: u32, y: u32| -> (sample: u8)
            requires
                x < width,
                y < height,
            ensures
                call_ensures(*shade_here, (c_here, x, y), sample),
            { shade_here(c_here, x, y) };
        let raster = render(width, height, pixel);
        proof {
            assert(shaded(shade, c, raster@));
            assert(frame_of(param, shade, index, raster@));
        }
        frames.push((index, raster));
        index = index + 1;
    }
    proof {
        assert(indices_of(frames@) =~= index_run(count as nat));
        lemma_run_covers_once(count as nat);
    }
    frames
}

/// A sweep leaves no gaps and makes no duplicates: the frame numbers
/// `0, 1, .., count - 1` hold each number below `count` exactly once.
pub proof fn lemma_run_covers_once(count: nat)
    requires
        count <= u32::MAX,
    ensures
        covers_once(index_run(count), count),
{
    let run = index_run(count);
    assert forall|n: u32| n < count implies run.contains(n) by {
        assert(run[n as int] == n);
    }
}

/// Only which frame numbers were produced counts, not when: numbers that
/// cover a sweep cover it in any other order too.
pub proof fn lemma_cover_in_any_order(indices: Seq<u32>, reordered: Seq<u32>, count: nat)
    requires
        covers_once(indices, count),
        indices.to_multiset() == reordered.to_multiset(),
    ensures
        covers_once(reordered, count),
{
    vstd::seq_lib::to_multiset_len(indices);
    vstd::seq_lib::to_multiset_len(reordered);
    assert forall|n: u32| indices.contains(n) == reordered.contains(n) by {
        vstd::seq_lib::to_multiset_contains(indices, n);
        vstd::seq_lib::to_multiset_contains(reordered, n);
    }
    assert forall|i: int| 0 <= i < reordered.len() implies reordered[i] < count by {
        assert(reordered.contains(reordered[i]));
        let j = choose|j: int| 0 <= j < indices.len() && indices[j] == reordered[i];
        assert(indices[j] < count);
    }
    assert(indices.no_duplicates());
    indices.lemma_multiset_has_no_duplicates();
    reordered.lemma_multiset_has_no_duplicates_conv();
}

} // verus!
