//! Rasters: dense grids of gray samples, and the renderer that fills one.

use vstd::prelude::*;

verus! {

/// What a raster is to a contract: its dimensions and its samples, row by row.
pub struct Grid {
    pub width: nat,
    pub height: nat,
    pub samples: Seq<u8>,
}

impl Grid {
    /// Both dimensions are positive and fit a `u32`, and there is one sample
    /// for each pixel.
    pub open spec fn wf(self) -> bool {
        &&& 0 < self.width <= u32::MAX
        &&& 0 < self.height <= u32::MAX
        &&& self.samples.len() == self.width * self.height
    }

    /// The sample of the pixel in column `x` of row `y`.
    pub open spec fn at(self, x: int, y: int) -> u8
        recommends
            0 <= x < self.width,
            0 <= y < self.height,
    {
        self.samples[cell(self.width as int, x, y)]
    }
}

/// The place of pixel `(x, y)` in a row-major buffer of rows `width` long.
pub open spec fn cell(width: int, x: int, y: int) -> int {
    y * width + x
}

/// A grayscale image: `width * height` samples in row-major order, one byte
/// each, 0 being black and 255 white.
pub struct Raster {
    width: u32,
    height: u32,
    samples: Vec<u8>,
}

impl View for Raster {
    type V = Grid;

    closed spec fn view(&self) -> Grid {
        Grid { width: self.width as nat, height: self.height as nat, samples: self.samples@ }
    }
}

/// The place of pixel `(x, y)` in a row-major buffer lies inside the buffer,
/// and gives the pixel back under division by the width.
pub proof fn lemma_cell_index(width: int, height: int, x: int, y: int)
    requires
        0 <= x < width,
        0 <= y < height,
    ensures
        0 <= y * width <= cell(width, x, y) < width * height,
        width * height == height * width,
        cell(width, x, y) % width == x,
        cell(width, x, y) / width == y,
{
    assert(width * height == height * width) by (nonlinear_arith);
    assert(0 <= y * width <= y * width + x < width * height) by (nonlinear_arith)
        requires
            0 <= x < width,
            0 <= y < height,
    ;
    vstd::arithmetic::div_mod::lemma_fundamental_div_mod_converse(y * width + x, width, y, x);
}

/// Every sample of `grid` is a value that `shade` can return for its pixel.
pub open spec fn renders<F: Fn(u32, u32) -> u8>(shade: F, grid: Grid) -> bool {
    forall|x: u32, y: u32|
        x < grid.width && y < grid.height ==> call_ensures(
            shade,
            (x, y),
            #[trigger] grid.at(x as int, y as int),
        )
}

/// `shade` has one value for each pixel.
pub open spec fn single_shade<F: Fn(u32, u32) -> u8>(shade: F) -> bool {
    forall|x: u32, y: u32, a: u8, b: u8|
        #[trigger] call_ensures(shade, (x, y), a) && #[trigger] call_ensures(shade, (x, y), b)
            ==> a == b
}

impl Raster {
    /// Every raster has positive dimensions and exactly one sample per pixel.
    #[verifier::type_invariant]
    pub closed spec fn inv(&self) -> bool {
        self@.wf()
    }

    /// Number of columns.
    pub fn width(&self) -> (w: u32)
        ensures
            w == self@.width,
            self@.wf(),
    {
        proof {
            use_type_invariant(self);
        }
        self.width
    }

    /// Number of rows.
    pub fn height(&self) -> (h: u32)
        ensures
            h == self@.height,
            self@.wf(),
    {
        proof {
            use_type_invariant(self);
        }
        self.height
    }

    /// The samples, row by row.
    pub fn samples(&self) -> (s: &Vec<u8>)
        ensures
            s@ == self@.samples,
            self@.wf(),
    {
        proof {
            use_type_invariant(self);
        }
        &self.samples
    }

    /// The sample of the pixel in column `x` of row `y`.
    pub fn sample(&self, x: u32, y: u32) -> (sample: u8)
        requires
            x < self@.width,
            y < self@.height,
        ensures
            sample == self@.at(x as int, y as int),
    {
        proof {
            use_type_invariant(self);
            lemma_cell_index(self.width as int, self.height as int, x as int, y as int);
            assert(self.samples@.len() == self.samples.len());
        }
        self.samples[y as usize * self.width as usize + x as usize]
    }

    /// The sample of the pixel in column `x` of row `y`, or `None` outside the
    /// raster.
    pub fn get(&self, x: u32, y: u32) -> (sample: Option<u8>)
        ensures
            sample == if x < self@.width && y < self@.height {
                Some(self@.at(x as int, y as int))
            } else {
                None
            },
    {
        if x < self.width && y < self.height {
            Some(self.sample(x, y))
        } else {
            None
        }
    }
}

/// Renders one frame: the raster whose pixel `(x, y)` holds `shade(x, y)`.
///
/// `shade` is called once for each pixel, row by row from the top and from
/// left to right within a row. The samples must fit a `Vec`, which holds at
/// most `isize::MAX` bytes.
pub fn render<F: Fn(u32, u32) -> u8>(width: u32, height: u32, shade: F) -> (raster: Raster)
    requires
        width > 0,
        height > 0,
        width * height <= isize::MAX,
        forall|x: u32, y: u32| x < width && y < height ==> call_requires(shade, (x, y)),
    ensures
        raster@.width == width,
        raster@.height == height,
        raster@.samples.len() == width * height,
        raster@.wf(),
        renders(shade, raster@),
{
    let mut samples: Vec<u8> = Vec::new();
    let mut y: u32 = 0;
    while y < height
        invariant
            width > 0,
            y <= height,
            samples.len() == y * width,
            forall|x: u32, y: u32| x < width && y < height ==> call_requires(shade, (x, y)),
            forall|cx: u32, cy: u32|
                cx < width && cy < y ==> call_ensures(
                    shade,
                    (cx, cy),
                    samples@[#[trigger] cell(width as int, cx as int, cy as int)],
                ),
        decreases height - y,
    {
        let mut x: u32 = 0;
        while x < width
            invariant
                width > 0,
                y < height,
                x <= width,
                samples.len() == y * width + x,
                forall|x: u32, y: u32| x < width && y < height ==> call_requires(shade, (x, y)),
                forall|cx: u32, cy: u32|
                    cx < width && cy < y ==> call_ensures(
                        shade,
                        (cx, cy),
                        samples@[#[trigger] cell(width as int, cx as int, cy as int)],
                    ),
                forall|cx: u32|
                    cx < x ==> call_ensures(
                        shade,
                        (cx, y),
                        samples@[#[trigger] cell(width as int, cx as int, y as int)],
                    ),
            decreases width - x,
        {
            let sample = shade(x, y);
            let ghost before = samples@;
            samples.push(sample);
            proof {
                assert forall|cx: u32, cy: u32| cx < width && cy < y implies call_ensures(
                    shade,
                    (cx, cy),
                    samples@[#[trigger] cell(width as int, cx as int, cy as int)],
                ) by {
                    lemma_cell_index(width as int, y as int, cx as int, cy as int);
                    assert(samples@[cell(width as int, cx as int, cy as int)]
                        == before[cell(width as int, cx as int, cy as int)]);
                }
                assert forall|cx: u32| cx < x + 1 implies call_ensures(
                    shade,
                    (cx, y),
                    samples@[#[trigger] cell(width as int, cx as int, y as int)],
                ) by {
                    if cx < x {
                        assert(samples@[cell(width as int, cx as int, y as int)]
                            == before[cell(width as int, cx as int, y as int)]);
                    }
                }
            }
            x = x + 1;
        }
        y = y + 1;
        assert(samples.len() == y * width) by (nonlinear_arith)
            requires
                samples.len() == (y - 1) * width + width,
        ;
    }
    assert(samples.len() == width * height) by (nonlinear_arith)
        requires
            samples.len() == height * width,
    ;
    Raster { width, height, samples }
}

/// Rendering is repeatable: two rasters of the same dimensions that were
/// rendered with the same `shade` hold the same samples, provided that
/// `shade` has one value for each pixel.
pub proof fn lemma_render_repeatable<F: Fn(u32, u32) -> u8>(shade: F, first: Grid, second: Grid)
    requires
        first.wf(),
        second.wf(),
        first.width == second.width,
        first.height == second.height,
        renders(shade, first),
        renders(shade, second),
        single_shade(shade),
    ensures
        first == second,
{
    let width = first.width as int;
    let height = first.height as int;
    assert forall|i: int| 0 <= i < first.samples.len() implies first.samples[i]
        == second.samples[i] by {
        let x = i % width;
        let y = i / width;
        vstd::arithmetic::div_mod::lemma_fundamental_div_mod(i, width);
        assert(0 <= x < width && 0 <= y < height) by (nonlinear_arith)
            requires
                0 <= i < width * height,
                0 < width,
                i == width * y + x,
                0 <= x < width,
        ;
        assert(cell(width, x, y) == i) by (nonlinear_arith)
            requires
                i == width * y + x,
                cell(width, x, y) == y * width + x,
        ;
        assert(first.at(x as u32 as int, y as u32 as int) == first.samples[i]);
        assert(second.at(x as u32 as int, y as u32 as int) == second.samples[i]);
    }
    assert(first.samples =~= second.samples);
}

} // verus!
