use vstd::prelude::*;
use crate::pixel::Pixel;

verus! {

/// The mathematical value of an image: its size and its pixels in scan
/// order, row after row, each row from left to right.
pub struct Grid {
    pub width: nat,
    pub height: nat,
    pub pixels: Seq<Pixel>,
}

impl Grid {
    /// A grid is well formed when its pixels fill its rows exactly.
    pub open spec fn wf(self) -> bool {
        self.pixels.len() == self.width * self.height
    }

    /// The pixel in column `x` of row `y`.
    pub open spec fn at(self, x: int, y: int) -> Pixel
        recommends
            self.wf(),
            0 <= x < self.width,
            0 <= y < self.height,
    {
        self.pixels[y * self.width + x]
    }

    /// Row `y`, from left to right.
    pub open spec fn row(self, y: int) -> Seq<Pixel>
        recommends
            self.wf(),
            0 <= y < self.height,
    {
        Seq::new(self.width, |x: int| self.pixels[y * self.width + x])
    }

    /// Have two grids the same width and the same height?
    pub open spec fn same_size(self, other: Grid) -> bool {
        self.width == other.width && self.height == other.height
    }
}

/// Row `y` of a grid lies inside the grid, and the next row starts where
/// it ends.
pub proof fn lemma_row_in_grid(width: nat, height: nat, y: int)
    requires
        0 <= y < height,
    ensures
        0 <= y * width,
        y * width + width <= width * height,
        (y + 1) * width == y * width + width,
{
    assert(y * width + width <= width * height && y * width >= 0 && (y + 1) * width == y * width
        + width) by (nonlinear_arith)
        requires
            0 <= y < height,
            0 <= width,
    ;
}

/// The scan-order position of column `x` in row `y` lies inside the grid.
pub proof fn lemma_position_in_grid(width: nat, height: nat, x: int, y: int)
    requires
        0 <= x < width,
        0 <= y < height,
    ensures
        0 <= y * width + x < width * height,
{
    lemma_row_in_grid(width, height, y);
}

/// An image held in memory: `width * height` RGBA pixels in scan order.
#[derive(Debug)]
pub struct Image {
    width: u32,
    height: u32,
    pixels: Vec<Pixel>,
}

impl View for Image {
    type V = Grid;

    closed spec fn view(&self) -> Grid {
        Grid { width: self.width as nat, height: self.height as nat, pixels: self.pixels@ }
    }
}

impl Image {
    /// An image is well formed when its pixels fill its rows exactly.
    #[verifier::type_invariant]
    pub closed spec fn wf(&self) -> bool {
        self.pixels@.len() == self.width * self.height
    }

    /// What well-formedness says of the value.
    pub proof fn lemma_wf(&self)
        requires
            self.wf(),
        ensures
            self@.wf(),
            self@.width <= u32::MAX,
            self@.height <= u32::MAX,
            self@.pixels.len() <= usize::MAX,
    {
        assert(self.pixels@.len() == self.pixels.len());
    }

    /// An image of the given size over the given pixels, or nothing where
    /// the pixels do not fill `width * height` exactly.
    pub fn new(width: u32, height: u32, pixels: Vec<Pixel>) -> (img: Option<Image>)
        ensures
            img is Some <==> pixels@.len() == width * height,
            img matches Some(i) ==> i@ == (Grid {
                width: width as nat,
                height: height as nat,
                pixels: pixels@,
            }),
    {
        assert(width * height <= 0xffff_ffff * 0xffff_ffff) by (nonlinear_arith)
            requires
                0 <= width <= 0xffff_ffff,
                0 <= height <= 0xffff_ffff,
        ;
        let count: u64 = (width as u64) * (height as u64);
        if pixels.len() as u64 == count {
            Some(Image { width, height, pixels })
        } else {
            None
        }
    }

    /// The number of columns.
    pub fn width(&self) -> (w: u32)
        ensures
            w == self@.width,
    {
        self.width
    }

    /// The number of rows.
    pub fn height(&self) -> (h: u32)
        ensures
            h == self@.height,
    {
        self.height
    }

    /// The width and the height.
    pub fn dimensions(&self) -> (d: (u32, u32))
        ensures
            d.0 == self@.width,
            d.1 == self@.height,
    {
        (self.width, self.height)
    }

    /// The pixels in scan order.
    pub fn pixels(&self) -> (p: &Vec<Pixel>)
        ensures
            p@ == self@.pixels,
            self@.wf(),
    {
        proof {
            use_type_invariant(self);
        }
        &self.pixels
    }

    /// The pixels in scan order, taken out of the image.
    pub fn into_pixels(self) -> (p: Vec<Pixel>)
        ensures
            p@ == self@.pixels,
            self@.wf(),
    {
        proof {
            use_type_invariant(&self);
        }
        self.pixels
    }

    /// The pixel in column `x` of row `y`, or nothing outside the image.
    pub fn get_pixel(&self, x: u32, y: u32) -> (p: Option<Pixel>)
        ensures
            p is Some <==> x < self@.width && y < self@.height,
            p matches Some(q) ==> q == self@.at(x as int, y as int),
    {
        proof {
            use_type_invariant(self);
        }
        if x < self.width && y < self.height {
            proof {
                lemma_position_in_grid(self.width as nat, self.height as nat, x as int, y as int);
            }
            assert(self.pixels@.len() == self.pixels.len());
            let index: usize = (y as usize) * (self.width as usize) + (x as usize);
            Some(self.pixels[index])
        } else {
            None
        }
    }

    /// Puts `pixel` in column `x` of row `y`. Outside the image nothing
    /// changes, and the answer is `false`.
    pub fn put_pixel(&mut self, x: u32, y: u32, pixel: Pixel) -> (done: bool)
        ensures
            done <==> x < old(self)@.width && y < old(self)@.height,
            done ==> final(self)@ == (Grid {
                width: old(self)@.width,
                height: old(self)@.height,
                pixels: old(self)@.pixels.update(y * old(self)@.width + x, pixel),
            }),
            !done ==> final(self)@ == old(self)@,
    {
        proof {
            use_type_invariant(&*self);
        }
        if x < self.width && y < self.height {
            proof {
                lemma_position_in_grid(self.width as nat, self.height as nat, x as int, y as int);
                assert(self.pixels@.len() == self.pixels.len());
            }
            let index: usize = (y as usize) * (self.width as usize) + (x as usize);
            self.pixels[index] = pixel;
            true
        } else {
            false
        }
    }

    /// A second image with the same size and pixels.
    pub fn duplicate(&self) -> (img: Image)
        ensures
            img@ == self@,
    {
        proof {
            use_type_invariant(self);
        }
        let mut pixels: Vec<Pixel> = Vec::new();
        let mut k: usize = 0;
        while k < self.pixels.len()
            invariant
                k <= self.pixels.len(),
                pixels@ == self.pixels@.subrange(0, k as int),
            decreases self.pixels.len() - k,
        {
            pixels.push(self.pixels[k]);
            k += 1;
            assert(pixels@ =~= self.pixels@.subrange(0, k as int));
        }
        assert(pixels@ =~= self.pixels@);
        Image { width: self.width, height: self.height, pixels }
    }
}

} // verus!
