//! A decoded raster of elevation samples.

use vstd::prelude::*;
use crate::error::DemError;

verus! {

/// What a raster is: its dimensions and its samples, row by row.
pub struct RasterView {
    pub width: u32,
    pub height: u32,
    pub samples: Seq<u16>,
}

impl RasterView {
    /// There is one sample for each pixel.
    pub open spec fn wf(self) -> bool {
        self.samples.len() == self.width * self.height
    }

    /// Whether `(x, y)` names a pixel of the raster.
    pub open spec fn in_bounds(self, x: int, y: int) -> bool {
        0 <= x < self.width && 0 <= y < self.height
    }

    /// The sample of pixel `(x, y)`.
    pub open spec fn sample(self, x: int, y: int) -> u16 {
        self.samples[y * self.width + x]
    }
}

/// A raster of elevation samples, one per pixel, stored row by row. Each
/// sample is the bit pattern of a half-precision number.
#[derive(Debug, PartialEq, Eq)]
pub struct Raster {
    width: u32,
    height: u32,
    samples: Vec<u16>,
}

impl View for Raster {
    type V = RasterView;

    closed spec fn view(&self) -> RasterView {
        RasterView { width: self.width, height: self.height, samples: self.samples@ }
    }
}

/// The position of pixel `(x, y)` in a grid of `width` columns stored row by
/// row is below the grid's size.
pub proof fn lemma_cell_index_in_grid(x: int, y: int, width: int, height: int)
    requires
        0 <= x < width,
        0 <= y < height,
    ensures
        0 <= y * width + x < width * height,
        (y * width + x) / width == y,
        (y * width + x) % width == x,
{
    crate::layout::lemma_row_major_index(x, y, width, height);
}

impl Clone for Raster {
    /// A raster of its own with the same dimensions and samples.
    fn clone(&self) -> (copy: Self)
        ensures
            copy@ == self@,
    {
        proof {
            use_type_invariant(self);
        }
        let samples = self.samples.clone();
        assert(samples@ =~= self.samples@);
        Raster { width: self.width, height: self.height, samples }
    }
}

impl Raster {
    /// What every raster keeps to: there is one sample for each pixel.
    #[verifier::type_invariant]
    spec fn inv(&self) -> bool {
        self.samples@.len() == self.width * self.height
    }

    /// There is one sample for each pixel. This holds of every raster; the
    /// functions that read one say so.
    pub open spec fn wf(&self) -> bool {
        self@.wf()
    }

    /// The raster of `width` by `height` pixels with the given samples, row
    /// by row. Refused when the samples do not fill the dimensions.
    pub fn new(width: u32, height: u32, samples: Vec<u16>) -> (r: Result<Raster, DemError>)
        ensures
            match r {
                Ok(raster) => {
                    &&& samples@.len() == width * height
                    &&& raster@ == (RasterView { width, height, samples: samples@ })
                    &&& raster.wf()
                },
                Err(e) => e == DemError::DecodeFailure && samples@.len() != width * height,
            },
    {
        assert(width * height <= 0xffff_ffff * 0xffff_ffff) by (nonlinear_arith)
            requires
                width <= 0xffff_ffff,
                height <= 0xffff_ffff,
        ;
        let pixels: u64 = (width as u64) * (height as u64);
        if samples.len() as u64 != pixels {
            return Err(DemError::DecodeFailure);
        }
        Ok(Raster { width, height, samples })
    }

    /// Width in pixels. A raster is held in memory, so it has no more pixels
    /// than memory has places.
    pub fn width(&self) -> (w: u32)
        ensures
            w == self@.width,
            self.wf(),
            self@.width * self@.height <= usize::MAX,
    {
        proof {
            use_type_invariant(self);
            assert(self.samples.len() == self.samples@.len());
        }
        self.width
    }

    /// Height in pixels. A raster is held in memory, so it has no more
    /// pixels than memory has places.
    pub fn height(&self) -> (h: u32)
        ensures
            h == self@.height,
            self.wf(),
            self@.width * self@.height <= usize::MAX,
    {
        proof {
            use_type_invariant(self);
            assert(self.samples.len() == self.samples@.len());
        }
        self.height
    }

    /// The sample of pixel `(x, y)`. Refused when the raster has no such
    /// pixel.
    pub fn sample(&self, x: u32, y: u32) -> (r: Result<u16, DemError>)
        ensures
            r == if self@.in_bounds(x as int, y as int) {
                Ok::<u16, DemError>(self@.sample(x as int, y as int))
            } else {
                Err::<u16, DemError>(DemError::IndexOutOfBounds)
            },
            self.wf(),
    {
        proof {
            use_type_invariant(self);
        }
        if x >= self.width || y >= self.height {
            return Err(DemError::IndexOutOfBounds);
        }
        proof {
            lemma_cell_index_in_grid(x as int, y as int, self.width as int, self.height as int);
            assert(0 <= y * self.width) by (nonlinear_arith)
                requires
                    0 <= y,
                    0 <= self.width,
            ;
            assert(self.samples.len() == self.width * self.height);
        }
        let i: usize = (y as usize) * (self.width as usize) + (x as usize);
        Ok(self.samples[i])
    }
}

} // verus!
