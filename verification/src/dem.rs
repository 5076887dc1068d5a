//! One chunk of a digital elevation model.

use vstd::prelude::*;
use crate::chunking::{
    blank, chunks_of, filled, holds_tile, lemma_cell_position, lemma_fill_step,
    lemma_filled_ends_whole, lemma_filled_holds_tile, lemma_filled_starts_blank,
    lemma_row_major_order, lemma_tiles_fit,
};
use crate::error::DemError;
use crate::layout::{lemma_row_major_index, min_int, TileLayout};
use crate::profile::DemProfile;
use crate::raster::{lemma_cell_index_in_grid, Raster};

verus! {

/// The four samples around a point of a chunk, for bilinear interpolation.
///
/// `(x0, y0)` is the pixel at or before the point, `(x1, y1)` the next one
/// along each axis, held back at the chunk's last column and row. `v00`,
/// `v10`, `v01` and `v11` are the samples of `(x0, y0)`, `(x1, y0)`,
/// `(x0, y1)` and `(x1, y1)`.
#[derive(Clone, Copy, Debug, PartialEq, Eq, Structural)]
pub struct BilinearCell {
    pub x0: u32,
    pub y0: u32,
    pub x1: u32,
    pub y1: u32,
    pub v00: u16,
    pub v10: u16,
    pub v01: u16,
    pub v11: u16,
}

/// What a chunk is: where it lies in the mosaic, its size, the mosaic's
/// profile and its samples, row by row.
pub struct DemView {
    pub x_offset: u32,
    pub y_offset: u32,
    pub width: u32,
    pub height: u32,
    pub profile: DemProfile,
    pub grid: Seq<u16>,
}

impl DemView {
    /// There is one sample for each pixel.
    pub open spec fn wf(self) -> bool {
        self.grid.len() == self.width * self.height
    }

    /// Whether `(x, y)` names a pixel of the chunk.
    pub open spec fn in_bounds(self, x: int, y: int) -> bool {
        0 <= x < self.width && 0 <= y < self.height
    }

    /// The sample of pixel `(x, y)`.
    pub open spec fn sample(self, x: int, y: int) -> u16 {
        self.grid[y * self.width + x]
    }

    /// The samples around `(x, y)`, with each coordinate held back at the
    /// chunk's last column and row.
    pub open spec fn cell(self, x: int, y: int) -> BilinearCell {
        let x0 = min_int(x, self.width - 1);
        let y0 = min_int(y, self.height - 1);
        let x1 = min_int(x0 + 1, self.width - 1);
        let y1 = min_int(y0 + 1, self.height - 1);
        BilinearCell {
            x0: x0 as u32,
            y0: y0 as u32,
            x1: x1 as u32,
            y1: y1 as u32,
            v00: self.sample(x0, y0),
            v10: self.sample(x1, y0),
            v01: self.sample(x0, y1),
            v11: self.sample(x1, y1),
        }
    }
}

/// No read of a cell leaves the chunk: whatever point is asked for, the four
/// pixels of its cell are pixels of the chunk.
pub proof fn lemma_cell_stays_in_chunk(chunk: DemView, x: int, y: int)
    requires
        chunk.width > 0,
        chunk.height > 0,
        0 <= x,
        0 <= y,
    ensures
        ({
            let cell = chunk.cell(x, y);
            &&& chunk.in_bounds(cell.x0 as int, cell.y0 as int)
            &&& chunk.in_bounds(cell.x1 as int, cell.y1 as int)
            &&& cell.x0 <= cell.x1 <= cell.x0 + 1
            &&& cell.y0 <= cell.y1 <= cell.y0 + 1
            &&& cell.v00 == chunk.sample(cell.x0 as int, cell.y0 as int)
            &&& cell.v10 == chunk.sample(cell.x1 as int, cell.y0 as int)
            &&& cell.v01 == chunk.sample(cell.x0 as int, cell.y1 as int)
            &&& cell.v11 == chunk.sample(cell.x1 as int, cell.y1 as int)
        }),
{
}

/// The cell of a pixel of the chunk starts at that pixel: its first sample is
/// the pixel's own.
pub proof fn lemma_cell_starts_at_pixel(chunk: DemView, x: int, y: int)
    requires
        chunk.in_bounds(x, y),
    ensures
        chunk.cell(x, y).x0 == x,
        chunk.cell(x, y).y0 == y,
        chunk.cell(x, y).v00 == chunk.sample(x, y),
{
}

/// At the chunk's last pixel, and beyond it, all four samples of the cell are
/// the last pixel's.
pub proof fn lemma_cell_at_far_corner(chunk: DemView, x: int, y: int)
    requires
        chunk.width > 0,
        chunk.height > 0,
        x >= chunk.width - 1,
        y >= chunk.height - 1,
    ensures
        ({
            let cell = chunk.cell(x, y);
            let last = chunk.sample(chunk.width - 1, chunk.height - 1);
            &&& cell.x0 == chunk.width - 1 && cell.x1 == chunk.width - 1
            &&& cell.y0 == chunk.height - 1 && cell.y1 == chunk.height - 1
            &&& cell.v00 == last && cell.v10 == last && cell.v01 == last && cell.v11 == last
        }),
{
}

/// In a chunk of one column, a cell has the same sample on its left and on
/// its right, whatever column is asked for: the sample of column 0.
pub proof fn lemma_cell_in_single_column(chunk: DemView, x: int, y: int)
    requires
        chunk.width == 1,
        chunk.height > 0,
        0 <= x,
        0 <= y,
    ensures
        ({
            let cell = chunk.cell(x, y);
            &&& cell.x0 == 0 && cell.x1 == 0
            &&& cell.v00 == chunk.sample(0, cell.y0 as int) && cell.v10 == cell.v00
            &&& cell.v01 == chunk.sample(0, cell.y1 as int) && cell.v11 == cell.v01
        }),
{
}

/// In a chunk of one row, a cell has the same sample above and below,
/// whatever row is asked for: the sample of row 0.
pub proof fn lemma_cell_in_single_row(chunk: DemView, x: int, y: int)
    requires
        chunk.width > 0,
        chunk.height == 1,
        0 <= x,
        0 <= y,
    ensures
        ({
            let cell = chunk.cell(x, y);
            &&& cell.y0 == 0 && cell.y1 == 0
            &&& cell.v00 == chunk.sample(cell.x0 as int, 0) && cell.v01 == cell.v00
            &&& cell.v10 == chunk.sample(cell.x1 as int, 0) && cell.v11 == cell.v10
        }),
{
}

/// A rectangular piece of an elevation mosaic. Each sample is the bit
/// pattern of a half-precision number, a fraction of the profile's greatest
/// elevation.
#[derive(Debug, PartialEq, Eq)]
pub struct Dem {
    x_offset: u32,
    y_offset: u32,
    width: u32,
    height: u32,
    profile: DemProfile,
    dem: Vec<u16>,
}

impl View for Dem {
    type V = DemView;

    closed spec fn view(&self) -> DemView {
        DemView {
            x_offset: self.x_offset,
            y_offset: self.y_offset,
            width: self.width,
            height: self.height,
            profile: self.profile,
            grid: self.dem@,
        }
    }
}

impl Clone for Dem {
    /// A chunk of its own with the same place, size, profile and samples.
    fn clone(&self) -> (copy: Self)
        ensures
            copy@ == self@,
    {
        proof {
            use_type_invariant(self);
        }
        let dem = self.dem.clone();
        assert(dem@ =~= self.dem@);
        Dem {
            x_offset: self.x_offset,
            y_offset: self.y_offset,
            width: self.width,
            height: self.height,
            profile: self.profile,
            dem,
        }
    }
}

impl Dem {
    /// What every chunk keeps to: there is one sample for each pixel.
    #[verifier::type_invariant]
    spec fn inv(&self) -> bool {
        self.dem@.len() == self.width * self.height
    }

    /// There is one sample for each pixel. This holds of every chunk; the
    /// functions that read one say so.
    pub open spec fn wf(&self) -> bool {
        self@.wf()
    }

    /// The chunk of `width` by `height` pixels at `(x_offset, y_offset)` of
    /// the mosaic, with the given samples, row by row. Refused when the
    /// samples do not fill the dimensions.
    pub fn from_parts(
        x_offset: u32,
        y_offset: u32,
        width: u32,
        height: u32,
        profile: DemProfile,
        grid: Vec<u16>,
    ) -> (r: Result<Dem, DemError>)
        ensures
            match r {
                Ok(chunk) => {
                    &&& grid@.len() == width * height
                    &&& chunk@ == (DemView {
                        x_offset,
                        y_offset,
                        width,
                        height,
                        profile,
                        grid: grid@,
                    })
                    &&& chunk.wf()
                },
                Err(e) => e == DemError::CorruptChunk && grid@.len() != width * height,
            },
    {
        assert(width * height <= 0xffff_ffff * 0xffff_ffff) by (nonlinear_arith)
            requires
                width <= 0xffff_ffff,
                height <= 0xffff_ffff,
        ;
        let pixels: u64 = (width as u64) * (height as u64);
        if grid.len() as u64 != pixels {
            return Err(DemError::CorruptChunk);
        }
        Ok(Dem { x_offset, y_offset, width, height, profile, dem: grid })
    }

    /// Width in pixels.
    pub fn width(&self) -> (w: u32)
        ensures
            w == self@.width,
            self.wf(),
    {
        proof {
            use_type_invariant(self);
        }
        self.width
    }

    /// Column of the mosaic at which the chunk starts.
    pub fn width_offset(&self) -> (x: u32)
        ensures
            x == self@.x_offset,
    {
        self.x_offset
    }

    /// Height in pixels.
    pub fn height(&self) -> (h: u32)
        ensures
            h == self@.height,
            self.wf(),
    {
        proof {
            use_type_invariant(self);
        }
        self.height
    }

    /// Row of the mosaic at which the chunk starts.
    pub fn height_offset(&self) -> (y: u32)
        ensures
            y == self@.y_offset,
    {
        self.y_offset
    }

    /// The profile of the mosaic that the chunk was cut from.
    pub fn profile(&self) -> (p: DemProfile)
        ensures
            p == self@.profile,
    {
        self.profile
    }

    /// The samples, row by row.
    pub fn grid(&self) -> (g: &Vec<u16>)
        ensures
            g@ == self@.grid,
            self.wf(),
    {
        proof {
            use_type_invariant(self);
        }
        &self.dem
    }

    /// Reads the sample of a pixel that the chunk holds.
    fn read(&self, x: u32, y: u32) -> (v: u16)
        requires
            self@.in_bounds(x as int, y as int),
        ensures
            v == self@.sample(x as int, y as int),
    {
        proof {
            use_type_invariant(self);
            lemma_cell_index_in_grid(x as int, y as int, self.width as int, self.height as int);
            assert(0 <= y * self.width) by (nonlinear_arith)
                requires
                    0 <= y,
                    0 <= self.width,
            ;
            assert(self.dem.len() == self.width * self.height);
        }
        let i: usize = (y as usize) * (self.width as usize) + (x as usize);
        self.dem[i]
    }

    /// The elevation at pixel `(x, y)` as the chunk stores it: the sample of
    /// the pixel. Refused when the chunk has no such pixel.
    pub fn get_elevation(&self, x: u32, y: u32) -> (r: Result<u16, DemError>)
        ensures
            r == if self@.in_bounds(x as int, y as int) {
                Ok::<u16, DemError>(self@.sample(x as int, y as int))
            } else {
                Err::<u16, DemError>(DemError::IndexOutOfBounds)
            },
            self.wf(),
    {
        proof {
            use_type_invariant(self);
        }
        if x >= self.width || y >= self.height {
            return Err(DemError::IndexOutOfBounds);
        }
        Ok(self.read(x, y))
    }

    /// The four samples around `(x, y)`, with each coordinate held back at
    /// the chunk's last column and row, so that no read leaves the chunk.
    /// Refused when the chunk has no pixel at all.
    pub fn bilinear_cell(&self, x: u32, y: u32) -> (r: Result<BilinearCell, DemError>)
        ensures
            r == if self@.width > 0 && self@.height > 0 {
                Ok::<BilinearCell, DemError>(self@.cell(x as int, y as int))
            } else {
                Err::<BilinearCell, DemError>(DemError::IndexOutOfBounds)
            },
            self.wf(),
    {
        proof {
            use_type_invariant(self);
        }
        if self.width == 0 || self.height == 0 {
            return Err(DemError::IndexOutOfBounds);
        }
        let last_x: u32 = self.width - 1;
        let last_y: u32 = self.height - 1;
        let x0: u32 = if x < last_x {
            x
        } else {
            last_x
        };
        let y0: u32 = if y < last_y {
            y
        } else {
            last_y
        };
        let x1: u32 = if x0 < last_x {
            x0 + 1
        } else {
            last_x
        };
        let y1: u32 = if y0 < last_y {
            y0 + 1
        } else {
            last_y
        };
        Ok(
            BilinearCell {
                x0,
                y0,
                x1,
                y1,
                v00: self.read(x0, y0),
                v10: self.read(x1, y0),
                v01: self.read(x0, y1),
                v11: self.read(x1, y1),
            },
        )
    }

    /// Cuts a decoded image into chunks of a nominal `chunk_width` by
    /// `chunk_height`, listed row by row. Each chunk starts out with all
    /// samples zero; then every pixel of the image is written to its place
    /// in the chunk that holds it. Refused when the image's dimensions are
    /// not those of the profile.
    pub fn load_chunks_from_image(
        image: &Raster,
        chunk_width: u32,
        chunk_height: u32,
        profile: DemProfile,
    ) -> (r: Result<Vec<Dem>, DemError>)
        requires
            chunk_width > 0,
            chunk_height > 0,
        ensures
            match r {
                Ok(chunks) => {
                    &&& image@.width == profile.width
                    &&& image@.height == profile.height
                    &&& views(chunks@) == chunks_of(image@, chunk_width, chunk_height, profile)
                    &&& forall|t: int| 0 <= t < chunks@.len() ==> (#[trigger] chunks@[t]).wf()
                },
                Err(e) => {
                    &&& e == DemError::DimensionMismatch
                    &&& image@.width != profile.width || image@.height != profile.height
                },
            },
    {
        let width: u32 = image.width();
        let height: u32 = image.height();
        if width != profile.width || height != profile.height {
            return Err(DemError::DimensionMismatch);
        }
        let layout = TileLayout::of_tiles(width, height, chunk_width, chunk_height);
        proof {
            lemma_tiles_fit(image@, layout@);
        }
        let mut chunks: Vec<Dem> = Self::blank_chunks(&layout, profile);
        proof {
            assert forall|tx: int, ty: int| #[trigger] layout@.is_tile(tx, ty) implies chunks@[
                layout@.index_of(tx, ty)
            ]@ == filled(image@, layout@, profile, tx, ty, 0) by {
                lemma_filled_starts_blank(image@, layout@, profile, tx, ty);
            }
        }
        let mut y: u32 = 0;
        while y < height
            invariant
                y <= height,
                image.wf(),
                layout@.wf(),
                layout@.total_width == width == image@.width,
                layout@.total_height == height == image@.height,
                layout@.chunk_width == chunk_width,
                layout@.chunk_height == chunk_height,
                chunks@.len() == layout@.tiles_x() * layout@.tiles_y(),
                forall|tx: int, ty: int| #[trigger]
                    layout@.is_tile(tx, ty) ==> chunks@[layout@.index_of(tx, ty)]@ == filled(
                        image@,
                        layout@,
                        profile,
                        tx,
                        ty,
                        y * width,
                    ),
            decreases height - y,
        {
            let mut x: u32 = 0;
            while x < width
                invariant
                    x <= width,
                    y < height,
                    image.wf(),
                    layout@.wf(),
                    layout@.total_width == width == image@.width,
                    layout@.total_height == height == image@.height,
                    layout@.chunk_width == chunk_width,
                    layout@.chunk_height == chunk_height,
                    chunks@.len() == layout@.tiles_x() * layout@.tiles_y(),
                    forall|tx: int, ty: int| #[trigger]
                        layout@.is_tile(tx, ty) ==> chunks@[layout@.index_of(tx, ty)]@ == filled(
                            image@,
                            layout@,
                            profile,
                            tx,
                            ty,
                            y * width + x,
                        ),
                decreases width - x,
            {
                let value: u16 = match image.sample(x, y) {
                    Ok(v) => v,
                    Err(e) => {
                        return Err(e);
                    },
                };
                let ghost before = chunks@;
                proof {
                    assert forall|tx: int, ty: int| #[trigger]
                        layout@.is_tile(tx, ty) implies holds_tile(
                        before[layout@.index_of(tx, ty)]@,
                        layout@,
                        tx,
                        ty,
                    ) by {
                        lemma_filled_holds_tile(image@, layout@, profile, tx, ty, y * width + x);
                    }
                }
                Self::write_pixel(&mut chunks, &layout, x, y, value);
                proof {
                    let own_x = x as int / chunk_width as int;
                    let own_y = y as int / chunk_height as int;
                    layout@.lemma_pixel_has_one_tile(x as int, y as int);
                    assert forall|tx: int, ty: int| #[trigger]
                        layout@.is_tile(tx, ty) implies chunks@[layout@.index_of(tx, ty)]@
                        == filled(
                        image@,
                        layout@,
                        profile,
                        tx,
                        ty,
                        y * width + x + 1,
                    ) by {
                        lemma_fill_step(image@, layout@, profile, tx, ty, x as int, y as int);
                        lemma_row_major_index(tx, ty, layout@.tiles_x(), layout@.tiles_y());
                        lemma_row_major_index(own_x, own_y, layout@.tiles_x(), layout@.tiles_y());
                        if tx == own_x && ty == own_y {
                            assert(chunks@[layout@.index_of(tx, ty)]@.grid =~= filled(
                                image@,
                                layout@,
                                profile,
                                tx,
                                ty,
                                y * width + x + 1,
                            ).grid);
                        }
                    }
                }
                x += 1;
            }
            proof {
                assert(y * width + width == (y + 1) * width) by (nonlinear_arith);
            }
            y += 1;
        }
        proof {
            let want = chunks_of(image@, chunk_width, chunk_height, profile);
            assert forall|t: int| 0 <= t < chunks@.len() implies (#[trigger] chunks@[t])@
                == want[t] && chunks@[t].wf() by {
                let nx = layout@.tiles_x();
                let ny = layout@.tiles_y();
                lemma_cell_position(t, nx, ny);
                lemma_filled_ends_whole(image@, layout@, profile, t % nx, t / nx);
                assert(layout@.is_tile(t % nx, t / nx));
                assert(layout@.index_of(t % nx, t / nx) == t);
            }
            assert(views(chunks@) =~= want);
        }
        Ok(chunks)
    }

    /// One chunk for each tile of the layout, listed row by row, with all
    /// samples zero.
    fn blank_chunks(layout: &TileLayout, profile: DemProfile) -> (chunks: Vec<Dem>)
        requires
            layout@.total_width * layout@.total_height <= usize::MAX,
        ensures
            chunks@.len() == layout@.tiles_x() * layout@.tiles_y(),
            forall|tx: int, ty: int| #[trigger]
                layout@.is_tile(tx, ty) ==> chunks@[layout@.index_of(tx, ty)]@ == blank(
                    layout@,
                    profile,
                    tx,
                    ty,
                ),
    {
        let nx: u32 = layout.num_tiles_x();
        let ny: u32 = layout.num_tiles_y();
        let mut chunks: Vec<Dem> = Vec::new();
        let mut ty: u32 = 0;
        while ty < ny
            invariant
                ty <= ny,
                layout@.wf(),
                layout@.total_width * layout@.total_height <= usize::MAX,
                nx == layout@.tiles_x(),
                ny == layout@.tiles_y(),
                chunks@.len() == ty * nx,
                forall|ux: int, uy: int|
                    #![trigger layout@.is_tile(ux, uy)]
                    layout@.is_tile(ux, uy) && uy < ty ==> chunks@[layout@.index_of(ux, uy)]@
                        == blank(layout@, profile, ux, uy),
            decreases ny - ty,
        {
            let mut tx: u32 = 0;
            while tx < nx
                invariant
                    tx <= nx,
                    ty < ny,
                    layout@.wf(),
                    layout@.total_width * layout@.total_height <= usize::MAX,
                    nx == layout@.tiles_x(),
                    ny == layout@.tiles_y(),
                    chunks@.len() == ty * nx + tx,
                    forall|ux: int, uy: int|
                        #![trigger layout@.is_tile(ux, uy)]
                        layout@.is_tile(ux, uy) && (uy < ty || (uy == ty && ux < tx))
                            ==> chunks@[layout@.index_of(ux, uy)]@ == blank(
                            layout@,
                            profile,
                            ux,
                            uy,
                        ),
                decreases nx - tx,
            {
                let rect = match layout.tile_rect(tx, ty) {
                    Some(rect) => rect,
                    None => {
                        return chunks;
                    },
                };
                let w: u32 = rect.width();
                let h: u32 = rect.height();
                proof {
                    assert(0 <= w * h <= layout@.total_width * layout@.total_height)
                        by (nonlinear_arith)
                        requires
                            0 <= w <= layout@.total_width,
                            0 <= h <= layout@.total_height,
                    ;
                }
                let cells: usize = (w as usize) * (h as usize);
                let grid: Vec<u16> = vec![0u16; cells];
                let chunk = Dem {
                    x_offset: rect.x_start,
                    y_offset: rect.y_start,
                    width: w,
                    height: h,
                    profile,
                    dem: grid,
                };
                proof {
                    assert(chunk@.grid =~= blank(layout@, profile, tx as int, ty as int).grid);
                    assert(chunk@ == blank(layout@, profile, tx as int, ty as int));
                    assert forall|ux: int, uy: int|
                        layout@.is_tile(ux, uy) && (uy < ty || (uy == ty && ux < tx))
                        implies #[trigger] layout@.index_of(ux, uy) < ty * nx + tx by {
                        lemma_row_major_order(ux, uy, tx as int, ty as int, nx as int);
                    }
                }
                chunks.push(chunk);
                tx += 1;
            }
            proof {
                assert(ty * nx + nx == (ty + 1) * nx) by (nonlinear_arith);
            }
            ty += 1;
        }
        proof {
            assert(ny * nx == nx * ny) by (nonlinear_arith);
        }
        chunks
    }

    /// Writes the sample of pixel `(x, y)` of the image to its place in the
    /// chunk that holds it.
    fn write_pixel(chunks: &mut Vec<Dem>, layout: &TileLayout, x: u32, y: u32, value: u16)
        requires
            layout@.in_raster(x as int, y as int),
            old(chunks)@.len() == layout@.tiles_x() * layout@.tiles_y(),
            forall|tx: int, ty: int| #[trigger]
                layout@.is_tile(tx, ty) ==> holds_tile(
                    old(chunks)@[layout@.index_of(tx, ty)]@,
                    layout@,
                    tx,
                    ty,
                ),
        ensures
            final(chunks)@.len() == old(chunks)@.len(),
            ({
                let tx = x as int / layout@.chunk_width as int;
                let ty = y as int / layout@.chunk_height as int;
                let owner = layout@.index_of(tx, ty);
                let chunk = old(chunks)@[owner]@;
                let cell = (y - chunk.y_offset) * chunk.width + (x - chunk.x_offset);
                &&& 0 <= owner < old(chunks)@.len()
                &&& 0 <= cell < chunk.grid.len()
                &&& final(chunks)@[owner]@ == (DemView {
                    grid: chunk.grid.update(cell, value),
                    ..chunk
                })
                &&& forall|i: int|
                    0 <= i < old(chunks)@.len() && i != owner ==> final(chunks)@[i] == old(
                        chunks,
                    )@[i]
            }),
    {
        let nx: u32 = layout.num_tiles_x();
        let tx: u32 = x / layout.chunk_width();
        let ty: u32 = y / layout.chunk_height();
        proof {
            layout@.lemma_pixel_has_one_tile(x as int, y as int);
            layout@.lemma_tile_in_raster(tx as int, ty as int);
            lemma_row_major_index(tx as int, ty as int, layout@.tiles_x(), layout@.tiles_y());
            assert(0 <= ty * nx) by (nonlinear_arith)
                requires
                    0 <= ty,
                    0 <= nx,
            ;
            assert(chunks.len() == layout@.tiles_x() * layout@.tiles_y());
            assert(layout@.is_tile(tx as int, ty as int));
        }
        let owner: usize = (ty as usize) * (nx as usize) + (tx as usize);
        let chunk: &mut Dem = &mut chunks[owner];
        let local_x: u32 = x - chunk.x_offset;
        let local_y: u32 = y - chunk.y_offset;
        proof {
            lemma_cell_index_in_grid(
                local_x as int,
                local_y as int,
                chunk.width as int,
                chunk.height as int,
            );
            assert(0 <= local_y * chunk.width) by (nonlinear_arith)
                requires
                    0 <= local_y,
                    0 <= chunk.width,
            ;
            assert(chunk.dem.len() == chunk.width * chunk.height);
        }
        let cell: usize = (local_y as usize) * (chunk.width as usize) + (local_x as usize);
        chunk.dem[cell] = value;
    }
}

/// What each chunk is.
pub open spec fn views(chunks: Seq<Dem>) -> Seq<DemView> {
    chunks.map_values(|chunk: Dem| chunk@)
}

} // verus!
