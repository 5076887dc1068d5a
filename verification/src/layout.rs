//! Partition of a raster into rectangular tiles.
//!
//! A raster of `total_width` by `total_height` pixels is cut into tiles of a
//! nominal `chunk_width` by `chunk_height`. The nominal size need not divide
//! the raster: the last column and the last row of tiles are cut off at the
//! raster's edge. Tiles are numbered row by row.

use vstd::prelude::*;

verus! {

/// `a / b`, rounded up.
pub open spec fn ceil_div(a: int, b: int) -> int {
    (a + b - 1) / b
}

/// The smaller of two integers.
pub open spec fn min_int(a: int, b: int) -> int {
    if a <= b {
        a
    } else {
        b
    }
}

/// `ceil_div(a, b)` is the least number of parts of size `b` that hold `a`.
pub proof fn lemma_ceil_div_is_least(a: int, b: int)
    requires
        0 <= a,
        0 < b,
    ensures
        0 <= ceil_div(a, b) <= a,
        ceil_div(a, b) * b >= a,
        (ceil_div(a, b) - 1) * b < a,
        ceil_div(a, b) == if a % b == 0 {
            a / b
        } else {
            a / b + 1
        },
{
    let q = ceil_div(a, b);
    let r = (a + b - 1) % b;
    assert(a + b - 1 == q * b + r && 0 <= r < b) by (nonlinear_arith)
        requires
            0 < b,
            q == (a + b - 1) / b,
            r == (a + b - 1) % b,
    ;
    assert(q * b >= a && (q - 1) * b < a) by (nonlinear_arith)
        requires
            a + b - 1 == q * b + r,
            0 <= r < b,
    ;
    assert(0 <= q <= a) by (nonlinear_arith)
        requires
            0 <= a,
            0 < b,
            q * b >= a,
            (q - 1) * b < a,
    ;
    let d = a / b;
    let m = a % b;
    assert(a == d * b + m && 0 <= m < b) by (nonlinear_arith)
        requires
            0 < b,
            d == a / b,
            m == a % b,
    ;
    assert(q == if m == 0 {
        d
    } else {
        d + 1
    }) by (nonlinear_arith)
        requires
            0 < b,
            a == d * b + m,
            0 <= m < b,
            q * b >= a,
            (q - 1) * b < a,
    ;
}

/// `x / b` is the one `t` with `t * b <= x < (t + 1) * b`.
pub proof fn lemma_div_is_unique_slot(x: int, b: int, t: int)
    requires
        0 < b,
    ensures
        (t * b <= x < (t + 1) * b) <==> t == x / b,
{
    let d = x / b;
    let m = x % b;
    assert(x == d * b + m && 0 <= m < b) by (nonlinear_arith)
        requires
            0 < b,
            d == x / b,
            m == x % b,
    ;
    assert((t * b <= x < (t + 1) * b) <==> t == d) by (nonlinear_arith)
        requires
            0 < b,
            x == d * b + m,
            0 <= m < b,
    ;
}

/// A rectangle of pixels: columns `x_start..x_end`, rows `y_start..y_end`.
#[derive(Clone, Copy, Debug, PartialEq, Eq, Structural)]
pub struct TileRect {
    pub x_start: u32,
    pub x_end: u32,
    pub y_start: u32,
    pub y_end: u32,
}

impl TileRect {
    /// Number of columns; none when the range of columns runs backwards.
    pub open spec fn columns(self) -> int {
        if self.x_start <= self.x_end {
            self.x_end - self.x_start
        } else {
            0
        }
    }

    /// Number of rows; none when the range of rows runs backwards.
    pub open spec fn rows(self) -> int {
        if self.y_start <= self.y_end {
            self.y_end - self.y_start
        } else {
            0
        }
    }

    /// Number of columns.
    pub fn width(&self) -> (w: u32)
        ensures
            w == self.columns(),
    {
        if self.x_start <= self.x_end {
            self.x_end - self.x_start
        } else {
            0
        }
    }

    /// Number of rows.
    pub fn height(&self) -> (h: u32)
        ensures
            h == self.rows(),
    {
        if self.y_start <= self.y_end {
            self.y_end - self.y_start
        } else {
            0
        }
    }
}

/// What a layout is: the dimensions of a raster and the nominal size of its
/// tiles.
pub struct TileLayoutView {
    pub total_width: u32,
    pub total_height: u32,
    pub chunk_width: u32,
    pub chunk_height: u32,
}

impl TileLayoutView {
    /// A layout is usable when its tiles have a positive nominal size.
    pub open spec fn wf(self) -> bool {
        self.chunk_width > 0 && self.chunk_height > 0
    }

    /// Number of tile columns.
    pub open spec fn tiles_x(self) -> int {
        ceil_div(self.total_width as int, self.chunk_width as int)
    }

    /// Number of tile rows.
    pub open spec fn tiles_y(self) -> int {
        ceil_div(self.total_height as int, self.chunk_height as int)
    }

    /// Whether `(tx, ty)` names a tile of the layout.
    pub open spec fn is_tile(self, tx: int, ty: int) -> bool {
        0 <= tx < self.tiles_x() && 0 <= ty < self.tiles_y()
    }

    /// Whether `(x, y)` names a pixel of the raster.
    pub open spec fn in_raster(self, x: int, y: int) -> bool {
        0 <= x < self.total_width && 0 <= y < self.total_height
    }

    /// First column of tile column `tx`.
    pub open spec fn x_start(self, tx: int) -> int {
        tx * self.chunk_width
    }

    /// One past the last column of tile column `tx`.
    pub open spec fn x_end(self, tx: int) -> int {
        min_int((tx + 1) * self.chunk_width, self.total_width as int)
    }

    /// First row of tile row `ty`.
    pub open spec fn y_start(self, ty: int) -> int {
        ty * self.chunk_height
    }

    /// One past the last row of tile row `ty`.
    pub open spec fn y_end(self, ty: int) -> int {
        min_int((ty + 1) * self.chunk_height, self.total_height as int)
    }

    /// Whether tile `(tx, ty)` holds pixel `(x, y)`.
    pub open spec fn covers(self, tx: int, ty: int, x: int, y: int) -> bool {
        self.x_start(tx) <= x < self.x_end(tx) && self.y_start(ty) <= y < self.y_end(ty)
    }

    /// The rectangle of tile `(tx, ty)`.
    pub open spec fn rect(self, tx: int, ty: int) -> TileRect {
        TileRect {
            x_start: self.x_start(tx) as u32,
            x_end: self.x_end(tx) as u32,
            y_start: self.y_start(ty) as u32,
            y_end: self.y_end(ty) as u32,
        }
    }

    /// Position of tile `(tx, ty)` when the tiles are listed row by row.
    pub open spec fn index_of(self, tx: int, ty: int) -> int {
        ty * self.tiles_x() + tx
    }

    /// Each tile is a rectangle of at least one pixel, inside the raster.
    pub proof fn lemma_tile_in_raster(self, tx: int, ty: int)
        requires
            self.wf(),
            self.is_tile(tx, ty),
        ensures
            0 <= self.x_start(tx) < self.x_end(tx) <= self.total_width,
            0 <= self.y_start(ty) < self.y_end(ty) <= self.total_height,
            self.x_end(tx) - self.x_start(tx) <= self.chunk_width,
            self.y_end(ty) - self.y_start(ty) <= self.chunk_height,
    {
        lemma_axis_tile(self.total_width as int, self.chunk_width as int, tx);
        lemma_axis_tile(self.total_height as int, self.chunk_height as int, ty);
    }

    /// Each pixel of the raster lies in the tile
    /// `(x / chunk_width, y / chunk_height)`.
    pub proof fn lemma_pixel_has_one_tile(self, x: int, y: int)
        requires
            self.wf(),
            self.in_raster(x, y),
        ensures
            self.is_tile(x / (self.chunk_width as int), y / (self.chunk_height as int)),
            self.covers(x / (self.chunk_width as int), y / (self.chunk_height as int), x, y),
    {
        lemma_axis_pixel(self.total_width as int, self.chunk_width as int, x);
        lemma_axis_pixel(self.total_height as int, self.chunk_height as int, y);
    }

    /// A tile that holds pixel `(x, y)` is the tile
    /// `(x / chunk_width, y / chunk_height)`.
    pub proof fn lemma_covering_tile_is_unique(self, tx: int, ty: int, x: int, y: int)
        requires
            self.wf(),
            self.covers(tx, ty, x, y),
        ensures
            tx == x / (self.chunk_width as int),
            ty == y / (self.chunk_height as int),
    {
        lemma_div_is_unique_slot(x, self.chunk_width as int, tx);
        lemma_div_is_unique_slot(y, self.chunk_height as int, ty);
    }

    /// The tiles cover the raster exactly: each tile lies inside the raster
    /// and is not empty, and each pixel of the raster lies in one tile and in
    /// no other.
    pub proof fn lemma_tiles_partition_raster(self)
        requires
            self.wf(),
        ensures
            forall|tx: int, ty: int| #[trigger]
                self.is_tile(tx, ty) ==> {
                    &&& 0 <= self.x_start(tx) < self.x_end(tx) <= self.total_width
                    &&& 0 <= self.y_start(ty) < self.y_end(ty) <= self.total_height
                },
            forall|x: int, y: int| #[trigger]
                self.in_raster(x, y) ==> {
                    &&& self.is_tile(
                        x / (self.chunk_width as int),
                        y / (self.chunk_height as int),
                    )
                    &&& self.covers(
                        x / (self.chunk_width as int),
                        y / (self.chunk_height as int),
                        x,
                        y,
                    )
                },
            forall|tx: int, ty: int, x: int, y: int| #[trigger]
                self.covers(tx, ty, x, y) ==> {
                    &&& tx == x / (self.chunk_width as int)
                    &&& ty == y / (self.chunk_height as int)
                },
            forall|tx: int, ty: int, ux: int, uy: int, x: int, y: int|
                #![trigger self.covers(tx, ty, x, y), self.covers(ux, uy, x, y)]
                self.covers(tx, ty, x, y) && self.covers(ux, uy, x, y) ==> tx == ux && ty == uy,
    {
        assert forall|tx: int, ty: int| #[trigger] self.is_tile(tx, ty) implies {
            &&& 0 <= self.x_start(tx) < self.x_end(tx) <= self.total_width
            &&& 0 <= self.y_start(ty) < self.y_end(ty) <= self.total_height
        } by {
            self.lemma_tile_in_raster(tx, ty);
        }
        assert forall|x: int, y: int| #[trigger] self.in_raster(x, y) implies {
            &&& self.is_tile(x / (self.chunk_width as int), y / (self.chunk_height as int))
            &&& self.covers(x / (self.chunk_width as int), y / (self.chunk_height as int), x, y)
        } by {
            self.lemma_pixel_has_one_tile(x, y);
        }
        assert forall|tx: int, ty: int, x: int, y: int| #[trigger]
            self.covers(tx, ty, x, y) implies {
            &&& tx == x / (self.chunk_width as int)
            &&& ty == y / (self.chunk_height as int)
        } by {
            self.lemma_covering_tile_is_unique(tx, ty, x, y);
        }
    }
}

/// The dimensions of a raster and the nominal size of its tiles. The tiles
/// of a layout are never empty: their nominal size is positive.
#[derive(Clone, Copy, Debug, PartialEq, Eq)]
pub struct TileLayout {
    total_width: u32,
    total_height: u32,
    chunk_width: u32,
    chunk_height: u32,
}

impl View for TileLayout {
    type V = TileLayoutView;

    closed spec fn view(&self) -> TileLayoutView {
        TileLayoutView {
            total_width: self.total_width,
            total_height: self.total_height,
            chunk_width: self.chunk_width,
            chunk_height: self.chunk_height,
        }
    }
}

impl TileLayout {
    /// What every layout keeps to: its tiles have a positive nominal size.
    #[verifier::type_invariant]
    spec fn inv(&self) -> bool {
        self.chunk_width > 0 && self.chunk_height > 0
    }

    /// The tiles have a positive nominal size. This holds of every layout;
    /// the functions that read one say so.
    pub open spec fn wf(&self) -> bool {
        self@.wf()
    }

    /// The layout with the given dimensions, or `None` when a tile would be
    /// empty.
    pub fn new(total_width: u32, total_height: u32, chunk_width: u32, chunk_height: u32) -> (r:
        Option<TileLayout>)
        ensures
            match r {
                Some(layout) => {
                    &&& layout@ == (TileLayoutView {
                        total_width,
                        total_height,
                        chunk_width,
                        chunk_height,
                    })
                    &&& layout.wf()
                },
                None => chunk_width == 0 || chunk_height == 0,
            },
    {
        if chunk_width > 0 && chunk_height > 0 {
            Some(TileLayout::of_tiles(total_width, total_height, chunk_width, chunk_height))
        } else {
            None
        }
    }

    /// The layout with the given dimensions, for tiles that are known not to
    /// be empty.
    pub(crate) fn of_tiles(
        total_width: u32,
        total_height: u32,
        chunk_width: u32,
        chunk_height: u32,
    ) -> (layout: TileLayout)
        requires
            chunk_width > 0,
            chunk_height > 0,
        ensures
            layout@ == (TileLayoutView { total_width, total_height, chunk_width, chunk_height }),
            layout.wf(),
    {
        TileLayout { total_width, total_height, chunk_width, chunk_height }
    }

    /// Width of the raster in pixels.
    pub fn total_width(&self) -> (w: u32)
        ensures
            w == self@.total_width,
            self.wf(),
    {
        proof {
            use_type_invariant(self);
        }
        self.total_width
    }

    /// Height of the raster in pixels.
    pub fn total_height(&self) -> (h: u32)
        ensures
            h == self@.total_height,
            self.wf(),
    {
        proof {
            use_type_invariant(self);
        }
        self.total_height
    }

    /// Nominal width of a tile in pixels.
    pub fn chunk_width(&self) -> (w: u32)
        ensures
            w == self@.chunk_width,
            self.wf(),
    {
        proof {
            use_type_invariant(self);
        }
        self.chunk_width
    }

    /// Nominal height of a tile in pixels.
    pub fn chunk_height(&self) -> (h: u32)
        ensures
            h == self@.chunk_height,
            self.wf(),
    {
        proof {
            use_type_invariant(self);
        }
        self.chunk_height
    }

    /// Number of tile columns: `total_width / chunk_width`, rounded up.
    pub fn num_tiles_x(&self) -> (n: u32)
        ensures
            n == self@.tiles_x(),
            self.wf(),
    {
        proof {
            use_type_invariant(self);
            lemma_ceil_div_is_least(self.total_width as int, self.chunk_width as int);
        }
        let q: u32 = self.total_width / self.chunk_width;
        if self.total_width % self.chunk_width == 0 {
            q
        } else {
            q + 1
        }
    }

    /// Number of tile rows: `total_height / chunk_height`, rounded up.
    pub fn num_tiles_y(&self) -> (n: u32)
        ensures
            n == self@.tiles_y(),
            self.wf(),
    {
        proof {
            use_type_invariant(self);
            lemma_ceil_div_is_least(self.total_height as int, self.chunk_height as int);
        }
        let q: u32 = self.total_height / self.chunk_height;
        if self.total_height % self.chunk_height == 0 {
            q
        } else {
            q + 1
        }
    }

    /// Number of tiles.
    pub fn tile_count(&self) -> (n: u64)
        ensures
            n == self@.tiles_x() * self@.tiles_y(),
            self.wf(),
    {
        let nx: u64 = self.num_tiles_x() as u64;
        let ny: u64 = self.num_tiles_y() as u64;
        assert(nx * ny <= 0xffff_ffff * 0xffff_ffff) by (nonlinear_arith)
            requires
                nx <= 0xffff_ffff,
                ny <= 0xffff_ffff,
        ;
        nx * ny
    }

    /// The rectangle of tile `(tx, ty)`, or `None` when the layout has no such
    /// tile.
    pub fn tile_rect(&self, tx: u32, ty: u32) -> (r: Option<TileRect>)
        ensures
            r == if self@.is_tile(tx as int, ty as int) {
                Some(self@.rect(tx as int, ty as int))
            } else {
                None
            },
            r matches Some(rect) ==> {
                &&& rect.x_start == self@.x_start(tx as int)
                &&& rect.x_end == self@.x_end(tx as int)
                &&& rect.y_start == self@.y_start(ty as int)
                &&& rect.y_end == self@.y_end(ty as int)
                &&& rect.x_start < rect.x_end
                &&& rect.y_start < rect.y_end
            },
            self.wf(),
    {
        if tx >= self.num_tiles_x() || ty >= self.num_tiles_y() {
            return None;
        }
        proof {
            self@.lemma_tile_in_raster(tx as int, ty as int);
        }
        let (x_start, x_end) = axis_range(self.total_width, self.chunk_width, tx);
        let (y_start, y_end) = axis_range(self.total_height, self.chunk_height, ty);
        Some(TileRect { x_start, x_end, y_start, y_end })
    }

    /// The tile that holds pixel `(x, y)`, or `None` when the raster has no
    /// such pixel.
    pub fn tile_of_pixel(&self, x: u32, y: u32) -> (r: Option<(u32, u32)>)
        ensures
            r == if self@.in_raster(x as int, y as int) {
                Some(((x / self@.chunk_width) as u32, (y / self@.chunk_height) as u32))
            } else {
                None
            },
            r matches Some(t) ==> self@.is_tile(t.0 as int, t.1 as int) && self@.covers(
                t.0 as int,
                t.1 as int,
                x as int,
                y as int,
            ),
            self.wf(),
    {
        proof {
            use_type_invariant(self);
        }
        if x >= self.total_width || y >= self.total_height {
            return None;
        }
        proof {
            self@.lemma_pixel_has_one_tile(x as int, y as int);
        }
        Some((x / self.chunk_width, y / self.chunk_height))
    }

    /// Position of tile `(tx, ty)` when the tiles are listed row by row, or
    /// `None` when the layout has no such tile.
    pub fn tile_index(&self, tx: u32, ty: u32) -> (r: Option<u64>)
        ensures
            r == if self@.is_tile(tx as int, ty as int) {
                Some(self@.index_of(tx as int, ty as int) as u64)
            } else {
                None
            },
            r matches Some(i) ==> i == self@.index_of(tx as int, ty as int) && i
                < self@.tiles_x() * self@.tiles_y(),
            self.wf(),
    {
        let nx: u32 = self.num_tiles_x();
        let ny: u32 = self.num_tiles_y();
        if tx >= nx || ty >= ny {
            return None;
        }
        proof {
            lemma_row_major_index(tx as int, ty as int, nx as int, ny as int);
        }
        assert(nx * ny <= 0xffff_ffff * 0xffff_ffff) by (nonlinear_arith)
            requires
                nx <= 0xffff_ffff,
                ny <= 0xffff_ffff,
        ;
        Some((ty as u64) * (nx as u64) + (tx as u64))
    }
}

/// The columns (or rows) of tile number `t` along one axis of `total` pixels
/// cut into parts of `chunk`.
fn axis_range(total: u32, chunk: u32, t: u32) -> (r: (u32, u32))
    requires
        chunk > 0,
        t < ceil_div(total as int, chunk as int),
    ensures
        r.0 == t * chunk,
        r.1 == min_int((t + 1) * chunk, total as int),
{
    proof {
        lemma_axis_tile(total as int, chunk as int, t as int);
    }
    assert((t + 1) * chunk <= 0x1_0000_0000 * 0xffff_ffff) by (nonlinear_arith)
        requires
            t + 1 <= 0x1_0000_0000,
            chunk <= 0xffff_ffff,
    ;
    let start: u32 = t * chunk;
    let nominal_end: u64 = (t as u64 + 1) * (chunk as u64);
    let end: u32 = if nominal_end < total as u64 {
        nominal_end as u32
    } else {
        total
    };
    (start, end)
}

/// Along one axis, tile number `t` starts inside the raster, is not empty and
/// is no longer than the nominal size.
proof fn lemma_axis_tile(total: int, chunk: int, t: int)
    requires
        0 <= total,
        0 < chunk,
        0 <= t < ceil_div(total, chunk),
    ensures
        0 <= t * chunk < min_int((t + 1) * chunk, total) <= total,
        min_int((t + 1) * chunk, total) - t * chunk <= chunk,
{
    lemma_ceil_div_is_least(total, chunk);
    let n = ceil_div(total, chunk);
    assert(0 <= t * chunk <= (n - 1) * chunk && (t + 1) * chunk == t * chunk + chunk)
        by (nonlinear_arith)
        requires
            0 < chunk,
            0 <= t <= n - 1,
    ;
}

/// Along one axis, pixel `x` lies in tile number `x / chunk`.
proof fn lemma_axis_pixel(total: int, chunk: int, x: int)
    requires
        0 < chunk,
        0 <= x < total,
    ensures
        0 <= x / chunk < ceil_div(total, chunk),
        (x / chunk) * chunk <= x < min_int((x / chunk + 1) * chunk, total),
{
    lemma_ceil_div_is_least(total, chunk);
    lemma_div_is_unique_slot(x, chunk, x / chunk);
    let n = ceil_div(total, chunk);
    let t = x / chunk;
    assert(0 <= t < n) by (nonlinear_arith)
        requires
            0 < chunk,
            0 <= x < total,
            t * chunk <= x,
            x < (t + 1) * chunk,
            n * chunk >= total,
    ;
}

/// Row-major positions of the cells of an `nx` by `ny` table are below
/// `nx * ny`, and tell the cell.
pub proof fn lemma_row_major_index(tx: int, ty: int, nx: int, ny: int)
    requires
        0 <= tx < nx,
        0 <= ty < ny,
    ensures
        0 <= ty * nx + tx < nx * ny,
        (ty * nx + tx) / nx == ty,
        (ty * nx + tx) % nx == tx,
{
    assert(0 <= ty * nx && ty * nx + nx <= ny * nx && ny * nx == nx * ny) by (nonlinear_arith)
        requires
            0 <= ty < ny,
            0 < nx,
    ;
    lemma_div_is_unique_slot(ty * nx + tx, nx, ty);
    assert((ty + 1) * nx == ty * nx + nx) by (nonlinear_arith);
    let i = ty * nx + tx;
    assert(i == (i / nx) * nx + i % nx) by (nonlinear_arith)
        requires
            0 < nx,
    ;
}

} // verus!
