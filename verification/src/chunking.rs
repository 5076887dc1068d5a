//! What cutting a raster into chunks gives, and why.

use vstd::prelude::*;
use crate::dem::DemView;
use crate::layout::{lemma_ceil_div_is_least, lemma_row_major_index, TileLayoutView};
use crate::profile::DemProfile;
use crate::raster::{lemma_cell_index_in_grid, RasterView};

verus! {

/// The chunk of tile `(tx, ty)`: the tile's place and size, the profile, and
/// the raster's samples inside the tile, row by row.
pub open spec fn chunk_of(
    raster: RasterView,
    layout: TileLayoutView,
    profile: DemProfile,
    tx: int,
    ty: int,
) -> DemView {
    let x0 = layout.x_start(tx);
    let y0 = layout.y_start(ty);
    let width = layout.x_end(tx) - x0;
    let height = layout.y_end(ty) - y0;
    DemView {
        x_offset: x0 as u32,
        y_offset: y0 as u32,
        width: width as u32,
        height: height as u32,
        profile,
        grid: Seq::new(
            (width * height) as nat,
            |i: int| raster.sample(x0 + i % width, y0 + i / width),
        ),
    }
}

/// The chunks of a raster cut into tiles of a nominal `chunk_width` by
/// `chunk_height`, listed row by row.
pub open spec fn chunks_of(
    raster: RasterView,
    chunk_width: u32,
    chunk_height: u32,
    profile: DemProfile,
) -> Seq<DemView> {
    let layout = TileLayoutView {
        total_width: raster.width,
        total_height: raster.height,
        chunk_width,
        chunk_height,
    };
    Seq::new(
        (layout.tiles_x() * layout.tiles_y()) as nat,
        |t: int| chunk_of(raster, layout, profile, t % layout.tiles_x(), t / layout.tiles_x()),
    )
}

/// Cutting a raster into chunks keeps every pixel: the sample of pixel
/// `(x, y)` is found in the chunk of the tile that holds the pixel, at the
/// pixel's place counted from the chunk's offset.
pub proof fn lemma_chunks_keep_pixels(
    raster: RasterView,
    chunk_width: u32,
    chunk_height: u32,
    profile: DemProfile,
    x: int,
    y: int,
)
    requires
        raster.wf(),
        chunk_width > 0,
        chunk_height > 0,
        raster.in_bounds(x, y),
    ensures
        ({
            let layout = TileLayoutView {
                total_width: raster.width,
                total_height: raster.height,
                chunk_width,
                chunk_height,
            };
            let chunks = chunks_of(raster, chunk_width, chunk_height, profile);
            let owner = layout.index_of(x / (chunk_width as int), y / (chunk_height as int));
            &&& 0 <= owner < chunks.len()
            &&& chunks[owner].wf()
            &&& chunks[owner].in_bounds(x - chunks[owner].x_offset, y - chunks[owner].y_offset)
            &&& chunks[owner].sample(x - chunks[owner].x_offset, y - chunks[owner].y_offset)
                == raster.sample(x, y)
        }),
{
    let layout = TileLayoutView {
        total_width: raster.width,
        total_height: raster.height,
        chunk_width,
        chunk_height,
    };
    let tx = x / (chunk_width as int);
    let ty = y / (chunk_height as int);
    layout.lemma_pixel_has_one_tile(x, y);
    lemma_row_major_index(tx, ty, layout.tiles_x(), layout.tiles_y());
    lemma_tile_size(layout, tx, ty);
    let width = layout.x_end(tx) - layout.x_start(tx);
    let height = layout.y_end(ty) - layout.y_start(ty);
    lemma_cell_index_in_grid(x - layout.x_start(tx), y - layout.y_start(ty), width, height);
}

/// Cutting a raster into chunks invents nothing: the chunks are as many as
/// the tiles, each has the place and the size of its tile and carries the
/// profile, and each of its samples is the raster's sample of the same pixel.
pub proof fn lemma_chunks_come_from_raster(
    raster: RasterView,
    chunk_width: u32,
    chunk_height: u32,
    profile: DemProfile,
    t: int,
    x: int,
    y: int,
)
    requires
        raster.wf(),
        chunk_width > 0,
        chunk_height > 0,
        0 <= t < chunks_of(raster, chunk_width, chunk_height, profile).len(),
        chunks_of(raster, chunk_width, chunk_height, profile)[t].in_bounds(x, y),
    ensures
        ({
            let layout = TileLayoutView {
                total_width: raster.width,
                total_height: raster.height,
                chunk_width,
                chunk_height,
            };
            let chunks = chunks_of(raster, chunk_width, chunk_height, profile);
            let tx = t % layout.tiles_x();
            let ty = t / layout.tiles_x();
            &&& chunks.len() == layout.tiles_x() * layout.tiles_y()
            &&& layout.is_tile(tx, ty)
            &&& chunks[t].wf()
            &&& chunks[t].profile == profile
            &&& chunks[t].x_offset == layout.x_start(tx)
            &&& chunks[t].y_offset == layout.y_start(ty)
            &&& chunks[t].width == layout.x_end(tx) - layout.x_start(tx)
            &&& chunks[t].height == layout.y_end(ty) - layout.y_start(ty)
            &&& raster.in_bounds(chunks[t].x_offset + x, chunks[t].y_offset + y)
            &&& chunks[t].sample(x, y) == raster.sample(
                chunks[t].x_offset + x,
                chunks[t].y_offset + y,
            )
        }),
{
    let layout = TileLayoutView {
        total_width: raster.width,
        total_height: raster.height,
        chunk_width,
        chunk_height,
    };
    let nx = layout.tiles_x();
    let ny = layout.tiles_y();
    lemma_ceil_div_is_least(raster.width as int, chunk_width as int);
    lemma_ceil_div_is_least(raster.height as int, chunk_height as int);
    assert(0 <= nx * ny) by (nonlinear_arith)
        requires
            0 <= nx,
            0 <= ny,
    ;
    lemma_cell_position(t, nx, ny);
    let tx = t % nx;
    let ty = t / nx;
    lemma_tile_size(layout, tx, ty);
    let width = layout.x_end(tx) - layout.x_start(tx);
    let height = layout.y_end(ty) - layout.y_start(ty);
    lemma_cell_index_in_grid(x, y, width, height);
}

/// Whether a chunk has the place and the size of tile `(tx, ty)` and one
/// sample for each pixel.
pub(crate) open spec fn holds_tile(
    chunk: DemView,
    layout: TileLayoutView,
    tx: int,
    ty: int,
) -> bool {
    &&& chunk.wf()
    &&& chunk.x_offset == layout.x_start(tx)
    &&& chunk.y_offset == layout.y_start(ty)
    &&& chunk.width == layout.x_end(tx) - layout.x_start(tx)
    &&& chunk.height == layout.y_end(ty) - layout.y_start(ty)
}

/// The chunk of tile `(tx, ty)` with all samples zero.
pub(crate) open spec fn blank(
    layout: TileLayoutView,
    profile: DemProfile,
    tx: int,
    ty: int,
) -> DemView {
    let x0 = layout.x_start(tx);
    let y0 = layout.y_start(ty);
    let width = layout.x_end(tx) - x0;
    let height = layout.y_end(ty) - y0;
    DemView {
        x_offset: x0 as u32,
        y_offset: y0 as u32,
        width: width as u32,
        height: height as u32,
        profile,
        grid: Seq::new((width * height) as nat, |i: int| 0u16),
    }
}

/// The chunk of tile `(tx, ty)` once the first `done` pixels of the raster,
/// counted row by row, have been written: their samples are in place, the
/// others are still zero.
pub(crate) open spec fn filled(
    raster: RasterView,
    layout: TileLayoutView,
    profile: DemProfile,
    tx: int,
    ty: int,
    done: int,
) -> DemView {
    let x0 = layout.x_start(tx);
    let y0 = layout.y_start(ty);
    let width = layout.x_end(tx) - x0;
    let height = layout.y_end(ty) - y0;
    DemView {
        x_offset: x0 as u32,
        y_offset: y0 as u32,
        width: width as u32,
        height: height as u32,
        profile,
        grid: Seq::new(
            (width * height) as nat,
            |i: int|
                if (y0 + i / width) * raster.width + (x0 + i % width) < done {
                    raster.sample(x0 + i % width, y0 + i / width)
                } else {
                    0u16
                },
        ),
    }
}

/// Position `i` of a table of `nx` columns and `ny` rows stored row by row
/// is the cell in column `i % nx` of row `i / nx`.
pub(crate) proof fn lemma_cell_position(i: int, nx: int, ny: int)
    requires
        0 <= nx,
        0 <= i < nx * ny,
    ensures
        0 <= i % nx < nx,
        0 <= i / nx < ny,
        (i / nx) * nx + i % nx == i,
{
    assert(0 < nx) by (nonlinear_arith)
        requires
            0 <= nx,
            0 <= i < nx * ny,
    ;
    let q = i / nx;
    let r = i % nx;
    assert(i == q * nx + r && 0 <= r < nx) by (nonlinear_arith)
        requires
            0 < nx,
            q == i / nx,
            r == i % nx,
    ;
    assert(0 <= q < ny) by (nonlinear_arith)
        requires
            0 < nx,
            0 <= i < nx * ny,
            i == q * nx + r,
            0 <= r < nx,
    ;
}

/// In row-major order, a cell of an earlier row, or of the same row and an
/// earlier column, comes first.
pub(crate) proof fn lemma_row_major_order(ux: int, uy: int, tx: int, ty: int, nx: int)
    requires
        0 <= ux < nx,
        0 <= tx <= nx,
        0 <= uy,
        uy < ty || (uy == ty && ux < tx),
    ensures
        uy * nx + ux < ty * nx + tx,
{
    if uy < ty {
        assert(uy * nx + nx <= ty * nx) by (nonlinear_arith)
            requires
                uy + 1 <= ty,
                0 <= nx,
        ;
    }
}

/// The tiles of a raster are no more than its pixels.
pub(crate) proof fn lemma_tiles_fit(raster: RasterView, layout: TileLayoutView)
    requires
        raster.wf(),
        layout.wf(),
        layout.total_width == raster.width,
        layout.total_height == raster.height,
    ensures
        0 <= layout.tiles_x() * layout.tiles_y() <= raster.width * raster.height,
        raster.width * raster.height == raster.samples.len(),
{
    lemma_ceil_div_is_least(raster.width as int, layout.chunk_width as int);
    lemma_ceil_div_is_least(raster.height as int, layout.chunk_height as int);
    let nx = layout.tiles_x();
    let ny = layout.tiles_y();
    assert(0 <= nx * ny <= raster.width * raster.height) by (nonlinear_arith)
        requires
            0 <= nx <= raster.width,
            0 <= ny <= raster.height,
    ;
}

/// The pixel of the raster that sample `i` of tile `(tx, ty)` stands for.
pub(crate) proof fn lemma_tile_cell(layout: TileLayoutView, tx: int, ty: int, i: int)
    requires
        layout.wf(),
        layout.is_tile(tx, ty),
        0 <= i < (layout.x_end(tx) - layout.x_start(tx)) * (layout.y_end(ty) - layout.y_start(
            ty,
        )),
    ensures
        ({
            let width = layout.x_end(tx) - layout.x_start(tx);
            let x = layout.x_start(tx) + i % width;
            let y = layout.y_start(ty) + i / width;
            &&& layout.in_raster(x, y)
            &&& layout.covers(tx, ty, x, y)
            &&& i == (y - layout.y_start(ty)) * width + (x - layout.x_start(tx))
            &&& 0 <= y * layout.total_width + x < layout.total_width * layout.total_height
            &&& (y * layout.total_width + x) / (layout.total_width as int) == y
            &&& (y * layout.total_width + x) % (layout.total_width as int) == x
        }),
{
    layout.lemma_tile_in_raster(tx, ty);
    let width = layout.x_end(tx) - layout.x_start(tx);
    let height = layout.y_end(ty) - layout.y_start(ty);
    lemma_cell_position(i, width, height);
    let x = layout.x_start(tx) + i % width;
    let y = layout.y_start(ty) + i / width;
    lemma_row_major_index(x, y, layout.total_width as int, layout.total_height as int);
}

/// Before any pixel is written, every chunk is blank.
pub(crate) proof fn lemma_filled_starts_blank(
    raster: RasterView,
    layout: TileLayoutView,
    profile: DemProfile,
    tx: int,
    ty: int,
)
    requires
        layout.wf(),
        layout.is_tile(tx, ty),
    ensures
        filled(raster, layout, profile, tx, ty, 0) == blank(layout, profile, tx, ty),
{
    let a = filled(raster, layout, profile, tx, ty, 0);
    let b = blank(layout, profile, tx, ty);
    lemma_tile_size(layout, tx, ty);
    assert forall|i: int| 0 <= i < a.grid.len() implies a.grid[i] == b.grid[i] by {
        lemma_tile_cell(layout, tx, ty, i);
    }
    assert(a.grid =~= b.grid);
}

/// Once every pixel is written, every chunk holds the samples of its tile.
pub(crate) proof fn lemma_filled_ends_whole(
    raster: RasterView,
    layout: TileLayoutView,
    profile: DemProfile,
    tx: int,
    ty: int,
)
    requires
        layout.wf(),
        layout.is_tile(tx, ty),
        layout.total_width == raster.width,
        layout.total_height == raster.height,
    ensures
        filled(raster, layout, profile, tx, ty, raster.height * raster.width) == chunk_of(
            raster,
            layout,
            profile,
            tx,
            ty,
        ),
        chunk_of(raster, layout, profile, tx, ty).wf(),
{
    let a = filled(raster, layout, profile, tx, ty, raster.height * raster.width);
    let b = chunk_of(raster, layout, profile, tx, ty);
    layout.lemma_tile_in_raster(tx, ty);
    lemma_tile_size(layout, tx, ty);
    assert forall|i: int| 0 <= i < a.grid.len() implies a.grid[i] == b.grid[i] by {
        lemma_tile_cell(layout, tx, ty, i);
        assert(raster.height * raster.width == raster.width * raster.height)
            by (nonlinear_arith);
    }
    assert(a.grid =~= b.grid);
}

/// The number of pixels of a tile, and its sides, fit the integer types that
/// hold them.
pub(crate) proof fn lemma_tile_size(layout: TileLayoutView, tx: int, ty: int)
    requires
        layout.wf(),
        layout.is_tile(tx, ty),
    ensures
        ({
            let width = layout.x_end(tx) - layout.x_start(tx);
            let height = layout.y_end(ty) - layout.y_start(ty);
            &&& 0 < width <= layout.total_width
            &&& 0 < height <= layout.total_height
            &&& 0 < width * height <= layout.total_width * layout.total_height
        }),
{
    layout.lemma_tile_in_raster(tx, ty);
    let width = layout.x_end(tx) - layout.x_start(tx);
    let height = layout.y_end(ty) - layout.y_start(ty);
    assert(0 < width * height <= layout.total_width * layout.total_height) by (nonlinear_arith)
        requires
            0 < width <= layout.total_width,
            0 < height <= layout.total_height,
    ;
}

/// While it is filled, a chunk keeps the place and the size of its tile.
pub(crate) proof fn lemma_filled_holds_tile(
    raster: RasterView,
    layout: TileLayoutView,
    profile: DemProfile,
    tx: int,
    ty: int,
    done: int,
)
    requires
        layout.wf(),
        layout.is_tile(tx, ty),
    ensures
        holds_tile(filled(raster, layout, profile, tx, ty, done), layout, tx, ty),
{
    lemma_tile_size(layout, tx, ty);
}

/// Writing pixel `(x, y)` changes one sample of the chunk that holds the
/// pixel, and nothing in any other chunk.
pub(crate) proof fn lemma_fill_step(
    raster: RasterView,
    layout: TileLayoutView,
    profile: DemProfile,
    tx: int,
    ty: int,
    x: int,
    y: int,
)
    requires
        layout.wf(),
        layout.is_tile(tx, ty),
        layout.in_raster(x, y),
        layout.total_width == raster.width,
        layout.total_height == raster.height,
    ensures
        ({
            let before = filled(raster, layout, profile, tx, ty, y * raster.width + x);
            let after = filled(raster, layout, profile, tx, ty, y * raster.width + x + 1);
            let cell = (y - before.y_offset) * before.width + (x - before.x_offset);
            if tx == x / (layout.chunk_width as int) && ty == y / (layout.chunk_height as int) {
                &&& 0 <= cell < before.grid.len()
                &&& after == (DemView {
                    grid: before.grid.update(cell, raster.sample(x, y)),
                    ..before
                })
            } else {
                after == before
            }
        }),
{
    let done = y * raster.width + x;
    let before = filled(raster, layout, profile, tx, ty, done);
    let after = filled(raster, layout, profile, tx, ty, done + 1);
    let width = layout.x_end(tx) - layout.x_start(tx);
    let cell = (y - before.y_offset) * before.width + (x - before.x_offset);
    let owns = tx == x / (layout.chunk_width as int) && ty == y / (layout.chunk_height as int);
    lemma_tile_size(layout, tx, ty);
    lemma_row_major_index(x, y, layout.total_width as int, layout.total_height as int);
    if owns {
        layout.lemma_pixel_has_one_tile(x, y);
        lemma_cell_index_in_grid(
            x - layout.x_start(tx),
            y - layout.y_start(ty),
            width,
            layout.y_end(ty) - layout.y_start(ty),
        );
        let patched = before.grid.update(cell, raster.sample(x, y));
        assert forall|i: int| 0 <= i < after.grid.len() implies after.grid[i] == patched[i] by {
            lemma_tile_cell(layout, tx, ty, i);
        }
        assert(after.grid =~= patched);
    } else {
        assert forall|i: int| 0 <= i < after.grid.len() implies after.grid[i] == before.grid[i] by {
            lemma_tile_cell(layout, tx, ty, i);
            let gx = layout.x_start(tx) + i % width;
            let gy = layout.y_start(ty) + i / width;
            if gx == x && gy == y {
                layout.lemma_covering_tile_is_unique(tx, ty, x, y);
            }
        }
        assert(after.grid =~= before.grid);
    }
}

} // verus!
