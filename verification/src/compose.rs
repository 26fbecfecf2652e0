//! The mosaic composer: partitions the source into a uniform grid of
//! stride-sized cells, matches each cell's average color against the tile
//! library, and paints the chosen tile into the output canvas.
//!
//! Trailing partial cells at the right and bottom edge are dropped: the
//! grid has `floor(width / stride)` columns and `floor(height / stride)`
//! rows, and the canvas maps each cell to a tile-sized block.

use vstd::prelude::*;

verus! {

use crate::color::avg_of;
use crate::color::average_color;
use crate::img::Img;
use crate::img::MAX_DIM;
use crate::img::lemma_row_major_in_range;
use crate::img::lemma_row_major_injective;
use crate::img::pixel_at;
use crate::tiles::TileLibrary;
use crate::tiles::nearest_idx;
use vstd::arithmetic::div_mod::lemma_fundamental_div_mod;
use vstd::arithmetic::div_mod::lemma_fundamental_div_mod_converse;
use vstd::arithmetic::mul::lemma_mul_inequality;
use vstd::arithmetic::mul::lemma_mul_is_distributive_add_other_way;

/// The index of the tile chosen for grid cell `(col, row)`: the tile whose
/// average color is nearest to the cell's average color.
pub open spec fn cell_tile(
    src_px: Seq<(u8, u8, u8)>,
    src_w: int,
    avgs: Seq<crate::color::Color>,
    stride: int,
    col: int,
    row: int,
) -> int {
    nearest_idx(avgs, avg_of(src_px, src_w, col * stride, row * stride, stride, stride))
}

/// The pixel of the finished canvas at `(x, y)`: the matching pixel of the
/// tile chosen for the grid cell whose block `(x, y)` falls in.
pub open spec fn mosaic_pixel(
    src_px: Seq<(u8, u8, u8)>,
    src_w: int,
    tiles_px: Seq<Seq<(u8, u8, u8)>>,
    avgs: Seq<crate::color::Color>,
    stride: int,
    tw: int,
    th: int,
    x: int,
    y: int,
) -> (u8, u8, u8) {
    pixel_at(
        tiles_px[cell_tile(src_px, src_w, avgs, stride, x / tw, y / th)],
        tw,
        x % tw,
        y % th,
    )
}

/// Paints `tile` onto `canvas`, fully opaque, with its top-left corner at
/// `(x0, y0)`; every pixel outside the painted block is untouched.
pub fn paint(canvas: &mut Img, tile: &Img, x0: u32, y0: u32)
    requires
        old(canvas).wf(),
        tile.wf(),
        x0 + tile.width <= old(canvas).width,
        y0 + tile.height <= old(canvas).height,
    ensures
        final(canvas).wf(),
        final(canvas).width == old(canvas).width,
        final(canvas).height == old(canvas).height,
        forall|cx: int, cy: int|
            x0 <= cx < x0 + tile.width && y0 <= cy < y0 + tile.height ==> #[trigger] final(canvas).spec_pixel(cx, cy) == tile.spec_pixel(cx - x0, cy - y0),
        forall|cx: int, cy: int|
            0 <= cx < old(canvas).width && 0 <= cy < old(canvas).height && !(x0 <= cx < x0
                + tile.width && y0 <= cy < y0 + tile.height) ==> #[trigger] final(canvas).spec_pixel(cx, cy) == old(canvas).spec_pixel(cx, cy),
{
    let mut ty: u32 = 0;
    while ty < tile.height
        invariant
            canvas.wf(),
            tile.wf(),
            canvas.width == old(canvas).width,
            canvas.height == old(canvas).height,
            x0 + tile.width <= canvas.width,
            y0 + tile.height <= canvas.height,
            ty <= tile.height,
            forall|cx: int, cy: int|
                x0 <= cx < x0 + tile.width && y0 <= cy < y0 + ty ==> #[trigger] canvas.spec_pixel(
                    cx,
                    cy,
                ) == tile.spec_pixel(cx - x0, cy - y0),
            forall|cx: int, cy: int|
                0 <= cx < canvas.width && 0 <= cy < canvas.height && !(x0 <= cx < x0 + tile.width
                    && y0 <= cy < y0 + ty) ==> #[trigger] canvas.spec_pixel(cx, cy) == old(
                    canvas,
                ).spec_pixel(cx, cy),
        decreases tile.height - ty,
    {
        let mut tx: u32 = 0;
        while tx < tile.width
            invariant
                canvas.wf(),
                tile.wf(),
                canvas.width == old(canvas).width,
                canvas.height == old(canvas).height,
                x0 + tile.width <= canvas.width,
                y0 + tile.height <= canvas.height,
                ty < tile.height,
                tx <= tile.width,
                forall|cx: int, cy: int|
                    x0 <= cx < x0 + tile.width && y0 <= cy < y0 + ty ==> #[trigger] canvas
                        .spec_pixel(cx, cy) == tile.spec_pixel(cx - x0, cy - y0),
                forall|cx: int, cy: int|
                    x0 <= cx < x0 + tx && cy == y0 + ty ==> #[trigger] canvas.spec_pixel(cx, cy)
                        == tile.spec_pixel(cx - x0, cy - y0),
                forall|cx: int, cy: int|
                    0 <= cx < canvas.width && 0 <= cy < canvas.height && !(x0 <= cx < x0
                        + tile.width && y0 <= cy < y0 + ty + 1) ==> #[trigger] canvas.spec_pixel(
                        cx,
                        cy,
                    ) == old(canvas).spec_pixel(cx, cy),
                forall|cx: int, cy: int|
                    x0 + tx <= cx < canvas.width && cy == y0 + ty && 0 <= cx ==> #[trigger] canvas
                        .spec_pixel(cx, cy) == old(canvas).spec_pixel(cx, cy),
            decreases tile.width - tx,
        {
            let p = tile.pixel(tx, ty);
            let cx = x0 + tx;
            let cy = y0 + ty;
            proof {
                lemma_row_major_in_range(
                    canvas.width as int,
                    canvas.height as int,
                    cx as int,
                    cy as int,
                );
                assert(canvas.width * canvas.height <= 0xFFFF * 0xFFFF) by (nonlinear_arith)
                    requires
                        canvas.width <= 0xFFFF,
                        canvas.height <= 0xFFFF,
                ;
            }
            let ghost before = *canvas;
            let idx: usize = cy as usize * canvas.width as usize + cx as usize;
            canvas.pixels.set(idx, p);
            proof {
                let w = canvas.width as int;
                let h = canvas.height as int;
                assert forall|ax: int, ay: int|
                    0 <= ax < w && 0 <= ay < h && !(ax == cx && ay == cy) implies #[trigger] canvas
                    .spec_pixel(ax, ay) == before.spec_pixel(ax, ay) by {
                    lemma_row_major_in_range(w, h, ax, ay);
                    if ay * w + ax == cy as int * w + cx as int {
                        lemma_row_major_injective(w, ax, ay, cx as int, cy as int);
                    }
                }
                assert(canvas.spec_pixel(cx as int, cy as int) == tile.spec_pixel(
                    tx as int,
                    ty as int,
                ));
            }
            tx = tx + 1;
        }
        ty = ty + 1;
    }
}

/// Composes the mosaic canvas for a bounded source image over a tile
/// library. The canvas is `floor(width / stride) * tile_width` wide and
/// `floor(height / stride) * tile_height` high; each full stride-sized
/// cell of the source is matched by average color and painted as one
/// tile-sized block. Partial cells at the right and bottom edge are
/// dropped.
pub fn compose(source: &Img, lib: &TileLibrary, stride: u32) -> (canvas: Img)
    requires
        source.wf(),
        lib.wf(),
        1 <= stride,
        (source.width as int / stride as int) * lib.tile_width <= MAX_DIM,
        (source.height as int / stride as int) * lib.tile_height <= MAX_DIM,
    ensures
        canvas.wf(),
        canvas.width == (source.width as int / stride as int) * lib.tile_width,
        canvas.height == (source.height as int / stride as int) * lib.tile_height,
        forall|x: int, y: int|
            0 <= x < canvas.width && 0 <= y < canvas.height ==> #[trigger] canvas.spec_pixel(x, y)
                == mosaic_pixel(
                source.pixels@,
                source.width as int,
                lib.imgs(),
                lib.avgs(),
                stride as int,
                lib.tile_width as int,
                lib.tile_height as int,
                x,
                y,
            ),
{
    let cols: u32 = source.width / stride;
    let rows: u32 = source.height / stride;
    let tw: u32 = lib.tile_width;
    let th: u32 = lib.tile_height;
    proof {
        lemma_fundamental_div_mod(source.width as int, stride as int);
        lemma_fundamental_div_mod(source.height as int, stride as int);
    }
    let cw: u32 = cols * tw;
    let ch: u32 = rows * th;
    let mut canvas = Img::filled(cw, ch);
    let mut row: u32 = 0;
    while row < rows
        invariant
            source.wf(),
            lib.wf(),
            1 <= stride,
            cols == source.width as int / stride as int,
            rows == source.height as int / stride as int,
            cols * stride <= source.width,
            rows * stride <= source.height,
            tw == lib.tile_width,
            th == lib.tile_height,
            cw == cols * tw,
            ch == rows * th,
            cw <= MAX_DIM,
            ch <= MAX_DIM,
            canvas.wf(),
            canvas.width == cw,
            canvas.height == ch,
            row <= rows,
            forall|x: int, y: int|
                0 <= x < cw && 0 <= y < row * th ==> #[trigger] canvas.spec_pixel(x, y)
                    == mosaic_pixel(
                    source.pixels@,
                    source.width as int,
                    lib.imgs(),
                    lib.avgs(),
                    stride as int,
                    tw as int,
                    th as int,
                    x,
                    y,
                ),
        decreases rows - row,
    {
        let mut col: u32 = 0;
        proof {
            lemma_mul_inequality(row as int + 1, rows as int, th as int);
            lemma_mul_is_distributive_add_other_way(th as int, row as int, 1);
            lemma_mul_inequality(row as int + 1, rows as int, stride as int);
            lemma_mul_is_distributive_add_other_way(stride as int, row as int, 1);
        }
        while col < cols
            invariant
                source.wf(),
                lib.wf(),
                1 <= stride,
                cols == source.width as int / stride as int,
                rows == source.height as int / stride as int,
                cols * stride <= source.width,
                rows * stride <= source.height,
                tw == lib.tile_width,
                th == lib.tile_height,
                cw == cols * tw,
                ch == rows * th,
                cw <= MAX_DIM,
                ch <= MAX_DIM,
                canvas.wf(),
                canvas.width == cw,
                canvas.height == ch,
                row < rows,
                col <= cols,
                row * th + th <= ch,
                row * stride + stride <= source.height,
                forall|x: int, y: int|
                    0 <= x < cw && 0 <= y < row * th ==> #[trigger] canvas.spec_pixel(x, y)
                        == mosaic_pixel(
                        source.pixels@,
                        source.width as int,
                        lib.imgs(),
                        lib.avgs(),
                        stride as int,
                        tw as int,
                        th as int,
                        x,
                        y,
                    ),
                forall|x: int, y: int|
                    0 <= x < col * tw && row * th <= y < row * th + th ==> #[trigger] canvas
                        .spec_pixel(x, y) == mosaic_pixel(
                        source.pixels@,
                        source.width as int,
                        lib.imgs(),
                        lib.avgs(),
                        stride as int,
                        tw as int,
                        th as int,
                        x,
                        y,
                    ),
            decreases cols - col,
        {
            proof {
                lemma_mul_inequality(col as int + 1, cols as int, tw as int);
                lemma_mul_is_distributive_add_other_way(tw as int, col as int, 1);
                lemma_mul_inequality(col as int + 1, cols as int, stride as int);
                lemma_mul_is_distributive_add_other_way(stride as int, col as int, 1);
            }
            let q = average_color(source, col * stride, row * stride, stride, stride);
            let t = lib.nearest(&q);
            let x0: u32 = col * tw;
            let y0: u32 = row * th;
            let ghost unpainted = canvas;
            paint(&mut canvas, &lib.tiles[t as usize].img, x0, y0);
            proof {
                let iw = source.width as int;
                let sp = source.pixels@;
                let s = stride as int;
                assert forall|x: int, y: int|
                    x0 <= x < x0 + tw && y0 <= y < y0 + th implies #[trigger] canvas.spec_pixel(
                    x,
                    y,
                ) == mosaic_pixel(sp, iw, lib.imgs(), lib.avgs(), s, tw as int, th as int, x, y) by {
                    lemma_fundamental_div_mod_converse(x, tw as int, col as int, x - x0);
                    lemma_fundamental_div_mod_converse(y, th as int, row as int, y - y0);
                    assert(lib.imgs()[t as int] == lib.tiles@[t as int].img.pixels@);
                    assert(canvas.spec_pixel(x, y) == lib.tiles@[t as int].img.spec_pixel(
                        x - x0,
                        y - y0,
                    ));
                }
                assert forall|x: int, y: int|
                    0 <= x < cw && 0 <= y < row * th implies #[trigger] canvas.spec_pixel(x, y)
                    == unpainted.spec_pixel(x, y) by {
                    assert(!(y0 <= y < y0 + th));
                }
                assert forall|x: int, y: int|
                    0 <= x < col * tw && row * th <= y < row * th + th implies #[trigger] canvas
                    .spec_pixel(x, y) == unpainted.spec_pixel(x, y) by {
                    assert(!(x0 <= x < x0 + tw));
                }
            }
            col = col + 1;
        }
        proof {
            assert forall|x: int, y: int|
                0 <= x < cw && 0 <= y < row * th + th implies #[trigger] canvas.spec_pixel(x, y)
                == mosaic_pixel(
                source.pixels@,
                source.width as int,
                lib.imgs(),
                lib.avgs(),
                stride as int,
                tw as int,
                th as int,
                x,
                y,
            ) by {
                assert(cols * tw == cw);
            }
            lemma_mul_is_distributive_add_other_way(th as int, row as int, 1);
        }
        row = row + 1;
    }
    canvas
}

} // verus!
