//! The tile library: fixed-size candidate images annotated with their
//! average color, and nearest-color lookup over them.

use vstd::prelude::*;

verus! {

use crate::color::Color;
use crate::color::avg_of;
use crate::color::dist_sq;
use crate::color::dist_sq_of;
use crate::color::lemma_avg_wf;
use crate::color::lemma_dist_zero;
use crate::decode::decode_fit;
use crate::decode::fitted_image;
use crate::img::Img;
use crate::img::MAX_DIM;
use crate::pipeline::MosaicError;

/// A candidate image, already resized to the library's tile size, with
/// its precomputed average color.
pub struct Tile {
    pub img: Img,
    pub avg: Color,
}

/// An ordered, non-empty sequence of same-sized tiles.
pub struct TileLibrary {
    pub tiles: Vec<Tile>,
    pub tile_width: u32,
    pub tile_height: u32,
}

impl TileLibrary {
    /// Every tile is a well-formed image of the library's tile size, and
    /// carries the average color of its own pixels; the library is never
    /// empty.
    pub open spec fn wf(self) -> bool {
        &&& 1 <= self.tile_width <= MAX_DIM
        &&& 1 <= self.tile_height <= MAX_DIM
        &&& self.tiles@.len() >= 1
        &&& forall|i: int|
            0 <= i < self.tiles@.len() ==> {
                let t = #[trigger] self.tiles@[i];
                &&& t.img.wf()
                &&& t.img.width == self.tile_width
                &&& t.img.height == self.tile_height
                &&& t.avg == avg_of(
                    t.img.pixels@,
                    self.tile_width as int,
                    0,
                    0,
                    self.tile_width as int,
                    self.tile_height as int,
                )
            }
    }

    /// The tiles' average colors, in library order.
    pub open spec fn avgs(self) -> Seq<Color> {
        self.tiles@.map_values(|t: Tile| t.avg)
    }

    /// The tiles' pixel buffers, in library order.
    pub open spec fn imgs(self) -> Seq<Seq<(u8, u8, u8)>> {
        self.tiles@.map_values(|t: Tile| t.img.pixels@)
    }

    /// The index of the tile whose average color is nearest to `q`. The
    /// earliest index wins a tie: a later tile replaces the incumbent only
    /// with a strictly smaller distance.
    pub fn nearest(&self, q: &Color) -> (idx: usize)
        requires
            self.wf(),
            q.wf(),
        ensures
            idx == nearest_idx(self.avgs(), *q),
            idx < self.tiles@.len(),
    {
        proof {
            self.lemma_avg_entry_wf(0);
        }
        let mut best: usize = 0;
        let mut best_d: u64 = dist_sq(&self.tiles[0].avg, q);
        let mut i: usize = 1;
        while i < self.tiles.len()
            invariant
                self.wf(),
                q.wf(),
                1 <= i <= self.tiles@.len(),
                best < i,
                best == nearest_idx(self.avgs().take(i as int), *q),
                best_d == dist_sq_of(self.avgs()[best as int], *q),
            decreases self.tiles@.len() - i,
        {
            proof {
                self.lemma_avg_entry_wf(i as int);
            }
            let d = dist_sq(&self.tiles[i].avg, q);
            proof {
                assert(self.avgs().take(i + 1).drop_last() =~= self.avgs().take(i as int));
            }
            if d < best_d {
                best = i;
                best_d = d;
            }
            i = i + 1;
        }
        proof {
            assert(self.avgs().take(self.tiles@.len() as int) =~= self.avgs());
        }
        best
    }

    /// Each stored average is a well-formed color.
    pub proof fn lemma_avg_entry_wf(self, i: int)
        requires
            self.wf(),
            0 <= i < self.tiles@.len(),
        ensures
            self.tiles@[i].avg.wf(),
            self.avgs()[i].wf(),
    {
        lemma_avg_wf(
            self.tiles@[i].img.pixels@,
            self.tile_width as int,
            0,
            0,
            self.tile_width as int,
            self.tile_height as int,
        );
    }

    /// Builds a library from already-decoded, already-fitted images, in
    /// the given order. An empty input is the `EmptyLibrary` failure.
    pub fn from_images(imgs: Vec<Img>, tile_width: u32, tile_height: u32) -> (r: Result<
        TileLibrary,
        MosaicError,
    >)
        requires
            1 <= tile_width <= MAX_DIM,
            1 <= tile_height <= MAX_DIM,
            forall|i: int|
                0 <= i < imgs@.len() ==> (#[trigger] imgs@[i]).wf() && imgs@[i].width == tile_width
                    && imgs@[i].height == tile_height,
        ensures
            match r {
                Ok(lib) => {
                    &&& imgs@.len() >= 1
                    &&& lib.wf()
                    &&& lib.tile_width == tile_width
                    &&& lib.tile_height == tile_height
                    &&& lib.tiles@.len() == imgs@.len()
                    &&& forall|i: int|
                        0 <= i < imgs@.len() ==> (#[trigger] lib.tiles@[i]).img == imgs@[i]
                },
                Err(e) => e == MosaicError::EmptyLibrary && imgs@.len() == 0,
            },
    {
        let ghost orig = imgs@;
        let mut imgs = imgs;
        let mut tiles: Vec<Tile> = Vec::new();
        let mut k: usize = 0;
        let n = imgs.len();
        while k < n
            invariant
                1 <= tile_width <= MAX_DIM,
                1 <= tile_height <= MAX_DIM,
                forall|i: int|
                    0 <= i < orig.len() ==> (#[trigger] orig[i]).wf() && orig[i].width == tile_width
                        && orig[i].height == tile_height,
                n == orig.len(),
                k <= n,
                imgs@ =~= orig.skip(k as int),
                tiles@.len() == k,
                forall|i: int| 0 <= i < k ==> (#[trigger] tiles@[i]).img == orig[i],
                forall|i: int|
                    0 <= i < k ==> (#[trigger] tiles@[i]).avg == avg_of(
                        orig[i].pixels@,
                        tile_width as int,
                        0,
                        0,
                        tile_width as int,
                        tile_height as int,
                    ),
            decreases n - k,
        {
            let img = imgs.remove(0);
            proof {
                assert(img == orig[k as int]);
                assert(imgs@ =~= orig.skip(k + 1));
            }
            let avg = crate::color::average_color(&img, 0, 0, tile_width, tile_height);
            tiles.push(Tile { img, avg });
            k = k + 1;
        }
        if tiles.len() == 0 {
            Err(MosaicError::EmptyLibrary)
        } else {
            Ok(TileLibrary { tiles, tile_width, tile_height })
        }
    }

    /// Builds a library from the raw bytes of candidate files: each one
    /// that decodes is fitted to the tile size and appended in input
    /// order; one that does not decode is skipped. Zero decodable tiles
    /// is the `EmptyLibrary` failure.
    pub fn build_from_bytes(files: &Vec<Vec<u8>>, tile_width: u32, tile_height: u32) -> (r: Result<
        TileLibrary,
        MosaicError,
    >)
        requires
            1 <= tile_width <= MAX_DIM,
            1 <= tile_height <= MAX_DIM,
        ensures
            match r {
                Ok(lib) => {
                    let built = built_tiles(views_of(files@), tile_width, tile_height);
                    &&& built.len() >= 1
                    &&& lib.wf()
                    &&& lib.tile_width == tile_width
                    &&& lib.tile_height == tile_height
                    &&& lib.tiles@.len() == built.len()
                    &&& forall|i: int|
                        0 <= i < built.len() ==> (#[trigger] lib.tiles@[i]).img.pixels@ == built[i]
                },
                Err(e) => e == MosaicError::EmptyLibrary && built_tiles(
                    views_of(files@),
                    tile_width,
                    tile_height,
                ).len() == 0,
            },
    {
        let mut tiles: Vec<Tile> = Vec::new();
        let mut k: usize = 0;
        while k < files.len()
            invariant
                1 <= tile_width <= MAX_DIM,
                1 <= tile_height <= MAX_DIM,
                k <= files@.len(),
                tiles@.len() == built_tiles(
                    views_of(files@).take(k as int),
                    tile_width,
                    tile_height,
                ).len(),
                forall|i: int|
                    0 <= i < tiles@.len() ==> {
                        let t = #[trigger] tiles@[i];
                        &&& t.img.wf()
                        &&& t.img.width == tile_width
                        &&& t.img.height == tile_height
                        &&& t.avg == avg_of(
                            t.img.pixels@,
                            tile_width as int,
                            0,
                            0,
                            tile_width as int,
                            tile_height as int,
                        )
                        &&& t.img.pixels@ == built_tiles(
                            views_of(files@).take(k as int),
                            tile_width,
                            tile_height,
                        )[i]
                    },
            decreases files@.len() - k,
        {
            let ghost pre = views_of(files@).take(k as int);
            let ghost post = views_of(files@).take(k + 1);
            proof {
                assert(post.drop_last() =~= pre);
                assert(post.last() == files@[k as int]@);
            }
            match decode_fit(&files[k], tile_width, tile_height) {
                Some(img) => {
                    if img.width == tile_width && img.height == tile_height {
                        let avg = crate::color::average_color(
                            &img,
                            0,
                            0,
                            tile_width,
                            tile_height,
                        );
                        tiles.push(Tile { img, avg });
                    }
                },
                None => {},
            }
            k = k + 1;
        }
        proof {
            assert(views_of(files@).take(files@.len() as int) =~= views_of(files@));
        }
        if tiles.len() == 0 {
            Err(MosaicError::EmptyLibrary)
        } else {
            Ok(TileLibrary { tiles, tile_width, tile_height })
        }
    }
}

/// The views of a sequence of byte vectors.
pub open spec fn views_of(files: Seq<Vec<u8>>) -> Seq<Seq<u8>> {
    files.map_values(|f: Vec<u8>| f@)
}

/// The pixel buffers of the tiles that building a library from these byte
/// streams produces: each stream that decodes to a raster of exactly the
/// requested size contributes its pixels, in input order.
pub open spec fn built_tiles(files: Seq<Seq<u8>>, tw: u32, th: u32) -> Seq<Seq<(u8, u8, u8)>>
    decreases files.len(),
{
    if files.len() == 0 {
        Seq::empty()
    } else {
        let rest = built_tiles(files.drop_last(), tw, th);
        match fitted_image(files.last(), tw, th) {
            Some(t) => if t.0 == tw && t.1 == th && t.2.len() == tw * th {
                rest.push(t.2)
            } else {
                rest
            },
            None => rest,
        }
    }
}

/// The index of the color in `avgs` nearest to `q`, the earliest among
/// equally near ones: a later color displaces the incumbent only with a
/// strictly smaller squared distance.
pub open spec fn nearest_idx(avgs: Seq<Color>, q: Color) -> int
    decreases avgs.len(),
{
    if avgs.len() <= 1 {
        0
    } else {
        let prev = nearest_idx(avgs.drop_last(), q);
        if dist_sq_of(avgs.last(), q) < dist_sq_of(avgs[prev], q) {
            avgs.len() - 1
        } else {
            prev
        }
    }
}

/// The nearest index is in range, its distance is minimal, and every
/// earlier color is strictly farther.
pub proof fn lemma_nearest_props(avgs: Seq<Color>, q: Color)
    requires
        avgs.len() >= 1,
    ensures
        0 <= nearest_idx(avgs, q) < avgs.len(),
        forall|i: int|
            0 <= i < avgs.len() ==> dist_sq_of(avgs[nearest_idx(avgs, q)], q) <= dist_sq_of(
                #[trigger] avgs[i],
                q,
            ),
        forall|i: int|
            0 <= i < nearest_idx(avgs, q) ==> dist_sq_of(#[trigger] avgs[i], q) > dist_sq_of(
                avgs[nearest_idx(avgs, q)],
                q,
            ),
    decreases avgs.len(),
{
    if avgs.len() > 1 {
        let sub = avgs.drop_last();
        lemma_nearest_props(sub, q);
        let ni = nearest_idx(avgs, q);
        let np = nearest_idx(sub, q);
        assert(forall|i: int| 0 <= i < sub.len() ==> #[trigger] avgs[i] == sub[i]);
        if dist_sq_of(avgs.last(), q) < dist_sq_of(avgs[np], q) {
            assert(ni == avgs.len() - 1);
            assert forall|i: int| 0 <= i < avgs.len() implies dist_sq_of(
                avgs[ni],
                q,
            ) <= dist_sq_of(#[trigger] avgs[i], q) by {
                if i < avgs.len() - 1 {
                    assert(dist_sq_of(sub[np], q) <= dist_sq_of(sub[i], q));
                }
            }
            assert forall|i: int| 0 <= i < ni implies dist_sq_of(#[trigger] avgs[i], q)
                > dist_sq_of(avgs[ni], q) by {
                assert(dist_sq_of(sub[np], q) <= dist_sq_of(sub[i], q));
            }
        } else {
            assert(ni == np);
            assert forall|i: int| 0 <= i < avgs.len() implies dist_sq_of(
                avgs[ni],
                q,
            ) <= dist_sq_of(#[trigger] avgs[i], q) by {
                if i < avgs.len() - 1 {
                    assert(dist_sq_of(sub[np], q) <= dist_sq_of(sub[i], q));
                }
            }
        }
    }
}

/// A query equal to some tile's average color finds a tile of exactly
/// that color, and no earlier tile has it.
pub proof fn lemma_nearest_exact_match(avgs: Seq<Color>, q: Color, j: int)
    requires
        avgs.len() >= 1,
        0 <= j < avgs.len(),
        avgs[j] == q,
    ensures
        avgs[nearest_idx(avgs, q)] == q,
        forall|i: int| 0 <= i < nearest_idx(avgs, q) ==> #[trigger] avgs[i] != q,
{
    lemma_nearest_props(avgs, q);
    let ni = nearest_idx(avgs, q);
    lemma_dist_zero(avgs[j], q);
    lemma_dist_zero(avgs[ni], q);
    assert forall|i: int| 0 <= i < ni implies #[trigger] avgs[i] != q by {
        lemma_dist_zero(avgs[i], q);
    }
}

/// Of two tiles with identical average color, the later one is never the
/// nearest: ties keep the lower index.
pub proof fn lemma_nearest_tie_break(avgs: Seq<Color>, q: Color, i: int, j: int)
    requires
        avgs.len() >= 1,
        0 <= i < j < avgs.len(),
        avgs[i] == avgs[j],
    ensures
        nearest_idx(avgs, q) != j,
{
    lemma_nearest_props(avgs, q);
}

} // verus!
