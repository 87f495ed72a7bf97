//! Deterministic tile-to-panorama assembly.
//!
//! A complete set of decoded tiles for one zoom level is pasted into a
//! single raster, each tile at the fixed offset its grid address gives it.
//! Arrival order never shows in the output: every pixel is determined by
//! the tile that covers it.

use vstd::prelude::*;

use crate::error::{StreetViewError, SvResult};
use crate::raster::{lemma_raster_ext, Raster};
use crate::tiles::{grid_height, grid_width, Tile, TILE_HEIGHT, TILE_WIDTH};

verus! {

/// Whether the tile's rectangle covers the panorama pixel `(x, y)`.
pub open spec fn covers(t: Tile, x: int, y: int) -> bool {
    &&& (t.x as int) * (TILE_WIDTH as int) <= x < (t.x as int) * (TILE_WIDTH as int) + (
    TILE_WIDTH as int)
    &&& (t.y as int) * (TILE_HEIGHT as int) <= y < (t.y as int) * (TILE_HEIGHT as int) + (
    TILE_HEIGHT as int)
}

/// Index of the tile that decides pixel `(x, y)`: the last one in paste
/// order whose rectangle covers it, or `-1` when none does.
pub open spec fn last_cover(tiles: Seq<Tile>, x: int, y: int) -> int
    decreases tiles.len(),
{
    if tiles.len() == 0 {
        -1
    } else if covers(tiles.last(), x, y) {
        tiles.len() - 1
    } else {
        last_cover(tiles.drop_last(), x, y)
    }
}

/// Channel `c` of panorama pixel `(x, y)` once `tiles` have been pasted in
/// order onto a black background.
pub open spec fn assembled_pix(tiles: Seq<Tile>, x: int, y: int, c: int) -> u8 {
    let i = last_cover(tiles, x, y);
    if i >= 0 {
        let t = tiles[i];
        t.image.pix(
            x - (t.x as int) * (TILE_WIDTH as int),
            y - (t.y as int) * (TILE_HEIGHT as int),
            c,
        )
    } else {
        0
    }
}

/// A tile the assembler accepts: the fixed tile size, at an address inside
/// the grid of the zoom level.
pub open spec fn tile_fits(t: Tile, zoom: u8) -> bool {
    &&& t.image.width == TILE_WIDTH
    &&& t.image.height == TILE_HEIGHT
    &&& (t.x as int) < grid_width(zoom)
    &&& (t.y as int) < grid_height(zoom)
}

/// Assemble the tiles of one zoom level into a panorama raster.
///
/// The output is `grid_width * TILE_WIDTH` by `grid_height * TILE_HEIGHT`
/// pixels; each pixel comes from the tile covering it, pixels no tile
/// covers are black. The first tile of the wrong size fails the call with
/// `DimensionMismatch`; the first one addressed outside the grid, with
/// `InvalidParameter`. A panorama too large for the address space is also
/// rejected; short of that, a set of fitting tiles always assembles.
pub fn assemble_tiles(tiles: Vec<Tile>, zoom: u8) -> (r: SvResult<Raster>)
    requires
        1 <= zoom <= 7,
        forall|i: int| 0 <= i < tiles@.len() ==> (#[trigger] tiles@[i]).image.wf(),
    ensures
        (3 * (grid_width(zoom) * (TILE_WIDTH as int)) * (grid_height(zoom) * (
        TILE_HEIGHT as int)) <= usize::MAX && (forall|i: int|
            0 <= i < tiles@.len() ==> tile_fits(#[trigger] tiles@[i], zoom))) ==> r is Ok,
        match r {
            Ok(p) => {
                &&& forall|i: int| 0 <= i < tiles@.len() ==> tile_fits(#[trigger] tiles@[i], zoom)
                &&& p.wf()
                &&& p.width == grid_width(zoom) * (TILE_WIDTH as nat)
                &&& p.height == grid_height(zoom) * (TILE_HEIGHT as nat)
                &&& forall|x: int, y: int, c: int|
                    0 <= x < p.width && 0 <= y < p.height && 0 <= c < 3 ==> #[trigger] p.pix(
                        x,
                        y,
                        c,
                    ) == assembled_pix(tiles@, x, y, c)
            },
            Err(e) => {
                ||| (3 * (grid_width(zoom) * (TILE_WIDTH as int)) * (grid_height(zoom) * (
                TILE_HEIGHT as int)) > usize::MAX && e is InvalidParameter)
                ||| (exists|i: int|
                    0 <= i < tiles@.len() && !tile_fits(#[trigger] tiles@[i], zoom) && (forall|
                        j: int,
                    | 0 <= j < i ==> tile_fits(#[trigger] tiles@[j], zoom)) && (if !(tiles@[i].image.width
                        == TILE_WIDTH && tiles@[i].image.height == TILE_HEIGHT) {
                        e == (StreetViewError::DimensionMismatch {
                            x: tiles@[i].x,
                            y: tiles@[i].y,
                            width: tiles@[i].image.width,
                            height: tiles@[i].image.height,
                        })
                    } else {
                        e is InvalidParameter
                    }))
            },
        },
{
    let (gw, gh) = crate::tiles::get_width_and_height_from_zoom(zoom);
    let width_px: u32 = gw * TILE_WIDTH;
    let height_px: u32 = gh * TILE_HEIGHT;

    // Reject malformed tiles first, in order.
    let mut i: usize = 0;
    while i < tiles.len()
        invariant
            i <= tiles@.len(),
            forall|j: int| 0 <= j < i ==> tile_fits(#[trigger] tiles@[j], zoom),
            gw == grid_width(zoom),
            gh == grid_height(zoom),
        decreases tiles@.len() - i,
    {
        let t = &tiles[i];
        if !(t.image.width == TILE_WIDTH && t.image.height == TILE_HEIGHT) {
            return Err(
                StreetViewError::DimensionMismatch {
                    x: t.x,
                    y: t.y,
                    width: t.image.width,
                    height: t.image.height,
                },
            );
        }
        if !(t.x < gw && t.y < gh) {
            return Err(
                StreetViewError::InvalidParameter("tile address outside the grid".to_owned()),
            );
        }
        i = i + 1;
    }

    let mut panorama = match Raster::filled(width_px, height_px, 0, 0, 0) {
        Some(p) => p,
        None => {
            return Err(
                StreetViewError::InvalidParameter(
                    "panorama does not fit in the address space".to_owned(),
                ),
            );
        },
    };
    proof {
        assert forall|x: int, y: int, c: int|
            0 <= x < panorama.width && 0 <= y < panorama.height && 0 <= c < 3
            implies #[trigger] panorama.pix(x, y, c) == assembled_pix(tiles@.take(0), x, y, c) by {
            assert(tiles@.take(0).len() == 0);
        }
    }

    // Paste every tile at the offset its address gives it.
    let mut k: usize = 0;
    while k < tiles.len()
        invariant
            forall|j: int| 0 <= j < tiles@.len() ==> tile_fits(#[trigger] tiles@[j], zoom),
            forall|j: int| 0 <= j < tiles@.len() ==> (#[trigger] tiles@[j]).image.wf(),
            k <= tiles@.len(),
            gw == grid_width(zoom),
            gh == grid_height(zoom),
            width_px == gw * TILE_WIDTH,
            height_px == gh * TILE_HEIGHT,
            panorama.wf(),
            panorama.width == width_px,
            panorama.height == height_px,
            forall|x: int, y: int, c: int|
                0 <= x < panorama.width && 0 <= y < panorama.height && 0 <= c < 3
                    ==> #[trigger] panorama.pix(x, y, c) == assembled_pix(
                    tiles@.take(k as int),
                    x,
                    y,
                    c,
                ),
        decreases tiles@.len() - k,
    {
        let t = &tiles[k];
        let ox: u32 = t.x * TILE_WIDTH;
        let oy: u32 = t.y * TILE_HEIGHT;
        proof {
            assert((t.x as int) * (TILE_WIDTH as int) + (TILE_WIDTH as int) <= (gw as int) * (
            TILE_WIDTH as int)) by (nonlinear_arith)
                requires
                    (t.x as int) < gw as int,
            ;
            assert((t.y as int) * (TILE_HEIGHT as int) + (TILE_HEIGHT as int) <= (gh as int) * (
            TILE_HEIGHT as int)) by (nonlinear_arith)
                requires
                    (t.y as int) < gh as int,
            ;
        }
        let ghost before = panorama;
        panorama.paste(&t.image, ox, oy);
        proof {
            let tk = tiles@[k as int];
            let prefix = tiles@.take(k as int);
            let next = tiles@.take(k as int + 1);
            assert(next.drop_last() =~= prefix);
            assert(next.last() == tk);
            assert forall|x: int, y: int, c: int|
                0 <= x < panorama.width && 0 <= y < panorama.height && 0 <= c < 3
                implies #[trigger] panorama.pix(x, y, c) == assembled_pix(next, x, y, c) by {
                if covers(tk, x, y) {
                    assert(next[k as int] == tk);
                    assert(last_cover(next, x, y) == k as int);
                } else {
                    assert(last_cover(next, x, y) == last_cover(prefix, x, y));
                    assert(panorama.pix(x, y, c) == before.pix(x, y, c));
                    let lc = last_cover(prefix, x, y);
                    lemma_last_cover_props(prefix, x, y);
                    if lc >= 0 {
                        assert(next[lc] == prefix[lc]);
                    }
                }
            }
        }
        k = k + 1;
    }
    proof {
        assert(tiles@.take(tiles@.len() as int) =~= tiles@);
    }
    Ok(panorama)
}

/// No two tiles share a grid address.
pub open spec fn unique_addresses(tiles: Seq<Tile>) -> bool {
    forall|i: int, j: int|
        #![trigger tiles[i], tiles[j]]
        0 <= i < j < tiles.len() ==> !(tiles[i].x == tiles[j].x && tiles[i].y == tiles[j].y)
}

/// A tile that decides a pixel is in the sequence and covers the pixel;
/// when no tile decides it, none covers it.
proof fn lemma_last_cover_props(tiles: Seq<Tile>, x: int, y: int)
    ensures
        last_cover(tiles, x, y) >= 0 ==> 0 <= last_cover(tiles, x, y) < tiles.len() && covers(
            tiles[last_cover(tiles, x, y)],
            x,
            y,
        ),
        last_cover(tiles, x, y) < 0 ==> forall|i: int|
            0 <= i < tiles.len() ==> !covers(#[trigger] tiles[i], x, y),
    decreases tiles.len(),
{
    if tiles.len() > 0 {
        lemma_last_cover_props(tiles.drop_last(), x, y);
        if !covers(tiles.last(), x, y) {
            assert forall|i: int|
                last_cover(tiles, x, y) < 0 && 0 <= i < tiles.len() implies !covers(
                #[trigger] tiles[i],
                x,
                y,
            ) by {
                if i < tiles.len() - 1 {
                    assert(tiles.drop_last()[i] == tiles[i]);
                }
            }
        }
    }
}

/// Two tiles covering the same pixel sit at the same grid address.
proof fn lemma_covers_same_address(a: Tile, b: Tile, x: int, y: int)
    requires
        covers(a, x, y),
        covers(b, x, y),
    ensures
        a.x == b.x && a.y == b.y,
{
    assert(a.x as int == b.x as int) by (nonlinear_arith)
        requires
            (a.x as int) * 512 <= x < (a.x as int) * 512 + 512,
            (b.x as int) * 512 <= x < (b.x as int) * 512 + 512,
    ;
    assert(a.y as int == b.y as int) by (nonlinear_arith)
        requires
            (a.y as int) * 512 <= y < (a.y as int) * 512 + 512,
            (b.y as int) * 512 <= y < (b.y as int) * 512 + 512,
    ;
}

/// Assembly is order-independent: two sequences holding the same tiles,
/// each grid address at most once, assemble to the same value at every
/// pixel. Shuffling the tiles before assembling changes nothing.
pub proof fn lemma_assembly_order_independent(t1: Seq<Tile>, t2: Seq<Tile>, x: int, y: int, c: int)
    requires
        unique_addresses(t1),
        forall|t: Tile| t1.contains(t) <==> t2.contains(t),
    ensures
        assembled_pix(t1, x, y, c) == assembled_pix(t2, x, y, c),
{
    lemma_last_cover_props(t1, x, y);
    lemma_last_cover_props(t2, x, y);
    let i1 = last_cover(t1, x, y);
    let i2 = last_cover(t2, x, y);
    if i1 >= 0 {
        let v1 = t1[i1];
        assert(t1.contains(v1));
        assert(t2.contains(v1));
        assert(i2 >= 0) by {
            if i2 < 0 {
                let w = choose|i: int| 0 <= i < t2.len() && t2[i] == v1;
                assert(!covers(t2[w], x, y));
            }
        }
        let v2 = t2[i2];
        assert(t2.contains(v2));
        assert(t1.contains(v2));
        lemma_covers_same_address(v1, v2, x, y);
        let j = choose|i: int| 0 <= i < t1.len() && t1[i] == v2;
        if j != i1 {
            assert(!(t1[i1].x == t1[j].x && t1[i1].y == t1[j].y));
        }
        assert(v1 == v2);
    } else {
        if i2 >= 0 {
            let v2 = t2[i2];
            assert(t2.contains(v2));
            assert(t1.contains(v2));
            let w = choose|i: int| 0 <= i < t1.len() && t1[i] == v2;
            assert(!covers(t1[w], x, y));
        }
    }
}

/// The raster-level reading of order independence: two panoramas assembled
/// from the same unique-address tile set hold identical bytes.
pub proof fn lemma_assembled_rasters_equal(
    t1: Seq<Tile>,
    t2: Seq<Tile>,
    p1: Raster,
    p2: Raster,
)
    requires
        unique_addresses(t1),
        forall|t: Tile| t1.contains(t) <==> t2.contains(t),
        p1.wf(),
        p2.wf(),
        p1.width == p2.width,
        p1.height == p2.height,
        forall|x: int, y: int, c: int|
            0 <= x < p1.width && 0 <= y < p1.height && 0 <= c < 3 ==> #[trigger] p1.pix(x, y, c)
                == assembled_pix(t1, x, y, c),
        forall|x: int, y: int, c: int|
            0 <= x < p2.width && 0 <= y < p2.height && 0 <= c < 3 ==> #[trigger] p2.pix(x, y, c)
                == assembled_pix(t2, x, y, c),
    ensures
        p1.data@ == p2.data@,
{
    assert forall|x: int, y: int, c: int|
        0 <= x < p1.width && 0 <= y < p1.height && 0 <= c < 3 implies p1.pix(x, y, c) == p2.pix(
        x,
        y,
        c,
    ) by {
        lemma_assembly_order_independent(t1, t2, x, y, c);
    }
    lemma_raster_ext(p1, p2);
}

} // verus!
