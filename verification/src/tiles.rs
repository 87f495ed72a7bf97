//! Tile addressing: the zoom-dependent tile grid of a panorama.

use vstd::prelude::*;

use crate::error::{StreetViewError, SvResult};
use crate::raster::Raster;
use crate::urls::{download_url_chars, lemma_download_url_injective, make_download_url};

verus! {

/// Address and download URL of one tile to fetch.
#[derive(Debug)]
pub struct TileInfo {
    pub x: u32,
    pub y: u32,
    pub url: String,
}

/// A downloaded tile: its grid address and its decoded raster.
pub struct Tile {
    pub x: u32,
    pub y: u32,
    pub image: Raster,
}

/// Width and height of one tile, in pixels.
pub const TILE_WIDTH: u32 = 512;
pub const TILE_HEIGHT: u32 = 512;

/// Grid width in tiles at a zoom level: 2^zoom.
pub open spec fn grid_width(zoom: u8) -> nat {
    pow2_nat(zoom as nat)
}

/// Grid height in tiles at a zoom level: 2^(zoom - 1).
pub open spec fn grid_height(zoom: u8) -> nat {
    pow2_nat((zoom - 1) as nat)
}

pub open spec fn pow2_nat(n: nat) -> nat
    decreases n,
{
    if n == 0 {
        1
    } else {
        2 * pow2_nat((n - 1) as nat)
    }
}

proof fn lemma_pow2_pos(n: nat)
    ensures
        pow2_nat(n) >= 1,
    decreases n,
{
    if n > 0 {
        lemma_pow2_pos((n - 1) as nat);
    }
}

proof fn lemma_pow2_mono(a: nat, b: nat)
    requires
        a <= b,
    ensures
        pow2_nat(a) <= pow2_nat(b),
    decreases b,
{
    if a < b {
        lemma_pow2_mono(a, (b - 1) as nat);
        lemma_pow2_pos((b - 1) as nat);
    }
}

proof fn lemma_pow2_bounds(n: nat)
    requires
        n <= 7,
    ensures
        pow2_nat(n) <= 128,
        pow2_nat(n) >= 1,
{
    lemma_pow2_pos(n);
    lemma_pow2_mono(n, 7);
    reveal_with_fuel(pow2_nat, 8);
    assert(pow2_nat(7) == 128);
}

/// Calculate the width and height of the panorama grid from zoom level.
///
/// Returns (width_in_tiles, height_in_tiles).
pub fn get_width_and_height_from_zoom(zoom: u8) -> (r: (u32, u32))
    requires
        1 <= zoom <= 7,
    ensures
        r.0 == grid_width(zoom),
        r.1 == grid_height(zoom),
        r.0 == 2 * r.1,
        2 <= r.0 <= 128,
{
    proof {
        lemma_pow2_bounds(zoom as nat);
        lemma_pow2_bounds((zoom - 1) as nat);
    }
    let mut width: u32 = 1;
    let mut i: u8 = 0;
    while i < zoom
        invariant
            i <= zoom <= 7,
            width == pow2_nat(i as nat),
            width <= 128,
        decreases zoom - i,
    {
        proof {
            lemma_pow2_bounds((i + 1) as nat);
        }
        width = 2 * width;
        i = i + 1;
    }
    (width, width / 2)
}

/// The zoom domain check, made before any network work begins.
pub fn check_zoom(zoom: u8) -> (r: SvResult<()>)
    ensures
        r is Ok <==> 1 <= zoom <= 7,
        r is Err ==> r->Err_0 is InvalidParameter,
{
    if 1 <= zoom && zoom <= 7 {
        Ok(())
    } else {
        Err(StreetViewError::InvalidParameter("Zoom level must be between 1 and 7".to_owned()))
    }
}

/// Enumerate the tiles of one panorama at one zoom level, row-major: the
/// grid row is the index divided by the grid width, the column its
/// remainder, and each tile carries its download URL.
pub fn iter_tile_info(pano_id: &str, zoom: u8) -> (tiles: Vec<TileInfo>)
    requires
        1 <= zoom <= 7,
    ensures
        tiles@.len() == grid_width(zoom) * grid_height(zoom),
        forall|i: int|
            0 <= i < tiles@.len() ==> {
                let t = #[trigger] tiles@[i];
                &&& t.x == i % (grid_width(zoom) as int)
                &&& t.y == i / (grid_width(zoom) as int)
                &&& t.url@ == download_url_chars(pano_id@, zoom as int, t.x as int, t.y as int)
            },
        tiles@.len() > 0,
        tiles@[0].x == 0 && tiles@[0].y == 0,
        tiles@.last().x == grid_width(zoom) - 1,
        tiles@.last().y == grid_height(zoom) - 1,
{
    let (gw, gh) = get_width_and_height_from_zoom(zoom);
    let mut tiles: Vec<TileInfo> = Vec::new();
    let mut y: u32 = 0;
    while y < gh
        invariant
            1 <= zoom <= 7,
            gw == grid_width(zoom),
            gh == grid_height(zoom),
            2 <= gw <= 128,
            y <= gh,
            tiles@.len() == (y as int) * (gw as int),
            forall|i: int|
                0 <= i < tiles@.len() ==> {
                    let t = #[trigger] tiles@[i];
                    &&& t.x == i % (gw as int)
                    &&& t.y == i / (gw as int)
                    &&& t.url@ == download_url_chars(pano_id@, zoom as int, t.x as int, t.y as int)
                },
        decreases gh - y,
    {
        let mut x: u32 = 0;
        while x < gw
            invariant
                1 <= zoom <= 7,
                gw == grid_width(zoom),
                gh == grid_height(zoom),
                2 <= gw <= 128,
                y < gh,
                x <= gw,
                tiles@.len() == (y as int) * (gw as int) + (x as int),
                forall|i: int|
                    0 <= i < tiles@.len() ==> {
                        let t = #[trigger] tiles@[i];
                        &&& t.x == i % (gw as int)
                        &&& t.y == i / (gw as int)
                        &&& t.url@ == download_url_chars(
                            pano_id@,
                            zoom as int,
                            t.x as int,
                            t.y as int,
                        )
                    },
            decreases gw - x,
        {
            let url = make_download_url(pano_id, zoom, x, y);
            proof {
                vstd::arithmetic::div_mod::lemma_fundamental_div_mod_converse(
                    (y as int) * (gw as int) + (x as int),
                    gw as int,
                    y as int,
                    x as int,
                );
            }
            tiles.push(TileInfo { x, y, url });
            x = x + 1;
        }
        proof {
            assert((y as int) * (gw as int) + (gw as int) == ((y as int) + 1) * (gw as int))
                by (nonlinear_arith);
        }
        y = y + 1;
    }
    proof {
        let gwi = gw as int;
        let ghi = gh as int;
        let n = (ghi) * (gwi);
        assert(tiles@.len() == grid_width(zoom) * grid_height(zoom)) by (nonlinear_arith)
            requires
                tiles@.len() == ghi * gwi,
                gwi == grid_width(zoom),
                ghi == grid_height(zoom),
        ;
        assert(n >= 1) by (nonlinear_arith)
            requires
                gwi >= 2,
                ghi >= 1,
                n == ghi * gwi,
        ;
        vstd::arithmetic::div_mod::lemma_fundamental_div_mod_converse(0int, gwi, 0int, 0int);
        assert((ghi - 1) * gwi + (gwi - 1) == n - 1) by (nonlinear_arith)
            requires
                n == ghi * gwi,
        ;
        vstd::arithmetic::div_mod::lemma_fundamental_div_mod_converse(
            n - 1,
            gwi,
            ghi - 1,
            gwi - 1,
        );
    }
    tiles
}

/// Row-major enumeration yields pairwise distinct addresses: two different
/// indices never name the same tile.
pub proof fn lemma_tile_addresses_unique(tiles: Seq<TileInfo>, w: int)
    requires
        w >= 1,
        forall|i: int|
            0 <= i < tiles.len() ==> (#[trigger] tiles[i]).x == i % w && tiles[i].y == i / w,
    ensures
        forall|i: int, j: int|
            #![trigger tiles[i], tiles[j]]
            0 <= i < j < tiles.len() ==> !(tiles[i].x == tiles[j].x && tiles[i].y == tiles[j].y),
{
    assert forall|i: int, j: int|
        #![trigger tiles[i], tiles[j]]
        0 <= i < j < tiles.len() implies !(tiles[i].x == tiles[j].x && tiles[i].y
        == tiles[j].y) by {
        vstd::arithmetic::div_mod::lemma_fundamental_div_mod(i, w);
        vstd::arithmetic::div_mod::lemma_fundamental_div_mod(j, w);
    }
}

/// The locators of an enumeration are injective: two different tiles of
/// one panorama at one zoom level never share a download URL.
pub proof fn lemma_tile_urls_unique(tiles: Seq<TileInfo>, pano: Seq<char>, zoom: u8, w: int)
    requires
        w >= 1,
        forall|i: int|
            0 <= i < tiles.len() ==> {
                let t = #[trigger] tiles[i];
                &&& t.x == i % w
                &&& t.y == i / w
                &&& t.url@ == download_url_chars(pano, zoom as int, t.x as int, t.y as int)
            },
    ensures
        forall|i: int, j: int|
            #![trigger tiles[i], tiles[j]]
            0 <= i < j < tiles.len() ==> tiles[i].url@ != tiles[j].url@,
{
    lemma_tile_addresses_unique(tiles, w);
    assert forall|i: int, j: int|
        #![trigger tiles[i], tiles[j]]
        0 <= i < j < tiles.len() implies tiles[i].url@ != tiles[j].url@ by {
        if tiles[i].url@ == tiles[j].url@ {
            lemma_download_url_injective(
                pano,
                zoom as int,
                tiles[i].x as int,
                tiles[i].y as int,
                zoom as int,
                tiles[j].x as int,
                tiles[j].y as int,
            );
        }
    }
}

} // verus!

