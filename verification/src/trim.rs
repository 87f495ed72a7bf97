//! Trimming near-black padding from the bottom and right edges of a raster.
//!
//! The raster is converted to single-channel luminance; a pixel is dark when
//! its luminance is at or below `BLACK_LUMINANCE_THRESHOLD`. Scanning rows
//! from the bottom upward finds the first row with a bright pixel; the crop
//! boundary is the row below it, so every row below the boundary is dark by
//! construction. Columns are then scanned from the right inward the same
//! way, restricted to the rows that survive the vertical crop. An image with
//! no bright pixel at all is returned unchanged, as is one whose last row
//! and column already hold content.

use vstd::prelude::*;

use crate::raster::Raster;

verus! {

/// Luminance at or below this value counts as black padding.
pub const BLACK_LUMINANCE_THRESHOLD: u8 = 4;

/// Luminance of one RGB pixel, as `image::DynamicImage::to_luma8` computes
/// it. The value depends on the three channel bytes alone.
pub uninterp spec fn luma_of(red: u8, green: u8, blue: u8) -> u8;

/// The luminance plane of a raster: one byte per pixel, row-major.
pub open spec fn luma_seq(img: Raster) -> Seq<u8> {
    Seq::new(
        ((img.width as int) * (img.height as int)) as nat,
        |i: int| luma_of(img.data@[3 * i], img.data@[3 * i + 1], img.data@[3 * i + 2]),
    )
}

/// Relies on `image::DynamicImage::to_luma8`: grayscale conversion maps each
/// RGB pixel independently to one luminance byte, a fixed function of that
/// pixel's three channels.
#[verifier::external_body]
fn rgb_to_luma(img: &Raster) -> (l: Vec<u8>)
    requires
        img.wf(),
    ensures
        l@.len() == (img.width as int) * (img.height as int),
        forall|i: int|
            0 <= i < l@.len() ==> l@[i] == luma_of(
                img.data@[3 * i],
                img.data@[3 * i + 1],
                img.data@[3 * i + 2],
            ),
{
    let buf = image::RgbImage::from_raw(img.width, img.height, img.data.clone()).expect(
        "buffer length matches dimensions",
    );
    image::DynamicImage::ImageRgb8(buf).to_luma8().into_raw()
}

/// Every pixel of row `y` is at or below the threshold.
pub open spec fn row_all_dark(l: Seq<u8>, w: int, y: int) -> bool {
    forall|x: int| 0 <= x < w ==> #[trigger] l[y * w + x] <= BLACK_LUMINANCE_THRESHOLD
}

/// Every pixel of column `x` within rows `[0, ymax)` is at or below the
/// threshold.
pub open spec fn col_all_dark(l: Seq<u8>, w: int, x: int, ymax: int) -> bool {
    forall|y: int| 0 <= y < ymax ==> #[trigger] l[y * w + x] <= BLACK_LUMINANCE_THRESHOLD
}

/// One past the last row with a bright pixel among rows `[0, y)`, or `0`
/// if they are all dark.
pub open spec fn bottom_boundary(l: Seq<u8>, w: int, y: nat) -> nat
    decreases y,
{
    if y == 0 {
        0
    } else if !row_all_dark(l, w, y - 1) {
        y
    } else {
        bottom_boundary(l, w, (y - 1) as nat)
    }
}

/// One past the last column with a bright pixel among columns `[0, x)`,
/// looking only at rows `[0, ymax)`, or `0` if they are all dark.
pub open spec fn right_boundary(l: Seq<u8>, w: int, ymax: int, x: nat) -> nat
    decreases x,
{
    if x == 0 {
        0
    } else if !col_all_dark(l, w, x - 1, ymax) {
        x
    } else {
        right_boundary(l, w, ymax, (x - 1) as nat)
    }
}

/// Height of the trimmed raster: the vertical crop boundary, or the full
/// height when no row holds content.
pub open spec fn spec_trim_height(l: Seq<u8>, w: int, h: nat) -> nat {
    let b = bottom_boundary(l, w, h);
    if b == 0 {
        h
    } else {
        b
    }
}

/// Width of the trimmed raster: the horizontal crop boundary over the rows
/// that survive the vertical crop, or the full width when none of those
/// rows holds content.
pub open spec fn spec_trim_width(l: Seq<u8>, w: nat, h: nat) -> nat {
    let bc = spec_trim_height(l, w as int, h);
    let r = right_boundary(l, w as int, bc as int, w);
    if r == 0 {
        w
    } else {
        r
    }
}

/// How the result of `crop_bottom_and_right_black_border` relates to its
/// input: the trimmed dimensions come from the luminance plane, and every
/// surviving pixel keeps its value.
pub open spec fn trim_relates(img: Raster, res: Raster) -> bool {
    &&& res.wf()
    &&& res.height == spec_trim_height(luma_seq(img), img.width as int, img.height as nat)
    &&& res.width == spec_trim_width(luma_seq(img), img.width as nat, img.height as nat)
    &&& forall|x: int, y: int, c: int|
        0 <= x < res.width && 0 <= y < res.height && 0 <= c < 3 ==> res.pix(x, y, c) == img.pix(
            x,
            y,
            c,
        )
}

/// A row-major cell offset computed from in-range coordinates lies inside a
/// `w` by `h` plane.
proof fn lemma_cell_in_bounds(x: int, y: int, w: int, h: int)
    requires
        0 <= x < w,
        0 <= y < h,
    ensures
        0 <= y * w + x < w * h,
{
    assert(0 <= y * w + x < w * h) by (nonlinear_arith)
        requires
            0 <= x < w,
            0 <= y < h,
    ;
}

/// While the rows scanned so far are all dark, the boundary among all rows
/// equals the boundary among the rows not yet scanned.
proof fn lemma_bottom_boundary_dark_suffix(l: Seq<u8>, w: int, y: nat, h: nat)
    requires
        y <= h,
        forall|r: int| y <= r < h ==> row_all_dark(l, w, r),
    ensures
        bottom_boundary(l, w, h) == bottom_boundary(l, w, y),
    decreases h - y,
{
    if y < h {
        assert(row_all_dark(l, w, h - 1));
        lemma_bottom_boundary_dark_suffix(l, w, y, (h - 1) as nat);
    }
}

/// While the columns scanned so far are all dark, the boundary among all
/// columns equals the boundary among the columns not yet scanned.
proof fn lemma_right_boundary_dark_suffix(l: Seq<u8>, w: int, ymax: int, x: nat, full: nat)
    requires
        x <= full,
        forall|cc: int| x <= cc < full ==> col_all_dark(l, w, cc, ymax),
    ensures
        right_boundary(l, w, ymax, full) == right_boundary(l, w, ymax, x),
    decreases full - x,
{
    if x < full {
        assert(col_all_dark(l, w, full - 1, ymax));
        lemma_right_boundary_dark_suffix(l, w, ymax, x, (full - 1) as nat);
    }
}

fn row_has_bright(l: &Vec<u8>, w: u32, h: u32, y: u32) -> (b: bool)
    requires
        l@.len() == (w as int) * (h as int),
        y < h,
    ensures
        b == !row_all_dark(l@, w as int, y as int),
{
    let n = l.len();
    let mut x: u32 = 0;
    while x < w
        invariant
            x <= w,
            y < h,
            l@.len() == (w as int) * (h as int),
            n == l@.len(),
            forall|xx: int|
                0 <= xx < x ==> #[trigger] l@[(y as int) * (w as int) + xx]
                    <= BLACK_LUMINANCE_THRESHOLD,
        decreases w - x,
    {
        proof {
            lemma_cell_in_bounds(x as int, y as int, w as int, h as int);
        }
        let idx = ((y as u64) * (w as u64) + (x as u64)) as usize;
        if l[idx] > BLACK_LUMINANCE_THRESHOLD {
            proof {
                assert(!row_all_dark(l@, w as int, y as int));
            }
            return true;
        }
        x = x + 1;
    }
    false
}

fn col_has_bright(l: &Vec<u8>, w: u32, h: u32, x: u32, ymax: u32) -> (b: bool)
    requires
        l@.len() == (w as int) * (h as int),
        x < w,
        ymax <= h,
    ensures
        b == !col_all_dark(l@, w as int, x as int, ymax as int),
{
    let n = l.len();
    let mut y: u32 = 0;
    while y < ymax
        invariant
            y <= ymax,
            ymax <= h,
            x < w,
            l@.len() == (w as int) * (h as int),
            n == l@.len(),
            forall|yy: int|
                0 <= yy < y ==> #[trigger] l@[yy * (w as int) + (x as int)]
                    <= BLACK_LUMINANCE_THRESHOLD,
        decreases ymax - y,
    {
        proof {
            lemma_cell_in_bounds(x as int, y as int, w as int, h as int);
        }
        let idx = ((y as u64) * (w as u64) + (x as u64)) as usize;
        if l[idx] > BLACK_LUMINANCE_THRESHOLD {
            proof {
                assert(!col_all_dark(l@, w as int, x as int, ymax as int));
            }
            return true;
        }
        y = y + 1;
    }
    false
}

/// Crop near-black padding from the bottom and right edges.
///
/// The result keeps the top-left corner of the input: its height is the
/// vertical crop boundary, its width the horizontal one, and every surviving
/// pixel keeps its value. An input without trimmable padding comes back
/// unchanged.
pub fn crop_bottom_and_right_black_border(img: Raster) -> (res: Raster)
    requires
        img.wf(),
    ensures
        trim_relates(img, res),
{
    let w = img.width;
    let h = img.height;
    let luma = rgb_to_luma(&img);
    proof {
        assert(luma@ =~= luma_seq(img));
    }
    let ghost l = luma_seq(img);

    // Scan rows from the bottom upward for the first bright pixel.
    let mut bottom_crop: u32 = h;
    let mut y: u32 = h;
    let mut found_row = false;
    while y > 0 && !found_row
        invariant
            y <= h,
            luma@ == l,
            l.len() == (w as int) * (h as int),
            !found_row ==> bottom_crop == h && (forall|r: int| y <= r < h ==> row_all_dark(
                l,
                w as int,
                r,
            )),
            found_row ==> {
                &&& 1 <= bottom_crop <= h
                &&& !row_all_dark(l, w as int, bottom_crop - 1)
                &&& forall|r: int| bottom_crop <= r < h ==> row_all_dark(l, w as int, r)
            },
        decreases y,
    {
        y = y - 1;
        if row_has_bright(&luma, w, h, y) {
            bottom_crop = y + 1;
            found_row = true;
        }
    }
    proof {
        if found_row {
            lemma_bottom_boundary_dark_suffix(l, w as int, bottom_crop as nat, h as nat);
            assert(bottom_boundary(l, w as int, bottom_crop as nat) == bottom_crop);
        } else {
            lemma_bottom_boundary_dark_suffix(l, w as int, 0, h as nat);
        }
        assert(bottom_crop == spec_trim_height(l, w as int, h as nat));
    }

    // Scan columns from the right inward, over the surviving rows only.
    let mut right_crop: u32 = w;
    let mut x: u32 = w;
    let mut found_col = false;
    while x > 0 && !found_col
        invariant
            x <= w,
            luma@ == l,
            l.len() == (w as int) * (h as int),
            bottom_crop <= h,
            !found_col ==> right_crop == w && (forall|cc: int| x <= cc < w ==> col_all_dark(
                l,
                w as int,
                cc,
                bottom_crop as int,
            )),
            found_col ==> {
                &&& 1 <= right_crop <= w
                &&& !col_all_dark(l, w as int, right_crop - 1, bottom_crop as int)
                &&& forall|cc: int| right_crop <= cc < w ==> col_all_dark(
                    l,
                    w as int,
                    cc,
                    bottom_crop as int,
                )
            },
        decreases x,
    {
        x = x - 1;
        if col_has_bright(&luma, w, h, x, bottom_crop) {
            right_crop = x + 1;
            found_col = true;
        }
    }
    proof {
        if found_col {
            lemma_right_boundary_dark_suffix(
                l,
                w as int,
                bottom_crop as int,
                right_crop as nat,
                w as nat,
            );
            assert(right_boundary(l, w as int, bottom_crop as int, right_crop as nat)
                == right_crop);
        } else {
            lemma_right_boundary_dark_suffix(l, w as int, bottom_crop as int, 0, w as nat);
        }
        assert(right_crop == spec_trim_width(l, w as nat, h as nat));
    }

    if bottom_crop == h && right_crop == w {
        return img;
    }
    img.crop(0, 0, right_crop, bottom_crop)
}

/// What the vertical boundary guarantees: the rows below it are dark, and
/// the row just above it, if the boundary is positive, holds content.
proof fn lemma_bottom_boundary_props(l: Seq<u8>, w: int, h: nat)
    ensures
        bottom_boundary(l, w, h) <= h,
        forall|r: int| bottom_boundary(l, w, h) <= r < h ==> row_all_dark(l, w, r),
        bottom_boundary(l, w, h) > 0 ==> !row_all_dark(l, w, bottom_boundary(l, w, h) - 1),
    decreases h,
{
    if h > 0 && row_all_dark(l, w, h - 1) {
        lemma_bottom_boundary_props(l, w, (h - 1) as nat);
    }
}

/// What the horizontal boundary guarantees, over the rows `[0, ymax)`.
proof fn lemma_right_boundary_props(l: Seq<u8>, w: int, ymax: int, x: nat)
    ensures
        right_boundary(l, w, ymax, x) <= x,
        forall|cc: int| right_boundary(l, w, ymax, x) <= cc < x ==> col_all_dark(l, w, cc, ymax),
        right_boundary(l, w, ymax, x) > 0 ==> !col_all_dark(
            l,
            w,
            right_boundary(l, w, ymax, x) - 1,
            ymax,
        ),
    decreases x,
{
    if x > 0 && col_all_dark(l, w, x - 1, ymax) {
        lemma_right_boundary_props(l, w, ymax, (x - 1) as nat);
    }
}

/// When the bottom `h - k` rows are all dark and row `k - 1`, if there is
/// one, holds a bright pixel, the trimmed height is exactly `k` — except
/// that a raster with no bright row at all keeps its full height.
pub proof fn lemma_trim_height_exact(l: Seq<u8>, w: int, h: nat, k: nat)
    requires
        k <= h,
        forall|r: int| k <= r < h ==> row_all_dark(l, w, r),
        k >= 1 ==> !row_all_dark(l, w, k - 1),
    ensures
        spec_trim_height(l, w, h) == if k == 0 {
            h as int
        } else {
            k as int
        },
{
    lemma_bottom_boundary_dark_suffix(l, w, k, h);
}

/// When the rightmost `w - k` columns are all dark over rows `[0, ymax)`
/// and column `k - 1`, if there is one, holds a bright pixel there, the
/// horizontal boundary over those rows is exactly `k` — except that with no
/// bright column at all the full width is kept.
pub proof fn lemma_trim_width_exact(l: Seq<u8>, w: nat, ymax: int, k: nat)
    requires
        k <= w,
        forall|cc: int| k <= cc < w ==> col_all_dark(l, w as int, cc, ymax),
        k >= 1 ==> !col_all_dark(l, w as int, k - 1, ymax),
    ensures
        ({
            let r = right_boundary(l, w as int, ymax, w);
            if r == 0 {
                w as int
            } else {
                r as int
            }
        }) == if k == 0 {
            w as int
        } else {
            k as int
        },
{
    lemma_right_boundary_dark_suffix(l, w as int, ymax, k, w);
}

/// Pixels of the trimmed raster have the same luminance as the pixels they
/// came from.
proof fn lemma_trim_luma_cell(img: Raster, res: Raster, x: int, y: int)
    requires
        img.wf(),
        trim_relates(img, res),
        res.width <= img.width,
        res.height <= img.height,
        0 <= x < res.width,
        0 <= y < res.height,
    ensures
        luma_seq(res)[y * (res.width as int) + x] == luma_seq(img)[y * (img.width as int) + x],
{
    let rw = res.width as int;
    let rh = res.height as int;
    let w = img.width as int;
    let h = img.height as int;
    lemma_cell_in_bounds(x, y, rw, rh);
    lemma_cell_in_bounds(x, y, w, h);
    let i2 = y * rw + x;
    let i1 = y * w + x;
    assert(res.pix(x, y, 0) == res.data@[3 * i2] && res.pix(x, y, 1) == res.data@[3 * i2 + 1]
        && res.pix(x, y, 2) == res.data@[3 * i2 + 2]);
    assert(img.pix(x, y, 0) == img.data@[3 * i1] && img.pix(x, y, 1) == img.data@[3 * i1 + 1]
        && img.pix(x, y, 2) == img.data@[3 * i1 + 2]);
    assert(luma_seq(res)[i2] == luma_of(res.data@[3 * i2], res.data@[3 * i2 + 1], res.data@[3 * i2
        + 2]));
    assert(luma_seq(img)[i1] == luma_of(img.data@[3 * i1], img.data@[3 * i1 + 1], img.data@[3 * i1
        + 2]));
}

/// Trimming is pure: two trims of the same raster agree byte for byte.
pub proof fn lemma_trim_deterministic(img: Raster, r1: Raster, r2: Raster)
    requires
        img.wf(),
        trim_relates(img, r1),
        trim_relates(img, r2),
    ensures
        r1.width == r2.width,
        r1.height == r2.height,
        r1.data@ == r2.data@,
{
    crate::raster::lemma_raster_ext(r1, r2);
}

/// Trimming is idempotent: the trim of an already-trimmed raster changes
/// neither its dimensions nor its bytes.
pub proof fn lemma_trim_idempotent(img: Raster, once: Raster, twice: Raster)
    requires
        img.wf(),
        trim_relates(img, once),
        trim_relates(once, twice),
    ensures
        twice.width == once.width,
        twice.height == once.height,
        twice.data@ == once.data@,
{
    let w = img.width as int;
    let h = img.height as nat;
    let l = luma_seq(img);
    let l2 = luma_seq(once);
    let bb = bottom_boundary(l, w, h);
    let bc = spec_trim_height(l, w, h);
    let rb = right_boundary(l, w, bc as int, img.width as nat);
    let rc = spec_trim_width(l, img.width as nat, h);
    lemma_bottom_boundary_props(l, w, h);
    lemma_right_boundary_props(l, w, bc as int, img.width as nat);
    assert(once.height == bc && once.width == rc);
    assert(bc <= h && rc <= img.width as nat);
    assert forall|x: int, y: int|
        #![trigger l2[y * (rc as int) + x]]
        0 <= x < rc && 0 <= y < bc implies l2[y * (rc as int) + x] == l[y * w + x] by {
        lemma_trim_luma_cell(img, once, x, y);
    }

    // The trimmed raster keeps its height when trimmed again.
    if bc > 0 {
        if bb > 0 {
            // Row bc - 1 of the input holds a bright pixel; that pixel's
            // column survives the horizontal crop, so the row is still
            // bright inside the trimmed raster.
            assert(!row_all_dark(l, w, bc - 1));
            let xb = choose|x: int| 0 <= x < w && !(#[trigger] l[(bc - 1) * w + x]
                <= BLACK_LUMINANCE_THRESHOLD);
            assert(!col_all_dark(l, w, xb, bc as int));
            if rb == 0 {
                assert(col_all_dark(l, w, xb, bc as int));
                assert(false);
            }
            assert(rc == rb);
            if xb >= rc {
                assert(col_all_dark(l, w, xb, bc as int));
                assert(false);
            }
            assert(l2[(bc - 1) * (rc as int) + xb] == l[(bc - 1) * w + xb]);
            assert(!row_all_dark(l2, rc as int, bc - 1));
            lemma_trim_height_exact(l2, rc as int, bc, bc);
        } else {
            // No row of the input holds content, so every row that survives
            // the crop is still dark and the second scan keeps the height.
            assert(bc == h);
            assert forall|r: int| 0 <= r < bc implies row_all_dark(l2, rc as int, r) by {
                assert forall|x: int| 0 <= x < rc implies #[trigger] l2[r * (rc as int) + x]
                    <= BLACK_LUMINANCE_THRESHOLD by {
                    assert(l2[r * (rc as int) + x] == l[r * w + x]);
                    assert(row_all_dark(l, w, r));
                    assert(l[r * w + x] <= BLACK_LUMINANCE_THRESHOLD);
                }
            }
            lemma_bottom_boundary_dark_suffix(l2, rc as int, 0, bc);
        }
    } else {
        assert(h == 0);
        assert(spec_trim_height(l2, rc as int, bc) == 0);
    }
    assert(spec_trim_height(l2, rc as int, bc) == bc);

    // The trimmed raster keeps its width when trimmed again.
    let rb2 = right_boundary(l2, rc as int, bc as int, rc);
    if rb > 0 {
        // Column rc - 1 of the input holds a bright pixel among the
        // surviving rows; it is still bright inside the trimmed raster.
        assert(rc == rb);
        assert(!col_all_dark(l, w, rc - 1, bc as int));
        let yb = choose|y: int| 0 <= y < bc && !(#[trigger] l[y * w + (rc - 1)]
            <= BLACK_LUMINANCE_THRESHOLD);
        assert(l2[yb * (rc as int) + (rc - 1)] == l[yb * w + (rc - 1)]);
        assert(!col_all_dark(l2, rc as int, rc - 1, bc as int));
        lemma_trim_width_exact(l2, rc, bc as int, rc);
        assert(rb2 == rc);
        assert(spec_trim_width(l2, rc, bc) == rc);
    } else {
        // No surviving column holds content, so the whole plane is dark and
        // the second horizontal scan keeps the full width too.
        assert(rc == img.width as nat);
        assert forall|cc: int| 0 <= cc < rc implies col_all_dark(l2, rc as int, cc, bc as int) by {
            assert forall|y: int| 0 <= y < bc implies #[trigger] l2[y * (rc as int) + cc]
                <= BLACK_LUMINANCE_THRESHOLD by {
                assert(col_all_dark(l, w, cc, bc as int));
                assert(l2[y * (rc as int) + cc] == l[y * w + cc]);
            }
        }
        lemma_right_boundary_dark_suffix(l2, rc as int, bc as int, 0, rc);
        assert(rb2 == 0);
        assert(spec_trim_width(l2, rc, bc) == rc);
    }

    assert(twice.height == bc && twice.width == rc);
    crate::raster::lemma_raster_ext(twice, once);
}

} // verus!
