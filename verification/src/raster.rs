//! The raster model: a packed RGB8 pixel buffer with its index arithmetic.
//!
//! Every raster the library touches — tiles, panoramas, extracted views — is
//! a `Raster`: `width * height` pixels, three bytes per pixel, rows stored
//! top to bottom and pixels left to right within a row.

use vstd::prelude::*;

verus! {

/// A packed RGB8 raster. Byte `3 * (y * width + x) + c` holds channel `c`
/// (red 0, green 1, blue 2) of the pixel at column `x`, row `y`.
#[derive(Debug, Clone)]
pub struct Raster {
    pub width: u32,
    pub height: u32,
    pub data: Vec<u8>,
}

/// Row of the pixel that byte `i` of a raster of width `w` belongs to.
pub open spec fn pix_y(i: int, w: int) -> int {
    i / (3 * w)
}

/// Column of the pixel that byte `i` of a raster of width `w` belongs to.
pub open spec fn pix_x(i: int, w: int) -> int {
    (i % (3 * w)) / 3
}

/// Channel of the pixel that byte `i` belongs to.
pub open spec fn pix_c(i: int) -> int {
    i % 3
}

impl Raster {
    /// The buffer holds exactly three bytes for every pixel of the grid.
    pub open spec fn wf(&self) -> bool {
        self.data@.len() == 3 * (self.width as int) * (self.height as int)
    }

    /// Byte offset of channel `c` of the pixel at `(x, y)`.
    pub open spec fn spec_index_of(&self, x: int, y: int, c: int) -> int {
        3 * (y * (self.width as int) + x) + c
    }

    /// Channel `c` of the pixel at `(x, y)`.
    pub open spec fn pix(&self, x: int, y: int, c: int) -> u8 {
        self.data@[self.spec_index_of(x, y, c)]
    }

    /// The bytes of the `cw` by `ch` sub-rectangle whose top-left pixel is
    /// `(x0, y0)`, in this raster's own packed layout.
    pub open spec fn sub_seq(&self, x0: int, y0: int, cw: int, ch: int) -> Seq<u8> {
        Seq::new(
            (3 * cw * ch) as nat,
            |i: int| self.pix(x0 + pix_x(i, cw), y0 + pix_y(i, cw), pix_c(i)),
        )
    }
}

/// A byte offset computed from in-range pixel coordinates lies inside the
/// buffer of a well-formed raster.
pub proof fn lemma_index_in_bounds(x: int, y: int, c: int, w: int, h: int)
    requires
        0 <= x < w,
        0 <= y < h,
        0 <= c < 3,
    ensures
        0 <= 3 * (y * w + x) + c < 3 * w * h,
{
    assert(0 <= 3 * (y * w + x) + c < 3 * w * h) by (nonlinear_arith)
        requires
            0 <= x < w,
            0 <= y < h,
            0 <= c < 3,
    ;
}

/// Distinct in-range pixel coordinates have distinct byte offsets.
pub proof fn lemma_index_injective(x1: int, y1: int, c1: int, x2: int, y2: int, c2: int, w: int)
    requires
        0 <= x1 < w,
        0 <= x2 < w,
        0 <= c1 < 3,
        0 <= c2 < 3,
        0 <= y1,
        0 <= y2,
        3 * (y1 * w + x1) + c1 == 3 * (y2 * w + x2) + c2,
    ensures
        x1 == x2 && y1 == y2 && c1 == c2,
{
    assert(c1 == c2 && y1 * w + x1 == y2 * w + x2) by (nonlinear_arith)
        requires
            0 <= c1 < 3,
            0 <= c2 < 3,
            3 * (y1 * w + x1) + c1 == 3 * (y2 * w + x2) + c2,
    ;
    assert(x1 == x2 && y1 == y2) by (nonlinear_arith)
        requires
            0 <= x1 < w,
            0 <= x2 < w,
            y1 * w + x1 == y2 * w + x2,
    ;
}

/// Every byte offset inside a `w` by `h` buffer decomposes into in-range
/// pixel coordinates, and the decomposition inverts the offset formula.
pub proof fn lemma_index_decompose(i: int, w: int, h: int)
    requires
        0 < w,
        0 <= i < 3 * w * h,
    ensures
        0 <= pix_x(i, w) < w,
        0 <= pix_y(i, w) < h,
        0 <= pix_c(i) < 3,
        3 * (pix_y(i, w) * w + pix_x(i, w)) + pix_c(i) == i,
{
    let r = i % (3 * w);
    vstd::arithmetic::div_mod::lemma_fundamental_div_mod(i, 3 * w);
    assert(0 <= r < 3 * w) by {
        vstd::arithmetic::div_mod::lemma_mod_bound(i, 3 * w);
    }
    assert(0 <= pix_y(i, w) < h) by (nonlinear_arith)
        requires
            0 < w,
            0 <= i < 3 * w * h,
            i == 3 * w * pix_y(i, w) + r,
            0 <= r < 3 * w,
    ;
    vstd::arithmetic::div_mod::lemma_fundamental_div_mod(r, 3);
    vstd::arithmetic::div_mod::lemma_mod_bound(r, 3);
    assert(0 <= pix_x(i, w) < w) by (nonlinear_arith)
        requires
            0 < w,
            0 <= r < 3 * w,
            r == 3 * (r / 3) + r % 3,
            0 <= r % 3 < 3,
            pix_x(i, w) == r / 3,
    ;
    assert(3 * w * pix_y(i, w) == 3 * (w * pix_y(i, w))) by (nonlinear_arith);
    vstd::arithmetic::div_mod::lemma_mod_multiples_vanish(w * pix_y(i, w), r, 3);
    assert(pix_c(i) == r % 3);
    assert(3 * (pix_y(i, w) * w + pix_x(i, w)) + pix_c(i) == i) by (nonlinear_arith)
        requires
            i == 3 * w * pix_y(i, w) + r,
            r == 3 * pix_x(i, w) + pix_c(i),
    ;
}

/// The decomposition of the byte offset of in-range coordinates gives those
/// coordinates back.
pub proof fn lemma_coords_roundtrip(x: int, y: int, c: int, w: int, h: int)
    requires
        0 <= x < w,
        0 <= y < h,
        0 <= c < 3,
    ensures
        pix_x(3 * (y * w + x) + c, w) == x,
        pix_y(3 * (y * w + x) + c, w) == y,
        pix_c(3 * (y * w + x) + c) == c,
{
    let i = 3 * (y * w + x) + c;
    lemma_index_in_bounds(x, y, c, w, h);
    lemma_index_decompose(i, w, h);
    lemma_index_injective(x, y, c, pix_x(i, w), pix_y(i, w), pix_c(i), w);
}

/// Two well-formed rasters of the same size whose pixels agree everywhere
/// hold the same bytes.
pub proof fn lemma_raster_ext(a: Raster, b: Raster)
    requires
        a.wf(),
        b.wf(),
        a.width == b.width,
        a.height == b.height,
        forall|x: int, y: int, c: int|
            0 <= x < a.width && 0 <= y < a.height && 0 <= c < 3 ==> a.pix(x, y, c) == b.pix(
                x,
                y,
                c,
            ),
    ensures
        a.data@ == b.data@,
{
    let w = a.width as int;
    let h = a.height as int;
    assert forall|i: int| 0 <= i < a.data@.len() implies a.data@[i] == b.data@[i] by {
        if w > 0 {
            lemma_index_decompose(i, w, h);
            assert(a.pix(pix_x(i, w), pix_y(i, w), pix_c(i)) == b.pix(
                pix_x(i, w),
                pix_y(i, w),
                pix_c(i),
            ));
        }
    }
    assert(a.data@ =~= b.data@);
}

impl Raster {
    /// Byte offset of channel `c` of the pixel at `(x, y)`, computed without
    /// overflow.
    fn byte_index(&self, x: u32, y: u32, c: u32) -> (i: usize)
        requires
            self.wf(),
            x < self.width,
            y < self.height,
            c < 3,
        ensures
            i == self.spec_index_of(x as int, y as int, c as int),
            i < self.data@.len(),
    {
        let n = self.data.len();
        proof {
            lemma_index_in_bounds(x as int, y as int, c as int, self.width as int, self.height as int);
        }
        let pos: u64 = (y as u64) * (self.width as u64) + (x as u64);
        assert(3 * pos + c <= n) by (nonlinear_arith)
            requires
                3 * (pos as int) + c < n as int || 3 * (pos as int) + (c as int) < n as int,
        ;
        (3 * pos + c as u64) as usize
    }

    /// Channel `c` of the pixel at `(x, y)`.
    pub fn channel_at(&self, x: u32, y: u32, c: u32) -> (v: u8)
        requires
            self.wf(),
            x < self.width,
            y < self.height,
            c < 3,
        ensures
            v == self.pix(x as int, y as int, c as int),
    {
        let i = self.byte_index(x, y, c);
        self.data[i]
    }

    /// The pixel at `(x, y)` as `(red, green, blue)`.
    pub fn get_pixel(&self, x: u32, y: u32) -> (rgb: (u8, u8, u8))
        requires
            self.wf(),
            x < self.width,
            y < self.height,
        ensures
            rgb.0 == self.pix(x as int, y as int, 0),
            rgb.1 == self.pix(x as int, y as int, 1),
            rgb.2 == self.pix(x as int, y as int, 2),
    {
        (self.channel_at(x, y, 0), self.channel_at(x, y, 1), self.channel_at(x, y, 2))
    }

    /// Overwrite the pixel at `(x, y)`; every other pixel keeps its value.
    pub fn put_pixel(&mut self, x: u32, y: u32, red: u8, green: u8, blue: u8)
        requires
            old(self).wf(),
            x < old(self).width,
            y < old(self).height,
        ensures
            final(self).wf(),
            final(self).width == old(self).width,
            final(self).height == old(self).height,
            final(self).pix(x as int, y as int, 0) == red,
            final(self).pix(x as int, y as int, 1) == green,
            final(self).pix(x as int, y as int, 2) == blue,
            forall|xx: int, yy: int, cc: int|
                0 <= xx < final(self).width && 0 <= yy < final(self).height && 0 <= cc < 3 && !(xx
                    == x && yy == y) ==> final(self).pix(xx, yy, cc) == old(self).pix(xx, yy, cc),
    {
        let ghost orig = *self;
        let i0 = self.byte_index(x, y, 0);
        self.data[i0] = red;
        let i1 = self.byte_index(x, y, 1);
        self.data[i1] = green;
        let i2 = self.byte_index(x, y, 2);
        self.data[i2] = blue;
        proof {
            let w = self.width as int;
            let h = self.height as int;
            assert forall|xx: int, yy: int, cc: int|
                0 <= xx < w && 0 <= yy < h && 0 <= cc < 3 && !(xx == x && yy == y) implies self.pix(
                xx,
                yy,
                cc,
            ) == orig.pix(xx, yy, cc) by {
                lemma_index_in_bounds(xx, yy, cc, w, h);
                if self.spec_index_of(xx, yy, cc) == i0 as int {
                    lemma_index_injective(xx, yy, cc, x as int, y as int, 0, w);
                }
                if self.spec_index_of(xx, yy, cc) == i1 as int {
                    lemma_index_injective(xx, yy, cc, x as int, y as int, 1, w);
                }
                if self.spec_index_of(xx, yy, cc) == i2 as int {
                    lemma_index_injective(xx, yy, cc, x as int, y as int, 2, w);
                }
            }
        }
    }

    /// A raster of the given size with every pixel set to
    /// `(red, green, blue)`, or `None` if the buffer would not fit in the
    /// address space.
    pub fn filled(width: u32, height: u32, red: u8, green: u8, blue: u8) -> (r: Option<Raster>)
        ensures
            match r {
                Some(img) => {
                    &&& 3 * (width as int) * (height as int) <= usize::MAX
                    &&& img.wf()
                    &&& img.width == width
                    &&& img.height == height
                    &&& forall|x: int, y: int|
                        0 <= x < width && 0 <= y < height ==> img.pix(x, y, 0) == red && img.pix(
                            x,
                            y,
                            1,
                        ) == green && img.pix(x, y, 2) == blue
                },
                None => 3 * (width as int) * (height as int) > usize::MAX,
            },
    {
        proof {
            vstd::arithmetic::mul::lemma_mul_upper_bound(
                width as int,
                u32::MAX as int,
                height as int,
                u32::MAX as int,
            );
            assert(3 * (width as int) * (height as int) == 3 * ((width as int) * (height as int)))
                by (nonlinear_arith);
        }
        let pixels: u64 = (width as u64) * (height as u64);
        let total: u128 = 3 * (pixels as u128);
        if total > usize::MAX as u128 {
            return None;
        }
        let mut data: Vec<u8> = Vec::new();
        let mut p: u64 = 0;
        while p < pixels
            invariant
                p <= pixels,
                pixels == (width as int) * (height as int),
                data@.len() == 3 * p,
                forall|q: int|
                    0 <= q < p ==> #[trigger] data@[3 * q] == red && data@[3 * q + 1] == green
                        && data@[3 * q + 2] == blue,
            decreases pixels - p,
        {
            let ghost prev = data@;
            data.push(red);
            data.push(green);
            data.push(blue);
            proof {
                assert forall|q: int| 0 <= q < p + 1 implies #[trigger] data@[3 * q] == red
                    && data@[3 * q + 1] == green && data@[3 * q + 2] == blue by {
                    if q < p {
                        assert(data@[3 * q] == prev[3 * q]);
                        assert(data@[3 * q + 1] == prev[3 * q + 1]);
                        assert(data@[3 * q + 2] == prev[3 * q + 2]);
                    }
                }
            }
            p = p + 1;
        }
        let img = Raster { width, height, data };
        proof {
            assert forall|x: int, y: int| 0 <= x < width && 0 <= y < height implies img.pix(x, y, 0)
                == red && img.pix(x, y, 1) == green && img.pix(x, y, 2) == blue by {
                let q = y * (width as int) + x;
                assert(0 <= q < (width as int) * (height as int)) by (nonlinear_arith)
                    requires
                        0 <= x < width,
                        0 <= y < height,
                        q == y * (width as int) + x,
                ;
                assert(img.data@[3 * q] == red && img.data@[3 * q + 1] == green && img.data@[3 * q
                    + 2] == blue);
            }
        }
        Some(img)
    }

    /// Copy out the `cw` by `ch` rectangle whose top-left pixel is
    /// `(x0, y0)`.
    pub fn crop(&self, x0: u32, y0: u32, cw: u32, ch: u32) -> (r: Raster)
        requires
            self.wf(),
            x0 + cw <= self.width,
            y0 + ch <= self.height,
        ensures
            r.wf(),
            r.width == cw,
            r.height == ch,
            r.data@ == self.sub_seq(x0 as int, y0 as int, cw as int, ch as int),
            forall|x: int, y: int, c: int|
                0 <= x < cw && 0 <= y < ch && 0 <= c < 3 ==> r.pix(x, y, c) == self.pix(
                    x0 + x,
                    y0 + y,
                    c,
                ),
    {
        let ghost target = self.sub_seq(x0 as int, y0 as int, cw as int, ch as int);
        proof {
            assert(target.len() == 3 * (cw as int) * (ch as int));
        }
        let mut data: Vec<u8> = Vec::new();
        let mut y: u32 = 0;
        while y < ch
            invariant
                self.wf(),
                x0 + cw <= self.width,
                y0 + ch <= self.height,
                y <= ch,
                target == self.sub_seq(x0 as int, y0 as int, cw as int, ch as int),
                target.len() == 3 * (cw as int) * (ch as int),
                data@.len() == 3 * ((y as int) * (cw as int)),
                forall|i: int| 0 <= i < data@.len() ==> data@[i] == target[i],
            decreases ch - y,
        {
            let mut x: u32 = 0;
            while x < cw
                invariant
                    self.wf(),
                    x0 + cw <= self.width,
                    y0 + ch <= self.height,
                    y < ch,
                    x <= cw,
                    target == self.sub_seq(x0 as int, y0 as int, cw as int, ch as int),
                    target.len() == 3 * (cw as int) * (ch as int),
                    data@.len() == 3 * ((y as int) * (cw as int) + (x as int)),
                    forall|i: int| 0 <= i < data@.len() ==> data@[i] == target[i],
                decreases cw - x,
            {
                proof {
                    let xi = x as int;
                    let yi = y as int;
                    let cwi = cw as int;
                    let chi = ch as int;
                    lemma_index_in_bounds(xi, yi, 0, cwi, chi);
                    lemma_index_in_bounds(xi, yi, 2, cwi, chi);
                    lemma_coords_roundtrip(xi, yi, 0, cwi, chi);
                    lemma_coords_roundtrip(xi, yi, 1, cwi, chi);
                    lemma_coords_roundtrip(xi, yi, 2, cwi, chi);
                    assert(target[3 * (yi * cwi + xi) + 0] == self.pix(x0 + xi, y0 + yi, 0));
                    assert(target[3 * (yi * cwi + xi) + 1] == self.pix(x0 + xi, y0 + yi, 1));
                    assert(target[3 * (yi * cwi + xi) + 2] == self.pix(x0 + xi, y0 + yi, 2));
                }
                data.push(self.channel_at(x0 + x, y0 + y, 0));
                data.push(self.channel_at(x0 + x, y0 + y, 1));
                data.push(self.channel_at(x0 + x, y0 + y, 2));
                x = x + 1;
            }
            proof {
                assert(3 * ((y as int) * (cw as int) + (cw as int)) == 3 * (((y as int) + 1) * (
                cw as int))) by (nonlinear_arith);
            }
            y = y + 1;
        }
        let r = Raster { width: cw, height: ch, data };
        proof {
            assert(3 * ((ch as int) * (cw as int)) == 3 * (cw as int) * (ch as int))
                by (nonlinear_arith);
            assert(r.data@.len() == target.len());
            assert(r.data@ =~= target);
            assert forall|x: int, y: int, c: int|
                0 <= x < cw && 0 <= y < ch && 0 <= c < 3 implies r.pix(x, y, c) == self.pix(
                x0 + x,
                y0 + y,
                c,
            ) by {
                lemma_index_in_bounds(x, y, c, cw as int, ch as int);
                lemma_coords_roundtrip(x, y, c, cw as int, ch as int);
            }
        }
        r
    }

    /// Paste `tile` with its top-left pixel at `(ox, oy)`; pixels outside
    /// the pasted rectangle keep their values.
    pub fn paste(&mut self, tile: &Raster, ox: u32, oy: u32)
        requires
            old(self).wf(),
            tile.wf(),
            ox + tile.width <= old(self).width,
            oy + tile.height <= old(self).height,
        ensures
            final(self).wf(),
            final(self).width == old(self).width,
            final(self).height == old(self).height,
            forall|x: int, y: int, c: int|
                0 <= x < final(self).width && 0 <= y < final(self).height && 0 <= c < 3
                    ==> #[trigger] final(self).pix(x, y, c) == (if ox <= x < ox + tile.width && oy
                    <= y < oy + tile.height {
                    tile.pix(x - ox, y - oy, c)
                } else {
                    old(self).pix(x, y, c)
                }),
    {
        let ghost orig = *self;
        let tw = tile.width;
        let th = tile.height;
        let mut ty: u32 = 0;
        while ty < th
            invariant
                self.wf(),
                tile.wf(),
                tile.width == tw,
                tile.height == th,
                ox + tw <= self.width,
                oy + th <= self.height,
                self.width == orig.width,
                self.height == orig.height,
                orig.wf(),
                ty <= th,
                forall|x: int, y: int, c: int|
                    0 <= x < self.width && 0 <= y < self.height && 0 <= c < 3
                        ==> #[trigger] self.pix(x, y, c) == (if ox <= x < ox + tw && oy <= y < oy
                        + ty {
                        tile.pix(x - ox, y - oy, c)
                    } else {
                        orig.pix(x, y, c)
                    }),
            decreases th - ty,
        {
            let mut tx: u32 = 0;
            while tx < tw
                invariant
                    self.wf(),
                    tile.wf(),
                    tile.width == tw,
                    tile.height == th,
                    ox + tw <= self.width,
                    oy + th <= self.height,
                    self.width == orig.width,
                    self.height == orig.height,
                    orig.wf(),
                    ty < th,
                    tx <= tw,
                    forall|x: int, y: int, c: int|
                        0 <= x < self.width && 0 <= y < self.height && 0 <= c < 3
                            ==> #[trigger] self.pix(x, y, c) == (if ox <= x < ox + tw && oy <= y
                            < oy + ty {
                            tile.pix(x - ox, y - oy, c)
                        } else if y == oy + ty && ox <= x < ox + tx {
                            tile.pix(x - ox, y - oy, c)
                        } else {
                            orig.pix(x, y, c)
                        }),
                decreases tw - tx,
            {
                let ghost before = *self;
                let v0 = tile.channel_at(tx, ty, 0);
                let v1 = tile.channel_at(tx, ty, 1);
                let v2 = tile.channel_at(tx, ty, 2);
                let i0 = self.byte_index(ox + tx, oy + ty, 0);
                self.data[i0] = v0;
                let i1 = self.byte_index(ox + tx, oy + ty, 1);
                self.data[i1] = v1;
                let i2 = self.byte_index(ox + tx, oy + ty, 2);
                self.data[i2] = v2;
                proof {
                    let w = self.width as int;
                    let px = ox + tx;
                    let py = oy + ty;
                    assert forall|x: int, y: int, c: int|
                        0 <= x < self.width && 0 <= y < self.height && 0 <= c < 3
                            implies #[trigger] self.pix(x, y, c) == (if ox <= x < ox + tw && oy <= y
                        < oy + ty {
                        tile.pix(x - ox, y - oy, c)
                    } else if y == oy + ty && ox <= x < ox + tx + 1 {
                        tile.pix(x - ox, y - oy, c)
                    } else {
                        orig.pix(x, y, c)
                    }) by {
                        lemma_index_in_bounds(x, y, c, w, self.height as int);
                        if x == px && y == py {
                        } else {
                            if self.spec_index_of(x, y, c) == i0 as int {
                                lemma_index_injective(x, y, c, px as int, py as int, 0, w);
                            }
                            if self.spec_index_of(x, y, c) == i1 as int {
                                lemma_index_injective(x, y, c, px as int, py as int, 1, w);
                            }
                            if self.spec_index_of(x, y, c) == i2 as int {
                                lemma_index_injective(x, y, c, px as int, py as int, 2, w);
                            }
                            assert(self.pix(x, y, c) == before.pix(x, y, c));
                        }
                    }
                }
                tx = tx + 1;
            }
            ty = ty + 1;
        }
    }
}

} // verus!
