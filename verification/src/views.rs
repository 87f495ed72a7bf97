//! Perspective view extraction from an equirectangular panorama.
//!
//! A panorama spans 360 degrees of heading along its x-axis and 180 degrees
//! of pitch along its y-axis. A view request picks a center by heading and
//! pitch, a window size by field of view and aspect ratio, and optionally a
//! target size to resample to. The crop window is clamped to the panorama
//! bounds — a heading near the 0/360 seam yields a truncated view, never a
//! wrapped one — and never collapses below one pixel.

use vstd::prelude::*;

use crate::error::{StreetViewError, SvResult};
use crate::raster::Raster;

verus! {

/// Cardinal direction for view extraction.
#[derive(Debug, Clone, Copy)]
pub enum Direction {
    /// Front view (heading 0°)
    Front,
    /// Right view (heading 90°)
    Right,
    /// Back view (heading 180°)
    Back,
    /// Left view (heading 270°)
    Left,
}

/// The heading, in degrees, that a direction stands for.
pub open spec fn direction_heading(d: Direction) -> u16 {
    match d {
        Direction::Front => 0,
        Direction::Right => 90,
        Direction::Back => 180,
        Direction::Left => 270,
    }
}

impl Direction {
    /// Get the heading in degrees for this direction.
    pub fn heading(&self) -> (h: u16)
        ensures
            h == direction_heading(*self),
    {
        match self {
            Direction::Front => 0,
            Direction::Right => 90,
            Direction::Back => 180,
            Direction::Left => 270,
        }
    }

    /// Get the name of this direction as a string.
    pub fn name(&self) -> (r: &'static str)
        ensures
            r@ == match *self {
                Direction::Front => "front"@,
                Direction::Right => "right"@,
                Direction::Back => "back"@,
                Direction::Left => "left"@,
            },
    {
        match self {
            Direction::Front => "front",
            Direction::Right => "right",
            Direction::Back => "back",
            Direction::Left => "left",
        }
    }
}

/// Configuration for extracting a view from a panorama.
#[derive(Debug, Clone)]
pub struct ViewConfig {
    /// Heading in degrees (0-360, where 0 is front/north)
    pub heading: u16,
    /// Field of view in degrees (default: 90, typical range: 60-120)
    pub fov: u16,
    /// Vertical pitch in degrees (-90 to 90, where 0 is horizontal)
    pub pitch: i16,
    /// Output dimensions (optional - defaults to the native crop size)
    pub size: Option<(u32, u32)>,
    /// Zoom level for panorama download (1-7, default: 3)
    pub zoom: u8,
}

impl ViewConfig {
    /// Create a new view configuration with default values.
    pub fn new(heading: u16) -> (c: ViewConfig)
        ensures
            c.heading == heading,
            c.fov == 90,
            c.pitch == 0,
            c.size is None,
            c.zoom == 3,
    {
        ViewConfig { heading, fov: 90, pitch: 0, size: None, zoom: 3 }
    }

    /// Create a view for a cardinal direction.
    pub fn from_direction(direction: Direction) -> (c: ViewConfig)
        ensures
            c.heading == direction_heading(direction),
            c.fov == 90,
            c.pitch == 0,
            c.size is None,
            c.zoom == 3,
    {
        Self::new(direction.heading())
    }

    /// Set the field of view, capped at 180 degrees.
    pub fn fov(self, fov: u16) -> (c: ViewConfig)
        ensures
            c.fov == if fov > 180 {
                180u16
            } else {
                fov
            },
            c.heading == self.heading,
            c.pitch == self.pitch,
            c.size == self.size,
            c.zoom == self.zoom,
    {
        let capped: u16 = if fov > 180 {
            180
        } else {
            fov
        };
        ViewConfig { fov: capped, ..self }
    }

    /// Set the pitch, clamped to [-90, 90].
    pub fn pitch(self, pitch: i16) -> (c: ViewConfig)
        ensures
            c.pitch == if pitch < -90 {
                -90i16
            } else if pitch > 90 {
                90i16
            } else {
                pitch
            },
            c.heading == self.heading,
            c.fov == self.fov,
            c.size == self.size,
            c.zoom == self.zoom,
    {
        let clamped: i16 = if pitch < -90 {
            -90
        } else if pitch > 90 {
            90
        } else {
            pitch
        };
        ViewConfig { pitch: clamped, ..self }
    }

    /// Set custom output dimensions.
    pub fn size(self, width: u32, height: u32) -> (c: ViewConfig)
        ensures
            c.size == Some((width, height)),
            c.heading == self.heading,
            c.fov == self.fov,
            c.pitch == self.pitch,
            c.zoom == self.zoom,
    {
        ViewConfig { size: Some((width, height)), ..self }
    }

    /// Set the zoom level for panorama download, clamped to [1, 7].
    pub fn zoom(self, zoom: u8) -> (c: ViewConfig)
        ensures
            c.zoom == if zoom < 1 {
                1u8
            } else if zoom > 7 {
                7u8
            } else {
                zoom
            },
            c.heading == self.heading,
            c.fov == self.fov,
            c.pitch == self.pitch,
            c.size == self.size,
    {
        let clamped: u8 = if zoom < 1 {
            1
        } else if zoom > 7 {
            7
        } else {
            zoom
        };
        ViewConfig { zoom: clamped, ..self }
    }
}

impl Default for ViewConfig {
    /// The default view: heading 0, 90-degree field of view, level pitch,
    /// native size, zoom 3.
    fn default() -> (c: ViewConfig)
        ensures
            c.heading == 0,
            c.fov == 90,
            c.pitch == 0,
            c.size is None,
            c.zoom == 3,
    {
        ViewConfig::new(0)
    }
}

/// A view configuration inside its domain: heading in [0, 360), field of
/// view in (0, 180], pitch in [-90, 90], and a target size, if any, of at
/// least one pixel per side whose buffer fits in the address space.
pub open spec fn config_valid(c: ViewConfig) -> bool {
    &&& c.heading < 360
    &&& 1 <= c.fov <= 180
    &&& -90 <= c.pitch <= 90
    &&& match c.size {
        Some((tw, th)) => tw >= 1 && th >= 1 && 3 * (tw as int) * (th as int) <= usize::MAX,
        None => true,
    }
}

pub open spec fn spec_min(a: int, b: int) -> int {
    if a < b {
        a
    } else {
        b
    }
}

/// Height of the crop window before clamping: the vertical half-angle is
/// the horizontal one divided by the aspect ratio of the requested size
/// (square if none was requested), scaled by the pixels per degree.
pub open spec fn crop_height_raw(h: int, fov: int, size: Option<(u32, u32)>) -> int {
    match size {
        None => fov * h / 180,
        Some((tw, th)) => fov * (th as int) * h / (180 * (tw as int)),
    }
}

/// The crop window `(x0, y0, x1, y1)` of a view on a `w` by `h` panorama:
/// centered at the heading/pitch position, `fov * w / 360` pixels wide,
/// clamped to the panorama bounds and to a minimum of one pixel each way.
pub open spec fn view_window(w: int, h: int, c: ViewConfig) -> (int, int, int, int) {
    let cx = (c.heading as int) * w / 360;
    let cy = (90 - c.pitch as int) * h / 180;
    let cw_raw = (c.fov as int) * w / 360;
    let ch_raw = crop_height_raw(h, c.fov as int, c.size);
    let cw = if cw_raw < 1 {
        1
    } else {
        cw_raw
    };
    let ch = if ch_raw < 1 {
        1
    } else {
        ch_raw
    };
    let x0a = if cx - cw / 2 < 0 {
        0
    } else {
        cx - cw / 2
    };
    let y0a = if cy - ch / 2 < 0 {
        0
    } else {
        cy - ch / 2
    };
    let x0 = spec_min(x0a, w - 1);
    let y0 = spec_min(y0a, h - 1);
    let x1 = spec_min(x0 + cw, w);
    let y1 = spec_min(y0 + ch, h);
    (x0, y0, x1, y1)
}

/// The bytes Lanczos resampling produces for a packed RGB raster of the
/// given size when scaled to the target size. The result depends on the
/// input pixels and the dimensions alone.
pub uninterp spec fn resized_rgb(w: nat, h: nat, data: Seq<u8>, tw: nat, th: nat) -> Seq<u8>;

/// Relies on `image::imageops::resize` with the Lanczos3 filter and
/// `image::DynamicImage::to_rgb8`: resampling yields a raster of exactly the
/// target dimensions, three bytes per pixel, determined by the input pixels
/// and the dimensions alone.
#[verifier::external_body]
fn resize_lanczos(img: &Raster, tw: u32, th: u32) -> (r: Raster)
    requires
        img.wf(),
        img.width >= 1,
        img.height >= 1,
        tw >= 1,
        th >= 1,
        3 * (tw as int) * (th as int) <= usize::MAX,
    ensures
        r.wf(),
        r.width == tw,
        r.height == th,
        r.data@ == resized_rgb(img.width as nat, img.height as nat, img.data@, tw as nat, th as nat),
{
    let buf = image::RgbImage::from_raw(img.width, img.height, img.data.clone()).expect(
        "buffer length matches dimensions",
    );
    let resized = image::imageops::resize(
        &image::DynamicImage::ImageRgb8(buf),
        tw,
        th,
        image::imageops::FilterType::Lanczos3,
    );
    let rgb = image::DynamicImage::ImageRgba8(resized).to_rgb8();
    Raster { width: tw, height: th, data: rgb.into_raw() }
}

/// How an extracted view relates to the panorama it came from: without a
/// target size it is the crop window itself; with one it is the Lanczos
/// resampling of that window to exactly the requested size.
pub open spec fn extract_output_ok(p: Raster, c: ViewConfig, v: Raster) -> bool {
    let win = view_window(p.width as int, p.height as int, c);
    let cw = win.2 - win.0;
    let ch = win.3 - win.1;
    match c.size {
        None => {
            &&& v.width == cw
            &&& v.height == ch
            &&& forall|x: int, y: int, cc: int|
                0 <= x < cw && 0 <= y < ch && 0 <= cc < 3 ==> v.pix(x, y, cc) == p.pix(
                    win.0 + x,
                    win.1 + y,
                    cc,
                )
        },
        Some((tw, th)) => {
            &&& v.width == tw
            &&& v.height == th
            &&& v.data@ == resized_rgb(
                cw as nat,
                ch as nat,
                p.sub_seq(win.0, win.1, cw, ch),
                tw as nat,
                th as nat,
            )
        },
    }
}

/// Compute the crop window, proving it matches `view_window` and is a
/// non-empty rectangle inside the panorama.
fn compute_view_window(w: u32, h: u32, config: &ViewConfig) -> (win: (u32, u32, u32, u32))
    requires
        w >= 1,
        h >= 1,
        config_valid(*config),
    ensures
        (win.0 as int, win.1 as int, win.2 as int, win.3 as int) == view_window(
            w as int,
            h as int,
            *config,
        ),
        win.0 < win.2 <= w,
        win.1 < win.3 <= h,
{
    let wi = w as u64;
    let hi = h as u64;
    proof {
        vstd::arithmetic::mul::lemma_mul_upper_bound(
            config.heading as int,
            360,
            wi as int,
            u32::MAX as int,
        );
        vstd::arithmetic::mul::lemma_mul_upper_bound(
            config.fov as int,
            180,
            wi as int,
            u32::MAX as int,
        );
        vstd::arithmetic::mul::lemma_mul_upper_bound(
            config.fov as int,
            180,
            hi as int,
            u32::MAX as int,
        );
        vstd::arithmetic::mul::lemma_mul_upper_bound(
            90 - config.pitch as int,
            180,
            hi as int,
            u32::MAX as int,
        );
    }
    let cx: u64 = (config.heading as u64) * wi / 360;
    let pitch_off: u64 = (90 - config.pitch as i64) as u64;
    let cy: u64 = pitch_off * hi / 180;
    let cw_raw: u64 = (config.fov as u64) * wi / 360;
    let ch_raw: u64 = match config.size {
        None => (config.fov as u64) * hi / 180,
        Some((tw, th)) => {
            proof {
                vstd::arithmetic::mul::lemma_mul_upper_bound(
                    config.fov as int,
                    180,
                    th as int,
                    u32::MAX as int,
                );
                vstd::arithmetic::mul::lemma_mul_nonnegative(config.fov as int, th as int);
                vstd::arithmetic::mul::lemma_mul_upper_bound(
                    (config.fov as int) * (th as int),
                    180 * (u32::MAX as int),
                    hi as int,
                    u32::MAX as int,
                );
            }
            let num: u128 = (config.fov as u128) * (th as u128) * (hi as u128);
            let den: u128 = 180 * (tw as u128);
            let q: u128 = num / den;
            proof {
                let numi = (config.fov as int) * (th as int) * (hi as int);
                vstd::arithmetic::div_mod::lemma_div_is_ordered_by_denominator(
                    numi,
                    180,
                    180 * (tw as int),
                );
                assert((config.fov as int) * (th as int) <= 180 * (th as int)) by (nonlinear_arith)
                    requires
                        config.fov <= 180,
                        th >= 0,
                ;
                vstd::arithmetic::mul::lemma_mul_inequality(
                    (config.fov as int) * (th as int),
                    180 * (th as int),
                    hi as int,
                );
                assert(180 * (th as int) * (hi as int) == 180 * ((th as int) * (hi as int)))
                    by (nonlinear_arith);
                vstd::arithmetic::div_mod::lemma_div_is_ordered(
                    numi,
                    180 * ((th as int) * (hi as int)),
                    180,
                );
                vstd::arithmetic::div_mod::lemma_div_multiples_vanish(
                    (th as int) * (hi as int),
                    180,
                );
                vstd::arithmetic::mul::lemma_mul_upper_bound(
                    th as int,
                    u32::MAX as int,
                    hi as int,
                    u32::MAX as int,
                );
            }
            q as u64
        },
    };
    let cw: u64 = if cw_raw < 1 {
        1
    } else {
        cw_raw
    };
    let ch: u64 = if ch_raw < 1 {
        1
    } else {
        ch_raw
    };
    let x0a: u64 = if cx >= cw / 2 {
        cx - cw / 2
    } else {
        0
    };
    let y0a: u64 = if cy >= ch / 2 {
        cy - ch / 2
    } else {
        0
    };
    let x0: u64 = if x0a <= wi - 1 {
        x0a
    } else {
        wi - 1
    };
    let y0: u64 = if y0a <= hi - 1 {
        y0a
    } else {
        hi - 1
    };
    let x1: u64 = if cw >= wi - x0 {
        wi
    } else {
        x0 + cw
    };
    let y1: u64 = if ch >= hi - y0 {
        hi
    } else {
        y0 + ch
    };
    (x0 as u32, y0 as u32, x1 as u32, y1 as u32)
}

/// Extract a view from an already-assembled panorama.
///
/// The crop window is `view_window`; with a target size the window is
/// resampled to exactly that size. An empty panorama or a configuration
/// outside its domain is rejected before any raster work.
pub fn extract_view_from_panorama(panorama: &Raster, config: &ViewConfig) -> (r: SvResult<Raster>)
    requires
        panorama.wf(),
    ensures
        match r {
            Ok(v) => {
                &&& panorama.width >= 1
                &&& panorama.height >= 1
                &&& config_valid(*config)
                &&& v.wf()
                &&& extract_output_ok(*panorama, *config, v)
            },
            Err(e) => {
                &&& (panorama.width == 0 || panorama.height == 0 || !config_valid(*config))
                &&& e matches StreetViewError::InvalidParameter(_)
            },
        },
{
    if panorama.width < 1 || panorama.height < 1 {
        return Err(StreetViewError::InvalidParameter("panorama has no pixels".to_owned()));
    }
    if config.heading >= 360 {
        return Err(StreetViewError::InvalidParameter("heading must be below 360".to_owned()));
    }
    if config.fov < 1 || config.fov > 180 {
        return Err(
            StreetViewError::InvalidParameter("field of view must be within (0, 180]".to_owned()),
        );
    }
    if config.pitch < -90 || config.pitch > 90 {
        return Err(
            StreetViewError::InvalidParameter("pitch must be within [-90, 90]".to_owned()),
        );
    }
    if let Some((tw, th)) = config.size {
        if tw < 1 || th < 1 {
            return Err(
                StreetViewError::InvalidParameter("target size must be at least 1x1".to_owned()),
            );
        }
        proof {
            vstd::arithmetic::mul::lemma_mul_upper_bound(
                3 * (tw as int),
                3 * (u32::MAX as int),
                th as int,
                u32::MAX as int,
            );
        }
        let need: u128 = 3 * (tw as u128) * (th as u128);
        if need > usize::MAX as u128 {
            return Err(
                StreetViewError::InvalidParameter(
                    "target size does not fit in memory".to_owned(),
                ),
            );
        }
        proof {
            vstd::arithmetic::mul::lemma_mul_upper_bound(
                tw as int,
                u32::MAX as int,
                th as int,
                u32::MAX as int,
            );
            assert(3 * (tw as int) * (th as int) == 3 * ((tw as int) * (th as int)))
                by (nonlinear_arith);
        }
    }
    let (x0, y0, x1, y1) = compute_view_window(panorama.width, panorama.height, config);
    let cropped = panorama.crop(x0, y0, x1 - x0, y1 - y0);
    match config.size {
        None => Ok(cropped),
        Some((tw, th)) => Ok(resize_lanczos(&cropped, tw, th)),
    }
}

/// Extract several views from one already-assembled panorama. The views
/// come back in the order of their configurations; the first configuration
/// outside its domain fails the whole call.
pub fn extract_multiple_views(panorama: &Raster, configs: &Vec<ViewConfig>) -> (r: SvResult<
    Vec<Raster>,
>)
    requires
        panorama.wf(),
    ensures
        match r {
            Ok(views) => {
                &&& views@.len() == configs@.len()
                &&& forall|i: int|
                    0 <= i < configs@.len() ==> config_valid(configs@[i]) && views@[i].wf()
                        && extract_output_ok(*panorama, configs@[i], views@[i])
                &&& configs@.len() > 0 ==> panorama.width >= 1 && panorama.height >= 1
            },
            Err(e) => {
                &&& configs@.len() > 0
                &&& (panorama.width == 0 || panorama.height == 0 || exists|i: int|
                    0 <= i < configs@.len() && !config_valid(configs@[i]))
                &&& e matches StreetViewError::InvalidParameter(_)
            },
        },
{
    let mut views: Vec<Raster> = Vec::new();
    let mut i: usize = 0;
    while i < configs.len()
        invariant
            panorama.wf(),
            i <= configs@.len(),
            views@.len() == i,
            forall|j: int|
                0 <= j < i ==> config_valid(configs@[j]) && views@[j].wf() && extract_output_ok(
                    *panorama,
                    configs@[j],
                    views@[j],
                ),
            i > 0 ==> panorama.width >= 1 && panorama.height >= 1,
        decreases configs@.len() - i,
    {
        match extract_view_from_panorama(panorama, &configs[i]) {
            Ok(v) => {
                views.push(v);
            },
            Err(e) => {
                return Err(e);
            },
        }
        i = i + 1;
    }
    Ok(views)
}

/// View extraction is pure: two extractions from the same panorama with the
/// same configuration agree byte for byte.
pub proof fn lemma_extract_deterministic(p: Raster, c: ViewConfig, v1: Raster, v2: Raster)
    requires
        p.wf(),
        v1.wf(),
        v2.wf(),
        extract_output_ok(p, c, v1),
        extract_output_ok(p, c, v2),
    ensures
        v1.width == v2.width,
        v1.height == v2.height,
        v1.data@ == v2.data@,
{
    match c.size {
        None => {
            assert forall|x: int, y: int, cc: int|
                0 <= x < v1.width && 0 <= y < v1.height && 0 <= cc < 3 implies v1.pix(x, y, cc)
                == v2.pix(x, y, cc) by {
                let win = view_window(p.width as int, p.height as int, c);
                assert(v1.pix(x, y, cc) == p.pix(win.0 + x, win.1 + y, cc));
                assert(v2.pix(x, y, cc) == p.pix(win.0 + x, win.1 + y, cc));
            }
            crate::raster::lemma_raster_ext(v1, v2);
        },
        Some(_) => {},
    }
}

/// A level 90-degree view with no target size on a panorama whose sides
/// divide evenly: the crop window is a quarter of the panorama wide, half
/// of it tall, and vertically centered; at heading 180 it is horizontally
/// centered as well. (At heading 0 the window is truncated at the left
/// seam instead of wrapping, so only its width and vertical position are
/// retained.)
pub proof fn lemma_default_view_window(w: int, h: int, c: ViewConfig)
    requires
        w >= 8,
        h >= 4,
        w % 8 == 0,
        h % 4 == 0,
        c.fov == 90,
        c.pitch == 0,
        c.size is None,
        c.heading == 0 || c.heading == 180,
    ensures
        ({
            let (x0, y0, x1, y1) = view_window(w, h, c);
            &&& x1 - x0 == w / 4
            &&& y1 - y0 == h / 2
            &&& y0 + y1 == h
            &&& c.heading == 180 ==> x0 + x1 == w
            &&& c.heading == 0 ==> x0 == 0 && x1 == w / 4
        }),
{
    let k = w / 8;
    let m = h / 4;
    vstd::arithmetic::div_mod::lemma_fundamental_div_mod(w, 8);
    vstd::arithmetic::div_mod::lemma_fundamental_div_mod(h, 4);
    assert(w == 8 * k && h == 4 * m);
    assert(k >= 1 && m >= 1);

    assert(90 * w == 360 * (2 * k) && 180 * w == 360 * (4 * k) && 90 * h == 180 * (2 * m));
    vstd::arithmetic::div_mod::lemma_div_multiples_vanish(2 * k, 360);
    vstd::arithmetic::div_mod::lemma_div_multiples_vanish(4 * k, 360);
    vstd::arithmetic::div_mod::lemma_div_multiples_vanish(2 * m, 180);
    assert((c.fov as int) * w / 360 == 2 * k);
    assert((90 - c.pitch as int) * h / 180 == 2 * m);
    assert(crop_height_raw(h, c.fov as int, c.size) == 2 * m);
    vstd::arithmetic::div_mod::lemma_div_multiples_vanish(k, 2);
    vstd::arithmetic::div_mod::lemma_div_multiples_vanish(m, 2);
    assert((2 * k) / 2 == k && (2 * m) / 2 == m);
    vstd::arithmetic::div_mod::lemma_div_multiples_vanish(2 * k, 4);
    assert(w / 4 == 2 * k);
    vstd::arithmetic::div_mod::lemma_div_multiples_vanish(2 * m, 2);
    assert(h / 2 == 2 * m);
    if c.heading == 180 {
        assert((c.heading as int) * w / 360 == 4 * k);
    } else {
        assert((c.heading as int) * w == 360 * 0);
        vstd::arithmetic::div_mod::lemma_div_multiples_vanish(0, 360);
    }
}

} // verus!
