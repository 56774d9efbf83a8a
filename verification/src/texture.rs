//! Textures: functions from surface coordinates and a point to a color.

use vstd::prelude::*;
use std::rc::Rc;
use crate::elementary::PI_RAW;
use crate::elementary::TWO_PI_RAW;
use crate::fixed::Fixed;
use crate::fixed::ONE_RAW;
use crate::vec3::Color;
use crate::vec3::Point3;
use crate::vec3::Vec3;

verus! {

/// Raw representation of the spatial frequency of the checker pattern, ten.
pub const CHECKER_FREQUENCY_RAW: i64 = 0xA_0000_0000;

/// Sign of the sine of `angle`: the angle is reduced into one turn, whose
/// second half is where the sine is negative.
pub open spec fn sine_sign(angle: Fixed) -> int {
    let r = angle.raw as int % TWO_PI_RAW as int;
    if r == 0 || r == PI_RAW {
        0
    } else if r < PI_RAW {
        1
    } else {
        -1
    }
}

/// Sign of the sine of `angle`.
pub fn sine_sign_of(angle: Fixed) -> (s: i8)
    ensures
        s == sine_sign(angle),
{
    let r: i64 = if angle.raw >= 0 {
        angle.raw % TWO_PI_RAW
    } else {
        let back: i128 = (-(angle.raw as i128)) % (TWO_PI_RAW as i128);
        if back == 0 {
            0
        } else {
            (TWO_PI_RAW as i128 - back) as i64
        }
    };
    if r == 0 || r == PI_RAW {
        0
    } else if r < PI_RAW {
        1
    } else {
        -1
    }
}

/// One color everywhere.
#[derive(Debug)]
pub struct SolidTexture {
    pub color: Color,
}

/// Two textures that alternate in a three-dimensional checker pattern.
pub struct CheckerTexture {
    pub odd: Rc<Texture>,
    pub even: Rc<Texture>,
}

/// A raster of red, green and blue bytes, row by row from the top.
pub struct Raster {
    pub width: u32,
    pub height: u32,
    pub data: Vec<u8>,
}

/// A picture wrapped around a surface; without a raster it shows cyan.
pub struct ImageTexture {
    pub image: Option<Raster>,
}

pub enum Texture {
    Solid(SolidTexture),
    Checker(CheckerTexture),
    Image(ImageTexture),
}

impl SolidTexture {
    pub fn new(color: &Color) -> (r: SolidTexture)
        ensures
            r.color == *color,
    {
        SolidTexture { color: *color }
    }

    pub open spec fn spec_value(self, u: Fixed, v: Fixed, p: Point3) -> Color {
        self.color
    }

    pub fn value(&self, u: Fixed, v: Fixed, p: &Point3) -> (r: Color)
        ensures
            r == self.spec_value(u, v, *p),
    {
        self.color
    }
}

impl CheckerTexture {
    pub fn new(odd: Rc<Texture>, even: Rc<Texture>) -> (r: CheckerTexture)
        ensures
            r.odd == odd,
            r.even == even,
    {
        CheckerTexture { odd, even }
    }

    /// The point lies in a cell of the odd texture: the product of the sines
    /// of ten times each coordinate is negative.
    pub open spec fn spec_is_odd(p: Point3) -> bool {
        let ten = Fixed { raw: CHECKER_FREQUENCY_RAW };
        sine_sign(p.x.spec_mul(ten)) * sine_sign(p.y.spec_mul(ten)) * sine_sign(p.z.spec_mul(ten))
            < 0
    }

    pub fn is_odd(p: &Point3) -> (r: bool)
        ensures
            r == CheckerTexture::spec_is_odd(*p),
    {
        let ten = Fixed::from_raw(CHECKER_FREQUENCY_RAW);
        let sx = sine_sign_of(p.x.mul(ten));
        let sy = sine_sign_of(p.y.mul(ten));
        let sz = sine_sign_of(p.z.mul(ten));
        assert(sx * sy * sz < 0 <==> (sx != 0 && sy != 0 && sz != 0 && ((sx < 0) != ((sy < 0) != (
        sz < 0))))) by (nonlinear_arith)
            requires
                -1 <= sx <= 1,
                -1 <= sy <= 1,
                -1 <= sz <= 1,
        ;
        sx != 0 && sy != 0 && sz != 0 && ((sx < 0) != ((sy < 0) != (sz < 0)))
    }
}

impl Raster {
    /// The raster holds three bytes for each of its pixels, and at least
    /// one pixel.
    pub open spec fn well_formed(self) -> bool {
        &&& self.width > 0
        &&& self.height > 0
        &&& self.data@.len() == 3 * (self.width * self.height)
    }

    /// Column of the pixel under the horizontal coordinate `u`.
    pub open spec fn column(self, u: Fixed) -> int {
        let k = u.spec_clamp(Fixed { raw: 0 }, Fixed { raw: ONE_RAW });
        let x = (k.raw * self.width) / (ONE_RAW as int);
        if x >= self.width {
            self.width - 1
        } else {
            x
        }
    }

    /// Row of the pixel under the vertical coordinate `v`, which runs upward.
    pub open spec fn row(self, v: Fixed) -> int {
        let k = Fixed { raw: ONE_RAW }.spec_sub(
            v.spec_clamp(Fixed { raw: 0 }, Fixed { raw: ONE_RAW }),
        );
        let y = (k.raw * self.height) / (ONE_RAW as int);
        if y >= self.height {
            self.height - 1
        } else {
            y
        }
    }

    /// Color of the pixel under `(u, v)`, each channel scaled from a byte to
    /// the interval from zero to one.
    pub open spec fn spec_sample(self, u: Fixed, v: Fixed) -> Color {
        let at = 3 * (self.row(v) * self.width + self.column(u));
        Vec3 {
            x: Fixed::spec_from_ratio(self.data@[at] as i64, 255),
            y: Fixed::spec_from_ratio(self.data@[at + 1] as i64, 255),
            z: Fixed::spec_from_ratio(self.data@[at + 2] as i64, 255),
        }
    }

    pub fn is_well_formed(&self) -> (r: bool)
        ensures
            r == self.well_formed(),
    {
        assert(0 <= self.width * self.height <= 0xffff_ffff * 0xffff_ffff) by (nonlinear_arith)
            requires
                0 <= self.width <= 0xffff_ffff,
                0 <= self.height <= 0xffff_ffff,
        ;
        let want: u128 = 3 * (self.width as u128 * self.height as u128);
        self.width > 0 && self.height > 0 && self.data.len() as u128 == want
    }

    pub fn sample(&self, u: Fixed, v: Fixed) -> (r: Color)
        requires
            self.well_formed(),
        ensures
            r == self.spec_sample(u, v),
    {
        let ku = u.clamp(Fixed::zero(), Fixed::one());
        let kv = Fixed::one().sub(v.clamp(Fixed::zero(), Fixed::one()));
        let w: u64 = self.width as u64;
        let h: u64 = self.height as u64;
        assert(0 <= ku.raw * w <= 0x1_0000_0000 * w) by (nonlinear_arith)
            requires
                0 <= ku.raw <= 0x1_0000_0000,
                0 <= w,
        ;
        assert(0 <= kv.raw * h <= 0x1_0000_0000 * h) by (nonlinear_arith)
            requires
                0 <= kv.raw <= 0x1_0000_0000,
                0 <= h,
        ;
        let mut x: u64 = (ku.raw as u64 * w) / 0x1_0000_0000;
        let mut y: u64 = (kv.raw as u64 * h) / 0x1_0000_0000;
        if x >= w {
            x = w - 1;
        }
        if y >= h {
            y = h - 1;
        }
        assert(0 <= y * w && y * w + x < w * h && w * h <= 0xffff_ffff * 0xffff_ffff)
            by (nonlinear_arith)
            requires
                0 <= x < w <= 0xffff_ffff,
                0 <= y < h <= 0xffff_ffff,
        ;
        assert(w * h == self.width * self.height && y * w == self.row(v) * self.width)
            by (nonlinear_arith)
            requires
                w == self.width,
                h == self.height,
                y == self.row(v),
        ;
        let cell: u128 = y as u128 * w as u128 + x as u128;
        let len: usize = self.data.len();
        assert(3 * cell + 2 < len);
        let at: usize = (3 * cell) as usize;
        Vec3 {
            x: Fixed::from_ratio(self.data[at] as i64, 255),
            y: Fixed::from_ratio(self.data[at + 1] as i64, 255),
            z: Fixed::from_ratio(self.data[at + 2] as i64, 255),
        }
    }
}

impl ImageTexture {
    /// A texture over the given raster of red, green and blue bytes.
    pub fn new(width: u32, height: u32, data: Vec<u8>) -> (r: ImageTexture)
        ensures
            r.image == Some(Raster { width, height, data }),
    {
        ImageTexture { image: Some(Raster { width, height, data }) }
    }

    /// A texture whose picture could not be had.
    pub fn missing() -> (r: ImageTexture)
        ensures
            r.image is None,
    {
        ImageTexture { image: None }
    }

    /// The color shown where there is no picture: cyan.
    pub open spec fn spec_fallback() -> Color {
        Vec3 { x: Fixed { raw: 0 }, y: Fixed { raw: ONE_RAW }, z: Fixed { raw: ONE_RAW } }
    }

    /// The pixel under `(u, v)`; the fallback color where there is no
    /// picture or its raster does not fit its bytes.
    pub open spec fn spec_value(self, u: Fixed, v: Fixed, p: Point3) -> Color {
        match self.image {
            Some(raster) => if raster.well_formed() {
                raster.spec_sample(u, v)
            } else {
                ImageTexture::spec_fallback()
            },
            None => ImageTexture::spec_fallback(),
        }
    }

    pub fn value(&self, u: Fixed, v: Fixed, p: &Point3) -> (r: Color)
        ensures
            r == self.spec_value(u, v, *p),
    {
        match &self.image {
            Some(raster) => if raster.is_well_formed() {
                raster.sample(u, v)
            } else {
                Vec3::new(Fixed::zero(), Fixed::one(), Fixed::one())
            },
            None => Vec3::new(Fixed::zero(), Fixed::one(), Fixed::one()),
        }
    }
}

impl Texture {
    /// Color of the texture at surface coordinates `(u, v)` and point `p`.
    pub open spec fn spec_value(self, u: Fixed, v: Fixed, p: Point3) -> Color
        decreases self,
    {
        match self {
            Texture::Solid(s) => s.spec_value(u, v, p),
            Texture::Checker(c) => if CheckerTexture::spec_is_odd(p) {
                c.odd.spec_value(u, v, p)
            } else {
                c.even.spec_value(u, v, p)
            },
            Texture::Image(i) => i.spec_value(u, v, p),
        }
    }

    pub fn value(&self, u: Fixed, v: Fixed, p: &Point3) -> (r: Color)
        ensures
            r == self.spec_value(u, v, *p),
        decreases self,
    {
        match self {
            Texture::Solid(s) => s.value(u, v, p),
            Texture::Checker(c) => if CheckerTexture::is_odd(p) {
                c.odd.value(u, v, p)
            } else {
                c.even.value(u, v, p)
            },
            Texture::Image(i) => i.value(u, v, p),
        }
    }
}

} // verus!
