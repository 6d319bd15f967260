//! Geometry primitives: aspect ratios, rectangular bounding boxes, and the
//! X11-style geometry string a crop result renders as.

use vstd::prelude::*;
use vstd::string::StringExecFns;

verus! {

/// A target display shape, as a pair of positive integers width:height.
#[derive(Clone, Copy, Debug, PartialEq, Eq, Structural)]
pub struct AspectRatio(pub u32, pub u32);

/// The 1920x1080 ("HD") preset.
pub fn hd_aspect_ratio() -> (r: AspectRatio)
    ensures
        r == AspectRatio(1920u32, 1080u32),
{
    AspectRatio(1920, 1080)
}

/// The 3440x1440 ("ultrawide") preset.
pub fn ultrawide_aspect_ratio() -> (r: AspectRatio)
    ensures
        r == AspectRatio(3440u32, 1440u32),
{
    AspectRatio(3440, 1440)
}

/// The 1440x2560 ("vertical") preset, the default of a fresh `Cropper`.
pub fn vertical_aspect_ratio() -> (r: AspectRatio)
    ensures
        r == AspectRatio(1440u32, 2560u32),
{
    AspectRatio(1440, 2560)
}

/// The 2256x1504 ("framework laptop") preset.
pub fn framework_aspect_ratio() -> (r: AspectRatio)
    ensures
        r == AspectRatio(2256u32, 1504u32),
{
    AspectRatio(2256, 1504)
}

impl AspectRatio {
    /// Both sides of a usable ratio are positive.
    pub open spec fn valid(self) -> bool {
        self.0 > 0 && self.1 > 0
    }

    /// The ratio written as "WxH", e.g. "1920x1080".
    pub fn resolution(&self) -> (s: String)
        ensures
            s@ == spec_dec(self.0 as int) + seq!['x'] + spec_dec(self.1 as int),
    {
        let mut s = u32_string(self.0);
        proof {
            reveal_strlit("x");
        }
        s.append("x");
        let t = u32_string(self.1);
        s.append(t.as_str());
        proof {
            assert(s@ =~= spec_dec(self.0 as int) + seq!['x'] + spec_dec(self.1 as int));
        }
        s
    }
}

/// The axis along which a crop window is smaller than the source and must be
/// positioned: X means the window slides horizontally, Y vertically.
#[derive(Clone, Copy, Debug, PartialEq, Eq, Structural)]
pub enum Direction {
    X,
    Y,
}

/// A rectangular bounding box in pixel coordinates: a detected face, or a
/// computed crop window. `xmax` and `ymax` are exclusive ends, so the width is
/// `xmax - xmin` and the height `ymax - ymin`.
#[derive(Clone, Copy, Debug, PartialEq, Eq, Structural)]
pub struct Face {
    pub xmin: u32,
    pub xmax: u32,
    pub ymin: u32,
    pub ymax: u32,
}

/// A box is well formed when each minimum is at most its maximum.
pub open spec fn face_wf(f: Face) -> bool {
    f.xmin <= f.xmax && f.ymin <= f.ymax
}

/// A box lies inside a width x height source image.
pub open spec fn face_in_bounds(f: Face, width: u32, height: u32) -> bool {
    face_wf(f) && f.xmax <= width && f.ymax <= height
}

/// Pixel area of a box.
pub open spec fn spec_area(f: Face) -> int {
    (f.xmax - f.xmin) * (f.ymax - f.ymin)
}

impl Default for Face {
    /// The empty box: all four coordinates zero.
    fn default() -> (f: Face)
        ensures
            f == (Face { xmin: 0, xmax: 0, ymin: 0, ymax: 0 }),
    {
        Face { xmin: 0, xmax: 0, ymin: 0, ymax: 0 }
    }
}

impl Face {
    pub fn width(&self) -> (r: u32)
        requires
            self.xmin <= self.xmax,
        ensures
            r == self.xmax - self.xmin,
    {
        self.xmax - self.xmin
    }

    pub fn height(&self) -> (r: u32)
        requires
            self.ymin <= self.ymax,
        ensures
            r == self.ymax - self.ymin,
    {
        self.ymax - self.ymin
    }

    pub fn area(&self) -> (r: u64)
        requires
            face_wf(*self),
        ensures
            r == spec_area(*self),
    {
        let w = self.xmax - self.xmin;
        let h = self.ymax - self.ymin;
        proof {
            assert((w as int) * (h as int) <= 0xffff_ffff * 0xffff_ffff) by (nonlinear_arith)
                requires
                    w <= 0xffff_ffffu32,
                    h <= 0xffff_ffffu32,
            ;
        }
        w as u64 * h as u64
    }

    /// The X11-style geometry string "{width}x{height}+{xmin}+{ymin}".
    pub fn geometry(&self) -> (s: String)
        requires
            face_wf(*self),
        ensures
            s@ == spec_geometry(*self),
    {
        let mut s = u32_string(self.xmax - self.xmin);
        proof {
            reveal_strlit("x");
            reveal_strlit("+");
        }
        s.append("x");
        let h = u32_string(self.ymax - self.ymin);
        s.append(h.as_str());
        s.append("+");
        let x = u32_string(self.xmin);
        s.append(x.as_str());
        s.append("+");
        let y = u32_string(self.ymin);
        s.append(y.as_str());
        proof {
            assert(s@ =~= spec_geometry(*self));
        }
        s
    }
}

/// What `Face::geometry` returns, as a sequence of characters.
pub open spec fn spec_geometry(f: Face) -> Seq<char> {
    spec_dec((f.xmax - f.xmin) as int) + seq!['x'] + spec_dec((f.ymax - f.ymin) as int)
        + seq!['+'] + spec_dec(f.xmin as int) + seq!['+'] + spec_dec(f.ymin as int)
}

/// The decimal digit character for a value below ten.
pub open spec fn spec_digit(d: int) -> char {
    if d == 0 {
        '0'
    } else if d == 1 {
        '1'
    } else if d == 2 {
        '2'
    } else if d == 3 {
        '3'
    } else if d == 4 {
        '4'
    } else if d == 5 {
        '5'
    } else if d == 6 {
        '6'
    } else if d == 7 {
        '7'
    } else if d == 8 {
        '8'
    } else {
        '9'
    }
}

/// The usual decimal rendering of a non-negative integer, most significant
/// digit first, with no leading zeros (zero itself renders as "0").
pub open spec fn spec_dec(n: int) -> Seq<char>
    decreases n,
{
    if n < 10 {
        seq![spec_digit(n)]
    } else {
        spec_dec(n / 10).push(spec_digit(n % 10))
    }
}

fn digit_str(d: u32) -> (s: &'static str)
    requires
        d < 10,
    ensures
        s@ == seq![spec_digit(d as int)],
{
    proof {
        reveal_strlit("0");
        reveal_strlit("1");
        reveal_strlit("2");
        reveal_strlit("3");
        reveal_strlit("4");
        reveal_strlit("5");
        reveal_strlit("6");
        reveal_strlit("7");
        reveal_strlit("8");
        reveal_strlit("9");
    }
    let s = if d == 0 {
        "0"
    } else if d == 1 {
        "1"
    } else if d == 2 {
        "2"
    } else if d == 3 {
        "3"
    } else if d == 4 {
        "4"
    } else if d == 5 {
        "5"
    } else if d == 6 {
        "6"
    } else if d == 7 {
        "7"
    } else if d == 8 {
        "8"
    } else {
        "9"
    };
    proof {
        assert(s@ =~= seq![spec_digit(d as int)]);
    }
    s
}

/// Renders a `u32` in decimal.
pub fn u32_string(n: u32) -> (s: String)
    ensures
        s@ == spec_dec(n as int),
    decreases n,
{
    if n < 10 {
        let mut s = String::new();
        s.append(digit_str(n));
        proof {
            assert(s@ =~= spec_dec(n as int));
        }
        s
    } else {
        let mut s = u32_string(n / 10);
        s.append(digit_str(n % 10));
        proof {
            assert(s@ =~= spec_dec(n as int));
        }
        s
    }
}

/// One catalog record: the filter label, the detected faces, and the four
/// expected geometry strings keyed by target resolution.
#[derive(Debug)]
pub struct WallInfo {
    pub filter: String,
    pub faces: Vec<Face>,
    pub r1440x2560: String,
    pub r2256x1504: String,
    pub r3440x1440: String,
    pub r1920x1080: String,
}

} // verus!
