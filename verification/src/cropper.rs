//! The cropper: owns the face list and the source dimensions, and computes
//! crop windows of a requested aspect ratio.

use vstd::prelude::*;
use crate::geometry::{AspectRatio, Direction, Face, face_in_bounds};
use crate::sizing::{
    lemma_sized_fits, spec_search_axis, spec_target_h, spec_target_w,
};

verus! {

/// A typed failure of crop computation.
#[derive(Clone, Copy, Debug, PartialEq, Eq, Structural)]
pub enum CropError {
    /// An aspect ratio with a zero side was supplied.
    InvalidAspectRatio,
    /// A face does not satisfy xmin <= xmax and ymin <= ymax within the
    /// source bounds.
    FaceOutOfBounds,
}

/// Owns the detected faces, the fixed source dimensions, and the currently
/// selected target aspect ratio.
#[derive(Debug)]
pub struct Cropper {
    pub faces: Vec<Face>,
    pub width: u32,
    pub height: u32,
    pub aspect_ratio: AspectRatio,
}

impl Cropper {
    /// The source dimensions are positive.
    pub open spec fn wf_dims(self) -> bool {
        self.width > 0 && self.height > 0
    }

    /// Dimensions positive and every face inside the source bounds.
    pub open spec fn wf(self) -> bool {
        &&& self.wf_dims()
        &&& forall|i: int|
            0 <= i < self.faces@.len() ==> face_in_bounds(
                #[trigger] self.faces@[i],
                self.width,
                self.height,
            )
    }

    /// Builds a cropper over a width x height source. Faces outside the
    /// source bounds (or with a minimum above its maximum) are rejected,
    /// not silently clamped. The selected ratio starts at the vertical
    /// preset.
    pub fn new(width: u32, height: u32, faces: Vec<Face>) -> (r: Result<Cropper, CropError>)
        requires
            width > 0,
            height > 0,
        ensures
            (forall|i: int|
                0 <= i < faces@.len() ==> face_in_bounds(#[trigger] faces@[i], width, height))
                ==> (r matches Ok(c) && c.faces@ == faces@ && c.width == width && c.height
                == height && c.aspect_ratio == AspectRatio(1440u32, 2560u32) && c.wf()),
            !(forall|i: int|
                0 <= i < faces@.len() ==> face_in_bounds(#[trigger] faces@[i], width, height))
                ==> r == Err::<Cropper, CropError>(CropError::FaceOutOfBounds),
    {
        let n = faces.len();
        let mut i: usize = 0;
        while i < n
            invariant
                n == faces@.len(),
                0 <= i <= n,
                forall|j: int| 0 <= j < i ==> face_in_bounds(#[trigger] faces@[j], width, height),
            decreases n - i,
        {
            let f = faces[i];
            if !(f.xmin <= f.xmax && f.ymin <= f.ymax && f.xmax <= width && f.ymax <= height) {
                return Err(CropError::FaceOutOfBounds);
            }
            i = i + 1;
        }
        Ok(Cropper { faces, width, height, aspect_ratio: AspectRatio(1440, 2560) })
    }

    /// Replaces the selected target aspect ratio; nothing else changes.
    pub fn set_aspect_ratio(&mut self, aspect_ratio: AspectRatio)
        ensures
            final(self).aspect_ratio == aspect_ratio,
            final(self).faces@ == old(self).faces@,
            final(self).width == old(self).width,
            final(self).height == old(self).height,
    {
        self.aspect_ratio = aspect_ratio;
    }

    /// Sizes the largest crop box of the given ratio that fits in the source
    /// and names the axis the box must slide on.
    pub fn crop_rect(&self, aspect_ratio: AspectRatio) -> (r: (u32, u32, Direction))
        requires
            self.wf_dims(),
            aspect_ratio.valid(),
        ensures
            r.0 == spec_target_w(
                self.width as int,
                self.height as int,
                aspect_ratio.0 as int,
                aspect_ratio.1 as int,
            ),
            r.1 == spec_target_h(
                self.width as int,
                self.height as int,
                aspect_ratio.0 as int,
                aspect_ratio.1 as int,
            ),
            r.2 == spec_search_axis(
                self.width as int,
                self.height as int,
                aspect_ratio.0 as int,
                aspect_ratio.1 as int,
            ),
            r.0 <= self.width,
            r.1 <= self.height,
    {
        let w = self.width as u64;
        let h = self.height as u64;
        let tw = aspect_ratio.0 as u64;
        let th = aspect_ratio.1 as u64;
        proof {
            assert(h * tw <= 0xffff_ffff * 0xffff_ffff) by (nonlinear_arith)
                requires
                    h <= 0xffff_ffffu64,
                    tw <= 0xffff_ffffu64,
            ;
            assert(w * th <= 0xffff_ffff * 0xffff_ffff) by (nonlinear_arith)
                requires
                    w <= 0xffff_ffffu64,
                    th <= 0xffff_ffffu64,
            ;
            lemma_sized_fits(w as int, h as int, tw as int, th as int);
        }
        let fit_w = h * tw / th;
        let cw = if w < fit_w {
            w
        } else {
            fit_w
        };
        let fit_h = w * th / tw;
        let ch = if h < fit_h {
            h
        } else {
            fit_h
        };
        proof {
            assert(cw * th <= 0xffff_ffff * 0xffff_ffff) by (nonlinear_arith)
                requires
                    cw <= 0xffff_ffffu64,
                    th <= 0xffff_ffffu64,
            ;
            assert(ch * tw <= 0xffff_ffff * 0xffff_ffff) by (nonlinear_arith)
                requires
                    ch <= 0xffff_ffffu64,
                    tw <= 0xffff_ffffu64,
            ;
        }
        let final_w = if cw * th > ch * tw {
            cw
        } else {
            ch * tw / th
        };
        let out_w = final_w as u32;
        let out_h = ch as u32;
        let direction = if out_w == self.width {
            Direction::Y
        } else {
            Direction::X
        };
        (out_w, out_h, direction)
    }

    /// Positions a sized crop box at a desired offset along the search axis,
    /// clipped to the source image. The offset is given doubled (`val2` is
    /// twice the desired start), so a face midpoint is representable exactly;
    /// an in-range offset is truncated downward to whole pixels. The box
    /// spans the full source extent on the other axis.
    pub fn clamp(&self, val2: i64, direction: Direction, target_width: u32, target_height: u32) -> (r:
        Face)
        requires
            target_width <= self.width,
            target_height <= self.height,
            val2 < 0x4000_0000_0000_0000i64,
        ensures
            r == spec_clamp(self.width, self.height, val2 as int, direction, target_width,
            target_height),
    {
        match direction {
            Direction::X => {
                if val2 < 0 {
                    Face { xmin: 0, xmax: target_width, ymin: 0, ymax: self.height }
                } else if val2 + 2 * (target_width as i64) > 2 * (self.width as i64) {
                    Face {
                        xmin: self.width - target_width,
                        xmax: self.width,
                        ymin: 0,
                        ymax: self.height,
                    }
                } else {
                    let p = (val2 / 2) as u32;
                    proof {
                        assert(val2 / 2 + target_width <= self.width);
                    }
                    Face { xmin: p, xmax: p + target_width, ymin: 0, ymax: self.height }
                }
            },
            Direction::Y => {
                if val2 < 0 {
                    Face { xmin: 0, xmax: self.width, ymin: 0, ymax: target_height }
                } else if val2 + 2 * (target_height as i64) > 2 * (self.height as i64) {
                    Face {
                        xmin: 0,
                        xmax: self.width,
                        ymin: self.height - target_height,
                        ymax: self.height,
                    }
                } else {
                    let p = (val2 / 2) as u32;
                    proof {
                        assert(val2 / 2 + target_height <= self.height);
                    }
                    Face { xmin: 0, xmax: self.width, ymin: p, ymax: p + target_height }
                }
            },
        }
    }

    /// Centers the sized crop box on the midpoint of the first face along the
    /// search axis, then clips it to the source.
    pub fn crop_single_face(&self, direction: Direction, target_width: u32, target_height: u32) -> (r:
        Face)
        requires
            self.faces@.len() >= 1,
            target_width <= self.width,
            target_height <= self.height,
        ensures
            r == spec_crop_single_face(
                self.width,
                self.height,
                self.faces@[0],
                direction,
                target_width,
                target_height,
            ),
    {
        let f = self.faces[0];
        match direction {
            Direction::X => {
                let v2 = f.xmin as i64 + f.xmax as i64 - target_width as i64;
                self.clamp(v2, Direction::X, target_width, target_height)
            },
            Direction::Y => {
                let v2 = f.ymin as i64 + f.ymax as i64 - target_height as i64;
                self.clamp(v2, Direction::Y, target_width, target_height)
            },
        }
    }
}

/// The clip policy: a desired doubled offset below zero lands at zero, one
/// whose box would cross the far edge lands flush against it, and an in-range
/// one is truncated to whole pixels. The box keeps its exact size and spans
/// the full source on the other axis.
pub open spec fn spec_clamp(
    width: u32,
    height: u32,
    val2: int,
    direction: Direction,
    target_width: u32,
    target_height: u32,
) -> Face {
    match direction {
        Direction::X => {
            if val2 < 0 {
                Face { xmin: 0, xmax: target_width, ymin: 0, ymax: height }
            } else if val2 + 2 * (target_width as int) > 2 * (width as int) {
                Face { xmin: (width - target_width) as u32, xmax: width, ymin: 0, ymax: height }
            } else {
                Face {
                    xmin: (val2 / 2) as u32,
                    xmax: (val2 / 2 + target_width) as u32,
                    ymin: 0,
                    ymax: height,
                }
            }
        },
        Direction::Y => {
            if val2 < 0 {
                Face { xmin: 0, xmax: width, ymin: 0, ymax: target_height }
            } else if val2 + 2 * (target_height as int) > 2 * (height as int) {
                Face { xmin: 0, xmax: width, ymin: (height - target_height) as u32, ymax: height }
            } else {
                Face {
                    xmin: 0,
                    xmax: width,
                    ymin: (val2 / 2) as u32,
                    ymax: (val2 / 2 + target_height) as u32,
                }
            }
        },
    }
}

/// Single-face placement: the doubled offset that centers the box on the
/// face's midpoint along the search axis, handed to the clip policy.
pub open spec fn spec_crop_single_face(
    width: u32,
    height: u32,
    f: Face,
    direction: Direction,
    target_width: u32,
    target_height: u32,
) -> Face {
    match direction {
        Direction::X => spec_clamp(
            width,
            height,
            f.xmin + f.xmax - target_width,
            Direction::X,
            target_width,
            target_height,
        ),
        Direction::Y => spec_clamp(
            width,
            height,
            f.ymin + f.ymax - target_height,
            Direction::Y,
            target_width,
            target_height,
        ),
    }
}

/// Every clipped box lies inside the source and has the requested extent
/// along the search axis.
pub proof fn lemma_clamp_in_bounds(
    width: u32,
    height: u32,
    val2: int,
    direction: Direction,
    target_width: u32,
    target_height: u32,
)
    requires
        target_width <= width,
        target_height <= height,
    ensures
        face_in_bounds(
            spec_clamp(width, height, val2, direction, target_width, target_height),
            width,
            height,
        ),
        direction is X ==> spec_clamp(width, height, val2, direction, target_width, target_height).xmax
            - spec_clamp(width, height, val2, direction, target_width, target_height).xmin
            == target_width,
        direction is Y ==> spec_clamp(width, height, val2, direction, target_width, target_height).ymax
            - spec_clamp(width, height, val2, direction, target_width, target_height).ymin
            == target_height,
{
}

} // verus!
