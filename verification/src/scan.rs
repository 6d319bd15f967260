//! Single-best crop selection: a sliding-window scan that scores face
//! coverage at every start position along the search axis.
//!
//! Coverage of a face is counted in fixed point with scale 2^32: a fully
//! contained face contributes one whole unit (`SCALE`), and a face cut by the
//! trailing edge of the window contributes the truncated fixed-point fraction
//! overlap / face length. A pixel-area aggregate runs beside the count and
//! breaks ties; among positions tied on both, the median start is chosen.

use vstd::prelude::*;
use vstd::arithmetic::div_mod::{
    lemma_div_is_ordered, lemma_div_multiples_vanish, lemma_div_pos_is_pos,
};
use vstd::arithmetic::mul::lemma_mul_inequality;
use crate::geometry::{AspectRatio, Direction, Face, face_in_bounds, face_wf, spec_area};
use crate::sizing::{lemma_sized_fits, spec_search_axis, spec_target_h, spec_target_w};
use crate::cropper::{
    lemma_clamp_in_bounds, spec_clamp, spec_crop_single_face, CropError, Cropper,
};

verus! {

/// One whole face in fixed-point coverage units.
pub const SCALE: u64 = 0x1_0000_0000;

/// A face's smaller coordinate along the search axis.
pub open spec fn axis_lo(f: Face, d: Direction) -> int {
    match d {
        Direction::X => f.xmin as int,
        Direction::Y => f.ymin as int,
    }
}

/// A face's larger coordinate along the search axis.
pub open spec fn axis_hi(f: Face, d: Direction) -> int {
    match d {
        Direction::X => f.xmax as int,
        Direction::Y => f.ymax as int,
    }
}

/// A face's extent on the axis orthogonal to the search axis.
pub open spec fn ortho_len(f: Face, d: Direction) -> int {
    match d {
        Direction::X => f.ymax - f.ymin,
        Direction::Y => f.xmax - f.xmin,
    }
}

/// Fixed-point count contributed by one face to the window [s, e): a whole
/// `SCALE` for full containment, a truncated fraction of it when the face
/// runs past the trailing edge, nothing otherwise.
pub open spec fn contrib_count(f: Face, d: Direction, s: int, e: int) -> int {
    let lo = axis_lo(f, d);
    let hi = axis_hi(f, d);
    if lo > e {
        0
    } else if hi < s {
        0
    } else if lo >= s && hi <= e {
        SCALE as int
    } else if hi > e {
        (e - lo) * (SCALE as int) / (hi - lo)
    } else {
        0
    }
}

/// Pixel area contributed by one face to the window [s, e): its full area
/// for full containment, overlap length times its orthogonal extent when it
/// runs past the trailing edge, nothing otherwise.
pub open spec fn contrib_area(f: Face, d: Direction, s: int, e: int) -> int {
    let lo = axis_lo(f, d);
    let hi = axis_hi(f, d);
    if lo > e {
        0
    } else if hi < s {
        0
    } else if lo >= s && hi <= e {
        spec_area(f)
    } else if hi > e {
        (e - lo) * ortho_len(f, d)
    } else {
        0
    }
}

/// Fixed-point count summed over all faces for the window [s, e).
pub open spec fn sum_count(faces: Seq<Face>, d: Direction, s: int, e: int) -> int
    decreases faces.len(),
{
    if faces.len() == 0 {
        0
    } else {
        sum_count(faces.drop_last(), d, s, e) + contrib_count(faces.last(), d, s, e)
    }
}

/// Pixel area summed over all faces for the window [s, e).
pub open spec fn sum_area(faces: Seq<Face>, d: Direction, s: int, e: int) -> int
    decreases faces.len(),
{
    if faces.len() == 0 {
        0
    } else {
        sum_area(faces.drop_last(), d, s, e) + contrib_area(faces.last(), d, s, e)
    }
}

/// The greatest count score over window starts in [0, k), floored at zero.
pub open spec fn best_count(faces: Seq<Face>, d: Direction, len: int, k: int) -> int
    decreases k,
{
    if k <= 0 {
        0
    } else {
        let prev = best_count(faces, d, len, k - 1);
        let cur = sum_count(faces, d, k - 1, k - 1 + len);
        if cur > prev {
            cur
        } else {
            prev
        }
    }
}

/// The window starts in [0, k), in ascending order, whose count score equals
/// m; empty when m is not positive.
pub open spec fn scan_starts(faces: Seq<Face>, d: Direction, len: int, k: int, m: int) -> Seq<int>
    decreases k,
{
    if k <= 0 {
        Seq::<int>::empty()
    } else {
        let rest = scan_starts(faces, d, len, k - 1, m);
        if m > 0 && sum_count(faces, d, k - 1, k - 1 + len) == m {
            rest.push(k - 1)
        } else {
            rest
        }
    }
}

/// The greatest area score among the given window starts, floored at zero.
pub open spec fn best_area_over(faces: Seq<Face>, d: Direction, len: int, starts: Seq<int>) -> int
    decreases starts.len(),
{
    if starts.len() == 0 {
        0
    } else {
        let prev = best_area_over(faces, d, len, starts.drop_last());
        let cur = sum_area(faces, d, starts.last(), starts.last() + len);
        if cur > prev {
            cur
        } else {
            prev
        }
    }
}

/// The given window starts restricted to those whose area score equals a,
/// order kept.
pub open spec fn filter_by_area(
    faces: Seq<Face>,
    d: Direction,
    len: int,
    starts: Seq<int>,
    a: int,
) -> Seq<int>
    decreases starts.len(),
{
    if starts.len() == 0 {
        Seq::<int>::empty()
    } else {
        let rest = filter_by_area(faces, d, len, starts.drop_last(), a);
        if sum_area(faces, d, starts.last(), starts.last() + len) == a {
            rest.push(starts.last())
        } else {
            rest
        }
    }
}

/// The doubled offset the multi-face scan settles on: among the starts with
/// the greatest count score, keep those with the greatest area score, and
/// take the middle one.
pub open spec fn spec_scan_choice(faces: Seq<Face>, d: Direction, len: int, rmax: int) -> int {
    let m = best_count(faces, d, len, rmax);
    let s1 = scan_starts(faces, d, len, rmax, m);
    let a = best_area_over(faces, d, len, s1);
    let s2 = filter_by_area(faces, d, len, s1, a);
    2 * s2[s2.len() as int / 2]
}

/// What `Cropper::crop` returns on a valid ratio: the full image when no
/// cropping is needed; the single face centered when there is exactly one
/// face; otherwise the scan's choice, clipped — or a centered window when
/// there is no face, or no window start scores above zero.
pub open spec fn spec_crop(c: Cropper, ar: AspectRatio) -> Face {
    let tw = spec_target_w(c.width as int, c.height as int, ar.0 as int, ar.1 as int);
    let th = spec_target_h(c.width as int, c.height as int, ar.0 as int, ar.1 as int);
    let d = spec_search_axis(c.width as int, c.height as int, ar.0 as int, ar.1 as int);
    if tw == c.width as int && th == c.height as int {
        Face { xmin: 0, xmax: c.width, ymin: 0, ymax: c.height }
    } else {
        let twu = tw as u32;
        let thu = th as u32;
        if c.faces@.len() == 1 {
            spec_crop_single_face(c.width, c.height, c.faces@[0], d, twu, thu)
        } else {
            let len = if d is X {
                tw
            } else {
                th
            };
            let dim = if d is X {
                c.width as int
            } else {
                c.height as int
            };
            let rmax = dim - len;
            if best_count(c.faces@, d, len, rmax) == 0 {
                spec_clamp(c.width, c.height, dim - len, d, twu, thu)
            } else {
                spec_clamp(
                    c.width,
                    c.height,
                    spec_scan_choice(c.faces@, d, len, rmax),
                    d,
                    twu,
                    thu,
                )
            }
        }
    }
}

/// A face's contribution to a window below 2^32 is between nothing and one
/// whole unit of count, and at most a full-image pixel area.
pub proof fn lemma_contrib_bounds(f: Face, d: Direction, s: int, e: int)
    requires
        face_wf(f),
        0 <= s <= e,
        e <= 0xffff_ffff,
    ensures
        0 <= contrib_count(f, d, s, e) <= SCALE as int,
        0 <= contrib_area(f, d, s, e) <= 0xffff_ffff * 0xffff_ffff,
{
    let lo = axis_lo(f, d);
    let hi = axis_hi(f, d);
    if lo > e || hi < s {
    } else if lo >= s && hi <= e {
        assert(spec_area(f) <= 0xffff_ffff * 0xffff_ffff) by (nonlinear_arith)
            requires
                0 <= f.xmax - f.xmin <= 0xffff_ffff,
                0 <= f.ymax - f.ymin <= 0xffff_ffff,
        ;
        assert(spec_area(f) >= 0) by (nonlinear_arith)
            requires
                f.xmin <= f.xmax,
                f.ymin <= f.ymax,
        ;
    } else if hi > e {
        let ov = e - lo;
        let den = hi - lo;
        assert(0 <= ov < den);
        assert(ov * (SCALE as int) >= 0) by (nonlinear_arith)
            requires
                ov >= 0,
        ;
        lemma_div_pos_is_pos(ov * (SCALE as int), den);
        lemma_mul_inequality(ov, den, SCALE as int);
        lemma_div_is_ordered(ov * (SCALE as int), den * (SCALE as int), den);
        lemma_div_multiples_vanish(SCALE as int, den);
        assert(den * (SCALE as int) / den == SCALE as int);
        assert(ov * ortho_len(f, d) >= 0) by (nonlinear_arith)
            requires
                ov >= 0,
                ortho_len(f, d) >= 0,
        ;
        assert(ov * ortho_len(f, d) <= 0xffff_ffff * 0xffff_ffff) by (nonlinear_arith)
            requires
                0 <= ov <= 0xffff_ffff,
                0 <= ortho_len(f, d) <= 0xffff_ffff,
        ;
    } else {
    }
}

/// A transient pairing of an area score with the window start that achieved
/// it; exists only during a scan.
struct FaceInfo {
    area: u128,
    start: u32,
}

impl Cropper {
    /// Computes the single best crop window of the given ratio: the largest
    /// box of that ratio that fits, placed along the search axis so that
    /// fixed-point face coverage is greatest, ties broken by covered pixel
    /// area and then by the median start. A ratio with a zero side is
    /// rejected; with no face, or no start scoring above zero, the window is
    /// centered.
    pub fn crop(&self, aspect_ratio: AspectRatio) -> (r: Result<Face, CropError>)
        requires
            self.wf(),
        ensures
            aspect_ratio.valid() ==> r == Ok::<Face, CropError>(spec_crop(*self, aspect_ratio)),
            !aspect_ratio.valid() ==> r == Err::<Face, CropError>(CropError::InvalidAspectRatio),
            r matches Ok(f) ==> face_in_bounds(f, self.width, self.height),
    {
        if aspect_ratio.0 == 0 || aspect_ratio.1 == 0 {
            return Err(CropError::InvalidAspectRatio);
        }
        let (tw, th, d) = self.crop_rect(aspect_ratio);
        if tw == self.width && th == self.height {
            return Ok(Face { xmin: 0, xmax: self.width, ymin: 0, ymax: self.height });
        }
        if self.faces.len() == 1 {
            let out = self.crop_single_face(d, tw, th);
            proof {
                lemma_crop_in_bounds(*self, aspect_ratio);
            }
            return Ok(out);
        }
        let dim: u32 = match d {
            Direction::X => self.width,
            Direction::Y => self.height,
        };
        let len: u32 = match d {
            Direction::X => tw,
            Direction::Y => th,
        };
        let rmax: u32 = dim - len;
        let ghost faces = self.faces@;
        let ghost leni = len as int;
        let mut best: u128 = 0;
        let mut infos: Vec<FaceInfo> = Vec::new();
        let mut s: u32 = 0;
        while s < rmax
            invariant
                self.wf(),
                faces == self.faces@,
                leni == len as int,
                len <= dim,
                rmax == dim - len,
                dim == (if d is X {
                    self.width
                } else {
                    self.height
                }),
                0 <= s <= rmax,
                best as int == best_count(faces, d, leni, s as int),
                infos@.len() == scan_starts(faces, d, leni, s as int, best as int).len(),
                forall|q: int|
                    0 <= q < infos@.len() ==> (#[trigger] infos@[q]).start as int == scan_starts(
                        faces,
                        d,
                        leni,
                        s as int,
                        best as int,
                    )[q],
                forall|q: int|
                    0 <= q < infos@.len() ==> (#[trigger] infos@[q]).area as int == sum_area(
                        faces,
                        d,
                        infos@[q].start as int,
                        infos@[q].start as int + leni,
                    ),
            decreases rmax - s,
        {
            let e: u64 = s as u64 + len as u64;
            let n = self.faces.len();
            let mut cn: u128 = 0;
            let mut ca: u128 = 0;
            let mut j: usize = 0;
            proof {
                assert(faces.take(0) =~= Seq::<Face>::empty());
            }
            while j < n
                invariant
                    self.wf(),
                    faces == self.faces@,
                    n == faces.len(),
                    e == s as u64 + len as u64,
                    e <= 0xffff_ffffu64,
                    s as u64 <= e,
                    0 <= j <= n,
                    cn as int == sum_count(faces.take(j as int), d, s as int, e as int),
                    ca as int == sum_area(faces.take(j as int), d, s as int, e as int),
                    cn as int <= j * (SCALE as int),
                    ca as int <= j * (0xffff_ffff * 0xffff_ffff),
                decreases n - j,
            {
                let f = self.faces[j];
                proof {
                    assert(face_in_bounds(faces[j as int], self.width, self.height));
                    lemma_contrib_bounds(f, d, s as int, e as int);
                    lemma_sum_take_step(faces, d, s as int, e as int, j as int);
                }
                let (lo, hi) = match d {
                    Direction::X => (f.xmin as u64, f.xmax as u64),
                    Direction::Y => (f.ymin as u64, f.ymax as u64),
                };
                if lo > e {
                    // no intersection: the face starts past the window
                } else if hi < s as u64 {
                    // no intersection: the face ends before the window
                } else if lo >= s as u64 && hi <= e {
                    proof {
                        lemma_area_accum_fits(ca as int, j as int, n as int, spec_area(f));
                    }
                    cn = cn + SCALE as u128;
                    ca = ca + f.area() as u128;
                } else if hi > e {
                    let ov = e - lo;
                    let den = hi - lo;
                    proof {
                        assert(ov as u128 * SCALE as u128 <= 0xffff_ffff * 0x1_0000_0000)
                            by (nonlinear_arith)
                            requires
                                ov <= 0xffff_ffffu64,
                        ;
                    }
                    cn = cn + (ov as u128 * SCALE as u128) / (den as u128);
                    let ortho = match d {
                        Direction::X => f.height(),
                        Direction::Y => f.width(),
                    };
                    proof {
                        assert(ov as u128 * ortho as u128 <= 0xffff_ffff * 0xffff_ffff)
                            by (nonlinear_arith)
                            requires
                                ov <= 0xffff_ffffu64,
                                ortho <= 0xffff_ffffu32,
                        ;
                        lemma_area_accum_fits(
                            ca as int,
                            j as int,
                            n as int,
                            ov as int * ortho as int,
                        );
                    }
                    ca = ca + ov as u128 * ortho as u128;
                }
                proof {
                    assert((j as int) * (SCALE as int) <= (j as int + 1) * (SCALE as int))
                        by (nonlinear_arith)
                        requires
                            j >= 0,
                    ;
                    assert((j as int) * (0xffff_ffff * 0xffff_ffff) <= (j as int + 1) * (
                    0xffff_ffff * 0xffff_ffff)) by (nonlinear_arith)
                        requires
                            j >= 0,
                    ;
                }
                j = j + 1;
            }
            proof {
                assert(faces.take(n as int) =~= faces);
            }
            if cn > 0 {
                if cn > best {
                    proof {
                        lemma_scan_starts_empty(faces, d, leni, s as int, cn as int);
                    }
                    best = cn;
                    let mut v: Vec<FaceInfo> = Vec::new();
                    v.push(FaceInfo { area: ca, start: s });
                    infos = v;
                } else if cn == best {
                    infos.push(FaceInfo { area: ca, start: s });
                }
            }
            s = s + 1;
        }
        if infos.len() == 0 {
            proof {
                if best as int > 0 {
                    lemma_scan_starts_nonempty(faces, d, leni, rmax as int);
                }
                lemma_crop_in_bounds(*self, aspect_ratio);
            }
            let v2 = dim as i64 - len as i64;
            return Ok(self.clamp(v2, d, tw, th));
        }
        let ghost m = best as int;
        let ghost s1 = scan_starts(faces, d, leni, rmax as int, m);
        let mut amax: u128 = 0;
        let mut i: usize = 0;
        proof {
            assert(s1.take(0) =~= Seq::<int>::empty());
        }
        while i < infos.len()
            invariant
                s1 == scan_starts(faces, d, leni, rmax as int, m),
                infos@.len() == s1.len(),
                forall|q: int| 0 <= q < infos@.len() ==> (#[trigger] infos@[q]).start as int == s1[q],
                forall|q: int|
                    0 <= q < infos@.len() ==> (#[trigger] infos@[q]).area as int == sum_area(
                        faces,
                        d,
                        infos@[q].start as int,
                        infos@[q].start as int + leni,
                    ),
                0 <= i <= infos@.len(),
                amax as int == best_area_over(faces, d, leni, s1.take(i as int)),
            decreases infos@.len() - i,
        {
            proof {
                lemma_best_area_take_step(faces, d, leni, s1, i as int);
            }
            let a = infos[i].area;
            if a > amax {
                amax = a;
            }
            i = i + 1;
        }
        proof {
            assert(s1.take(s1.len() as int) =~= s1);
        }
        let ghost abest = amax as int;
        let ghost s2 = filter_by_area(faces, d, leni, s1, abest);
        let mut picks: Vec<u32> = Vec::new();
        let mut i2: usize = 0;
        proof {
            assert(s1.take(0) =~= Seq::<int>::empty());
        }
        while i2 < infos.len()
            invariant
                s1 == scan_starts(faces, d, leni, rmax as int, m),
                abest == amax as int,
                infos@.len() == s1.len(),
                forall|q: int| 0 <= q < infos@.len() ==> (#[trigger] infos@[q]).start as int == s1[q],
                forall|q: int|
                    0 <= q < infos@.len() ==> (#[trigger] infos@[q]).area as int == sum_area(
                        faces,
                        d,
                        infos@[q].start as int,
                        infos@[q].start as int + leni,
                    ),
                0 <= i2 <= infos@.len(),
                picks@.len() == filter_by_area(faces, d, leni, s1.take(i2 as int), abest).len(),
                forall|q: int|
                    0 <= q < picks@.len() ==> (#[trigger] picks@[q]) as int == filter_by_area(
                        faces,
                        d,
                        leni,
                        s1.take(i2 as int),
                        abest,
                    )[q],
            decreases infos@.len() - i2,
        {
            proof {
                lemma_filter_take_step(faces, d, leni, s1, abest, i2 as int);
            }
            if infos[i2].area == amax {
                picks.push(infos[i2].start);
            }
            i2 = i2 + 1;
        }
        proof {
            assert(s1.take(s1.len() as int) =~= s1);
            assert forall|q: int| 0 <= q < s1.len() implies sum_area(
                faces,
                d,
                #[trigger] s1[q],
                s1[q] + leni,
            ) >= 0 by {
                assert(infos@[q].start as int == s1[q]);
                assert(infos@[q].area as int == sum_area(faces, d, s1[q], s1[q] + leni));
            }
            lemma_filter_by_area_nonempty(faces, d, leni, s1);
        }
        let pick = picks[picks.len() / 2];
        let v2 = 2 * (pick as i64);
        let out = self.clamp(v2, d, tw, th);
        proof {
            if m <= 0 {
                lemma_scan_starts_nonpos(faces, d, leni, rmax as int, m);
            }
            assert(m > 0);
            assert(picks@[picks@.len() as int / 2] as int == s2[s2.len() as int / 2]);
            assert(v2 as int == spec_scan_choice(faces, d, leni, rmax as int));
            lemma_crop_in_bounds(*self, aspect_ratio);
        }
        Ok(out)
    }
}

/// Every crop the selection can return lies inside the source image.
pub proof fn lemma_crop_in_bounds(c: Cropper, ar: AspectRatio)
    requires
        c.wf(),
        ar.valid(),
    ensures
        face_in_bounds(spec_crop(c, ar), c.width, c.height),
{
    let tw = spec_target_w(c.width as int, c.height as int, ar.0 as int, ar.1 as int);
    let th = spec_target_h(c.width as int, c.height as int, ar.0 as int, ar.1 as int);
    let d = spec_search_axis(c.width as int, c.height as int, ar.0 as int, ar.1 as int);
    lemma_sized_fits(c.width as int, c.height as int, ar.0 as int, ar.1 as int);
    let twu = tw as u32;
    let thu = th as u32;
    if tw == c.width as int && th == c.height as int {
    } else if c.faces@.len() == 1 {
        let f = c.faces@[0];
        match d {
            Direction::X => {
                lemma_clamp_in_bounds(
                    c.width,
                    c.height,
                    f.xmin + f.xmax - twu,
                    Direction::X,
                    twu,
                    thu,
                );
            },
            Direction::Y => {
                lemma_clamp_in_bounds(
                    c.width,
                    c.height,
                    f.ymin + f.ymax - thu,
                    Direction::Y,
                    twu,
                    thu,
                );
            },
        }
    } else {
        let len = if d is X {
            tw
        } else {
            th
        };
        let dim = if d is X {
            c.width as int
        } else {
            c.height as int
        };
        let rmax = dim - len;
        if best_count(c.faces@, d, len, rmax) == 0 {
            lemma_clamp_in_bounds(c.width, c.height, dim - len, d, twu, thu);
        } else {
            lemma_clamp_in_bounds(
                c.width,
                c.height,
                spec_scan_choice(c.faces@, d, len, rmax),
                d,
                twu,
                thu,
            );
        }
    }
}

/// Extending the scanned prefix of the face list by one face adds exactly
/// that face's contribution to each running sum.
pub proof fn lemma_sum_take_step(faces: Seq<Face>, d: Direction, s: int, e: int, j: int)
    requires
        0 <= j < faces.len(),
    ensures
        sum_count(faces.take(j + 1), d, s, e) == sum_count(faces.take(j), d, s, e) + contrib_count(
            faces[j],
            d,
            s,
            e,
        ),
        sum_area(faces.take(j + 1), d, s, e) == sum_area(faces.take(j), d, s, e) + contrib_area(
            faces[j],
            d,
            s,
            e,
        ),
{
    assert(faces.take(j + 1).drop_last() =~= faces.take(j));
    assert(faces.take(j + 1).last() == faces[j]);
}

/// A bounded area accumulator stays below the accumulator type's range when
/// one more bounded contribution joins it.
pub proof fn lemma_area_accum_fits(ca: int, j: int, n: int, c: int)
    requires
        0 <= j < n,
        n <= 0xffff_ffff_ffff_ffff,
        0 <= ca <= j * (0xffff_ffff * 0xffff_ffff),
        0 <= c <= 0xffff_ffff * 0xffff_ffff,
    ensures
        ca + c <= (j + 1) * (0xffff_ffff * 0xffff_ffff),
        ca + c <= 0xffff_ffff_ffff_ffff * (0xffff_ffff * 0xffff_ffff),
{
    assert(ca + c <= (j + 1) * (0xffff_ffff * 0xffff_ffff)) by (nonlinear_arith)
        requires
            0 <= ca <= j * (0xffff_ffff * 0xffff_ffff),
            0 <= c <= 0xffff_ffff * 0xffff_ffff,
    ;
    lemma_mul_inequality(j + 1, 0xffff_ffff_ffff_ffff, (0xffff_ffff * 0xffff_ffff) as int);
}

/// With a score bound that is not positive, no window start is kept.
pub proof fn lemma_scan_starts_nonpos(faces: Seq<Face>, d: Direction, len: int, k: int, m: int)
    requires
        m <= 0,
    ensures
        scan_starts(faces, d, len, k, m) == Seq::<int>::empty(),
    decreases k,
{
    if k > 0 {
        lemma_scan_starts_nonpos(faces, d, len, k - 1, m);
    }
    assert(scan_starts(faces, d, len, k, m) =~= Seq::<int>::empty());
}

/// No window start scores a count above the range's best.
pub proof fn lemma_scan_starts_empty(faces: Seq<Face>, d: Direction, len: int, k: int, m: int)
    requires
        m > best_count(faces, d, len, k),
    ensures
        scan_starts(faces, d, len, k, m) == Seq::<int>::empty(),
    decreases k,
{
    if k > 0 {
        lemma_scan_starts_empty(faces, d, len, k - 1, m);
        assert(scan_starts(faces, d, len, k, m) =~= Seq::<int>::empty());
    } else {
        assert(scan_starts(faces, d, len, k, m) =~= Seq::<int>::empty());
    }
}

/// A positive best count is attained somewhere, so the tied-start list is
/// not empty.
pub proof fn lemma_scan_starts_nonempty(faces: Seq<Face>, d: Direction, len: int, k: int)
    requires
        best_count(faces, d, len, k) > 0,
    ensures
        scan_starts(faces, d, len, k, best_count(faces, d, len, k)).len() > 0,
    decreases k,
{
    let m = best_count(faces, d, len, k);
    if k > 0 {
        let cur = sum_count(faces, d, k - 1, k - 1 + len);
        if cur == m {
        } else {
            assert(m == best_count(faces, d, len, k - 1));
            lemma_scan_starts_nonempty(faces, d, len, k - 1);
        }
    }
}

/// The best area among a non-empty list of starts with non-negative scores
/// is attained, so filtering by it keeps at least one start.
pub proof fn lemma_filter_by_area_nonempty(faces: Seq<Face>, d: Direction, len: int, starts: Seq<int>)
    requires
        starts.len() > 0,
        forall|i: int|
            0 <= i < starts.len() ==> sum_area(faces, d, #[trigger] starts[i], starts[i] + len)
                >= 0,
    ensures
        filter_by_area(faces, d, len, starts, best_area_over(faces, d, len, starts)).len() > 0,
    decreases starts.len(),
{
    let a = best_area_over(faces, d, len, starts);
    let cur = sum_area(faces, d, starts.last(), starts.last() + len);
    if cur == a {
    } else {
        let rest = starts.drop_last();
        assert(starts.last() == starts[starts.len() - 1]);
        assert(cur >= 0);
        if rest.len() == 0 {
            assert(best_area_over(faces, d, len, rest) == 0);
            assert(a == cur);
            assert(false);
        }
        assert(rest.len() > 0);
        assert(a == best_area_over(faces, d, len, rest));
        assert(forall|i: int|
            0 <= i < rest.len() ==> sum_area(faces, d, #[trigger] rest[i], rest[i] + len) >= 0);
        lemma_filter_by_area_nonempty(faces, d, len, rest);
    }
}

/// Extending the start list by one start folds its area score into the best.
pub proof fn lemma_best_area_take_step(
    faces: Seq<Face>,
    d: Direction,
    len: int,
    starts: Seq<int>,
    i: int,
)
    requires
        0 <= i < starts.len(),
    ensures
        best_area_over(faces, d, len, starts.take(i + 1)) == ({
            let prev = best_area_over(faces, d, len, starts.take(i));
            let cur = sum_area(faces, d, starts[i], starts[i] + len);
            if cur > prev {
                cur
            } else {
                prev
            }
        }),
{
    assert(starts.take(i + 1).drop_last() =~= starts.take(i));
    assert(starts.take(i + 1).last() == starts[i]);
}

/// Extending the start list by one start keeps it in the filtered list
/// exactly when its area score matches.
pub proof fn lemma_filter_take_step(
    faces: Seq<Face>,
    d: Direction,
    len: int,
    starts: Seq<int>,
    a: int,
    i: int,
)
    requires
        0 <= i < starts.len(),
    ensures
        filter_by_area(faces, d, len, starts.take(i + 1), a) == (if sum_area(
            faces,
            d,
            starts[i],
            starts[i] + len,
        ) == a {
            filter_by_area(faces, d, len, starts.take(i), a).push(starts[i])
        } else {
            filter_by_area(faces, d, len, starts.take(i), a)
        }),
{
    assert(starts.take(i + 1).drop_last() =~= starts.take(i));
    assert(starts.take(i + 1).last() == starts[i]);
}

} // verus!
