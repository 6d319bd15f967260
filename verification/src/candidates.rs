//! Multi-candidate crop selection: one alternative crop per distinct
//! fully-covered face area.
//!
//! Unlike the single-best scan, only full containment counts here: for every
//! window start and every face wholly inside that window, the face's area and
//! the start are recorded. Starts are grouped by area; each group contributes
//! the crop at its median start; the resulting crops are ordered by their
//! position along the search axis.

use vstd::prelude::*;
use crate::geometry::{AspectRatio, Direction, Face, face_in_bounds, spec_area};
use crate::sizing::{spec_search_axis, spec_target_h, spec_target_w};
use crate::cropper::{lemma_clamp_in_bounds, spec_clamp, spec_crop_single_face, CropError, Cropper};
use crate::scan::{axis_hi, axis_lo, lemma_crop_in_bounds, spec_crop};

verus! {

/// A face lies wholly inside the window [s, e) along the search axis.
pub open spec fn full_at(f: Face, d: Direction, s: int, e: int) -> bool {
    axis_lo(f, d) >= s && axis_hi(f, d) <= e
}

/// How many faces of area a lie wholly inside the window [s, e).
pub open spec fn count_full(faces: Seq<Face>, d: Direction, a: int, s: int, e: int) -> int
    decreases faces.len(),
{
    if faces.len() == 0 {
        0
    } else {
        count_full(faces.drop_last(), d, a, s, e) + if spec_area(faces.last()) == a && full_at(
            faces.last(),
            d,
            s,
            e,
        ) {
            1int
        } else {
            0int
        }
    }
}

/// The window starts in [0, k), ascending, once per face of area a wholly
/// inside the window there.
pub open spec fn group_starts(faces: Seq<Face>, d: Direction, a: int, len: int, k: int) -> Seq<int>
    decreases k,
{
    if k <= 0 {
        Seq::<int>::empty()
    } else {
        group_starts(faces, d, a, len, k - 1) + Seq::new(
            count_full(faces, d, a, k - 1, k - 1 + len) as nat,
            |i: int| k - 1,
        )
    }
}

/// Inserts an area key into a list, keeping ascending order and dropping a
/// duplicate.
pub open spec fn insert_key(keys: Seq<int>, a: int) -> Seq<int>
    decreases keys.len(),
{
    if keys.len() == 0 {
        seq![a]
    } else if keys[0] < a {
        seq![keys[0]] + insert_key(keys.skip(1), a)
    } else if keys[0] == a {
        keys
    } else {
        seq![a] + keys
    }
}

/// The distinct areas of the given faces, ascending.
pub open spec fn area_keys(faces: Seq<Face>) -> Seq<int>
    decreases faces.len(),
{
    if faces.len() == 0 {
        Seq::<int>::empty()
    } else {
        insert_key(area_keys(faces.drop_last()), spec_area(faces.last()))
    }
}

/// One clipped crop per key whose start group is not empty, at the group's
/// median start, in key order.
pub open spec fn rects_for_keys(
    keys: Seq<int>,
    faces: Seq<Face>,
    d: Direction,
    len: int,
    rmax: int,
    width: u32,
    height: u32,
    twu: u32,
    thu: u32,
) -> Seq<Face>
    decreases keys.len(),
{
    if keys.len() == 0 {
        Seq::<Face>::empty()
    } else {
        let rest = rects_for_keys(keys.drop_last(), faces, d, len, rmax, width, height, twu, thu);
        let g = group_starts(faces, d, keys.last(), len, rmax);
        if g.len() > 0 {
            rest.push(spec_clamp(width, height, 2 * g[g.len() as int / 2], d, twu, thu))
        } else {
            rest
        }
    }
}

/// Inserts a crop into a list ordered by search-axis position, after any
/// equal positions.
pub open spec fn insert_rect(sorted: Seq<Face>, x: Face, d: Direction) -> Seq<Face>
    decreases sorted.len(),
{
    if sorted.len() == 0 {
        seq![x]
    } else if axis_lo(sorted[0], d) <= axis_lo(x, d) {
        seq![sorted[0]] + insert_rect(sorted.skip(1), x, d)
    } else {
        seq![x] + sorted
    }
}

/// Orders crops by search-axis position by repeated insertion.
pub open spec fn sort_rects(s: Seq<Face>, d: Direction) -> Seq<Face>
    decreases s.len(),
{
    if s.len() == 0 {
        Seq::<Face>::empty()
    } else {
        insert_rect(sort_rects(s.drop_last(), d), s.last(), d)
    }
}

/// What `Cropper::crop_candidates` returns on a valid ratio: the full image
/// alone when no cropping is needed; the centered single face alone when
/// there is exactly one face; otherwise one crop per distinct fully-covered
/// face area, ordered by position.
pub open spec fn spec_candidates(c: Cropper, ar: AspectRatio) -> Seq<Face> {
    let tw = spec_target_w(c.width as int, c.height as int, ar.0 as int, ar.1 as int);
    let th = spec_target_h(c.width as int, c.height as int, ar.0 as int, ar.1 as int);
    let d = spec_search_axis(c.width as int, c.height as int, ar.0 as int, ar.1 as int);
    if tw == c.width as int && th == c.height as int {
        seq![Face { xmin: 0, xmax: c.width, ymin: 0, ymax: c.height }]
    } else {
        let twu = tw as u32;
        let thu = th as u32;
        if c.faces@.len() == 1 {
            seq![spec_crop_single_face(c.width, c.height, c.faces@[0], d, twu, thu)]
        } else {
            let len = if d is X {
                tw
            } else {
                th
            };
            let dim = if d is X {
                c.width as int
            } else {
                c.height as int
            };
            let rmax = dim - len;
            sort_rects(
                rects_for_keys(
                    area_keys(c.faces@),
                    c.faces@,
                    d,
                    len,
                    rmax,
                    c.width,
                    c.height,
                    twu,
                    thu,
                ),
                d,
            )
        }
    }
}

/// Scanning one more face adjusts the full-containment count by exactly that
/// face.
pub proof fn lemma_count_full_take_step(
    faces: Seq<Face>,
    d: Direction,
    a: int,
    s: int,
    e: int,
    j: int,
)
    requires
        0 <= j < faces.len(),
    ensures
        count_full(faces.take(j + 1), d, a, s, e) == count_full(faces.take(j), d, a, s, e) + if
        spec_area(faces[j]) == a && full_at(faces[j], d, s, e) {
            1int
        } else {
            0int
        },
{
    assert(faces.take(j + 1).drop_last() =~= faces.take(j));
    assert(faces.take(j + 1).last() == faces[j]);
}

/// The full-containment count never goes below zero.
pub proof fn lemma_count_full_nonneg(faces: Seq<Face>, d: Direction, a: int, s: int, e: int)
    ensures
        count_full(faces, d, a, s, e) >= 0,
    decreases faces.len(),
{
    if faces.len() > 0 {
        lemma_count_full_nonneg(faces.drop_last(), d, a, s, e);
    }
}

/// Considering one more face key folds into the key list by one ordered
/// insertion.
pub proof fn lemma_area_keys_take_step(faces: Seq<Face>, j: int)
    requires
        0 <= j < faces.len(),
    ensures
        area_keys(faces.take(j + 1)) == insert_key(area_keys(faces.take(j)), spec_area(faces[j])),
{
    assert(faces.take(j + 1).drop_last() =~= faces.take(j));
    assert(faces.take(j + 1).last() == faces[j]);
}

/// Where a scan for the first position not below the new key stops, the
/// ordered insertion happens: a duplicate leaves the list unchanged, any
/// other key lands at the stop position.
pub proof fn lemma_insert_key_at(keys: Seq<int>, a: int, idx: int)
    requires
        0 <= idx <= keys.len(),
        forall|q: int| 0 <= q < idx ==> keys[q] < a,
        idx < keys.len() ==> keys[idx] >= a,
    ensures
        insert_key(keys, a) == (if idx < keys.len() && keys[idx] == a {
            keys
        } else {
            keys.insert(idx, a)
        }),
    decreases keys.len(),
{
    if keys.len() == 0 {
        assert(insert_key(keys, a) =~= keys.insert(0, a));
    } else if keys[0] < a {
        assert(idx >= 1);
        let tail = keys.skip(1);
        assert(forall|q: int| 0 <= q < idx - 1 ==> tail[q] == keys[q + 1] && keys[q + 1] < a);
        lemma_insert_key_at(tail, a, idx - 1);
        if idx < keys.len() && keys[idx] == a {
            assert(seq![keys[0]] + tail =~= keys);
        } else {
            assert(seq![keys[0]] + tail.insert(idx - 1, a) =~= keys.insert(idx, a));
        }
    } else if keys[0] == a {
        assert(idx == 0);
    } else {
        assert(idx == 0);
        assert(seq![a] + keys =~= keys.insert(0, a));
    }
}

/// The same, for inserting a crop by its search-axis position: it lands at
/// the first position whose crop sits strictly further along.
pub proof fn lemma_insert_rect_at(sorted: Seq<Face>, x: Face, d: Direction, idx: int)
    requires
        0 <= idx <= sorted.len(),
        forall|q: int| 0 <= q < idx ==> axis_lo(#[trigger] sorted[q], d) <= axis_lo(x, d),
        idx < sorted.len() ==> axis_lo(sorted[idx], d) > axis_lo(x, d),
    ensures
        insert_rect(sorted, x, d) == sorted.insert(idx, x),
    decreases sorted.len(),
{
    if sorted.len() == 0 {
        assert(insert_rect(sorted, x, d) =~= sorted.insert(0, x));
    } else if axis_lo(sorted[0], d) <= axis_lo(x, d) {
        assert(idx >= 1);
        let tail = sorted.skip(1);
        assert(forall|q: int|
            0 <= q < idx - 1 ==> axis_lo(#[trigger] tail[q], d) == axis_lo(sorted[q + 1], d)
                && axis_lo(sorted[q + 1], d) <= axis_lo(x, d));
        lemma_insert_rect_at(tail, x, d, idx - 1);
        assert(seq![sorted[0]] + tail.insert(idx - 1, x) =~= sorted.insert(idx, x));
    } else {
        assert(idx == 0);
        assert(seq![x] + sorted =~= sorted.insert(0, x));
    }
}

/// Growing the key prefix by one key appends that key's crop when its group
/// is not empty.
pub proof fn lemma_rects_take_step(
    keys: Seq<int>,
    faces: Seq<Face>,
    d: Direction,
    len: int,
    rmax: int,
    width: u32,
    height: u32,
    twu: u32,
    thu: u32,
    j: int,
)
    requires
        0 <= j < keys.len(),
    ensures
        rects_for_keys(keys.take(j + 1), faces, d, len, rmax, width, height, twu, thu) == ({
            let rest = rects_for_keys(keys.take(j), faces, d, len, rmax, width, height, twu, thu);
            let g = group_starts(faces, d, keys[j], len, rmax);
            if g.len() > 0 {
                rest.push(spec_clamp(width, height, 2 * g[g.len() as int / 2], d, twu, thu))
            } else {
                rest
            }
        }),
{
    assert(keys.take(j + 1).drop_last() =~= keys.take(j));
    assert(keys.take(j + 1).last() == keys[j]);
}

/// Growing the unordered crop list by one crop folds it into the ordered
/// list by one insertion.
pub proof fn lemma_sort_take_step(s: Seq<Face>, d: Direction, j: int)
    requires
        0 <= j < s.len(),
    ensures
        sort_rects(s.take(j + 1), d) == insert_rect(sort_rects(s.take(j), d), s[j], d),
{
    assert(s.take(j + 1).drop_last() =~= s.take(j));
    assert(s.take(j + 1).last() == s[j]);
}

/// A crop's coordinate along the search axis.
fn axis_lo_of(f: Face, d: Direction) -> (r: u32)
    ensures
        r as int == axis_lo(f, d),
{
    match d {
        Direction::X => f.xmin,
        Direction::Y => f.ymin,
    }
}

impl Cropper {
    /// Computes the alternative crop windows of the given ratio: one per
    /// distinct face area wholly covered by some window position, each at
    /// the median start of its area group, ordered by position along the
    /// search axis. A ratio with a zero side is rejected.
    pub fn crop_candidates(&self, aspect_ratio: AspectRatio) -> (r: Result<Vec<Face>, CropError>)
        requires
            self.wf(),
        ensures
            aspect_ratio.valid() ==> (r matches Ok(v) && v@ == spec_candidates(
                *self,
                aspect_ratio,
            )),
            !aspect_ratio.valid() ==> r == Err::<Vec<Face>, CropError>(
                CropError::InvalidAspectRatio,
            ),
            r matches Ok(v) ==> forall|i: int|
                0 <= i < v@.len() ==> face_in_bounds(#[trigger] v@[i], self.width, self.height),
    {
        if aspect_ratio.0 == 0 || aspect_ratio.1 == 0 {
            return Err(CropError::InvalidAspectRatio);
        }
        let (tw, th, d) = self.crop_rect(aspect_ratio);
        if tw == self.width && th == self.height {
            let mut v: Vec<Face> = Vec::new();
            v.push(Face { xmin: 0, xmax: self.width, ymin: 0, ymax: self.height });
            proof {
                assert(v@ =~= spec_candidates(*self, aspect_ratio));
            }
            return Ok(v);
        }
        if self.faces.len() == 1 {
            let f = self.crop_single_face(d, tw, th);
            let mut v: Vec<Face> = Vec::new();
            v.push(f);
            proof {
                lemma_crop_in_bounds(*self, aspect_ratio);
                assert(f == spec_crop(*self, aspect_ratio));
                assert(v@ =~= spec_candidates(*self, aspect_ratio));
            }
            return Ok(v);
        }
        let dim: u32 = match d {
            Direction::X => self.width,
            Direction::Y => self.height,
        };
        let len: u32 = match d {
            Direction::X => tw,
            Direction::Y => th,
        };
        let rmax: u32 = dim - len;
        let ghost faces = self.faces@;
        let ghost leni = len as int;
        let n = self.faces.len();
        // Distinct face areas, ascending.
        let mut keys: Vec<u64> = Vec::new();
        let mut i: usize = 0;
        proof {
            assert(faces.take(0) =~= Seq::<Face>::empty());
        }
        while i < n
            invariant
                self.wf(),
                faces == self.faces@,
                n == faces.len(),
                0 <= i <= n,
                keys@.len() == area_keys(faces.take(i as int)).len(),
                forall|q: int|
                    0 <= q < keys@.len() ==> #[trigger] keys@[q] as int == area_keys(
                        faces.take(i as int),
                    )[q],
            decreases n - i,
        {
            let f = self.faces[i];
            proof {
                assert(face_in_bounds(faces[i as int], self.width, self.height));
            }
            let a = f.area();
            let mut idx: usize = 0;
            while idx < keys.len() && keys[idx] < a
                invariant
                    0 <= idx <= keys@.len(),
                    forall|q: int| 0 <= q < idx ==> #[trigger] keys@[q] < a,
                decreases keys@.len() - idx,
            {
                idx = idx + 1;
            }
            let ghost ks = area_keys(faces.take(i as int));
            proof {
                lemma_area_keys_take_step(faces, i as int);
                assert forall|q: int| 0 <= q < idx implies ks[q] < a as int by {
                    assert(keys@[q] as int == ks[q]);
                    assert(keys@[q] < a);
                }
                if idx < keys@.len() {
                    assert(keys@[idx as int] as int == ks[idx as int]);
                }
                lemma_insert_key_at(ks, a as int, idx as int);
            }
            if idx < keys.len() && keys[idx] == a {
                // duplicate area: the key list already holds it
            } else {
                keys.insert(idx, a);
            }
            proof {
                assert forall|q: int| 0 <= q < keys@.len() implies #[trigger] keys@[q] as int
                    == area_keys(faces.take(i as int + 1))[q] by {
                    assert(area_keys(faces.take(i as int + 1)) == insert_key(ks, a as int));
                }
            }
            i = i + 1;
        }
        proof {
            assert(faces.take(n as int) =~= faces);
        }
        let ghost keyseq = area_keys(faces);
        // One crop per key with a non-empty start group, in key order.
        let mut out: Vec<Face> = Vec::new();
        let mut k: usize = 0;
        proof {
            assert(keyseq.take(0) =~= Seq::<int>::empty());
        }
        while k < keys.len()
            invariant
                self.wf(),
                faces == self.faces@,
                n == faces.len(),
                leni == len as int,
                len <= dim,
                rmax == dim - len,
                dim == (if d is X {
                    self.width
                } else {
                    self.height
                }),
                tw <= self.width,
                th <= self.height,
                keys@.len() == keyseq.len(),
                forall|q: int| 0 <= q < keys@.len() ==> #[trigger] keys@[q] as int == keyseq[q],
                0 <= k <= keys@.len(),
                out@ == rects_for_keys(
                    keyseq.take(k as int),
                    faces,
                    d,
                    leni,
                    rmax as int,
                    self.width,
                    self.height,
                    tw,
                    th,
                ),
                forall|q: int|
                    0 <= q < out@.len() ==> face_in_bounds(
                        #[trigger] out@[q],
                        self.width,
                        self.height,
                    ),
            decreases keys@.len() - k,
        {
            let a = keys[k];
            let mut group: Vec<u32> = Vec::new();
            let mut s: u32 = 0;
            while s < rmax
                invariant
                    self.wf(),
                    faces == self.faces@,
                    n == faces.len(),
                    leni == len as int,
                    len <= dim,
                    rmax == dim - len,
                    0 <= s <= rmax,
                    group@.len() == group_starts(faces, d, a as int, leni, s as int).len(),
                    forall|q: int|
                        0 <= q < group@.len() ==> #[trigger] group@[q] as int == group_starts(
                            faces,
                            d,
                            a as int,
                            leni,
                            s as int,
                        )[q],
                decreases rmax - s,
            {
                let ghost g0 = group@;
                let e: u64 = s as u64 + len as u64;
                let mut j: usize = 0;
                proof {
                    assert(faces.take(0) =~= Seq::<Face>::empty());
                }
                while j < n
                    invariant
                        self.wf(),
                        faces == self.faces@,
                        n == faces.len(),
                        e == s as u64 + len as u64,
                        0 <= j <= n,
                        group@.len() == g0.len() + count_full(
                            faces.take(j as int),
                            d,
                            a as int,
                            s as int,
                            e as int,
                        ),
                        forall|q: int| 0 <= q < g0.len() ==> #[trigger] group@[q] == g0[q],
                        forall|q: int|
                            g0.len() <= q < group@.len() ==> #[trigger] group@[q] == s,
                    decreases n - j,
                {
                    let f = self.faces[j];
                    proof {
                        assert(face_in_bounds(faces[j as int], self.width, self.height));
                        lemma_count_full_nonneg(
                            faces.take(j as int),
                            d,
                            a as int,
                            s as int,
                            e as int,
                        );
                        lemma_count_full_take_step(faces, d, a as int, s as int, e as int, j as int);
                    }
                    let (lo, hi) = match d {
                        Direction::X => (f.xmin as u64, f.xmax as u64),
                        Direction::Y => (f.ymin as u64, f.ymax as u64),
                    };
                    if f.area() == a && lo >= s as u64 && hi <= e {
                        group.push(s);
                    }
                    j = j + 1;
                }
                proof {
                    assert(faces.take(n as int) =~= faces);
                    lemma_count_full_nonneg(faces, d, a as int, s as int, e as int);
                    let gs1 = group_starts(faces, d, a as int, leni, s as int + 1);
                    assert(gs1 == group_starts(faces, d, a as int, leni, s as int) + Seq::new(
                        count_full(faces, d, a as int, s as int, s as int + leni) as nat,
                        |q: int| s as int,
                    ));
                    assert forall|q: int| 0 <= q < group@.len() implies #[trigger] group@[q] as int
                        == gs1[q] by {
                        if q < g0.len() {
                        } else {
                            assert(group@[q] == s);
                        }
                    }
                }
                s = s + 1;
            }
            proof {
                lemma_rects_take_step(
                    keyseq,
                    faces,
                    d,
                    leni,
                    rmax as int,
                    self.width,
                    self.height,
                    tw,
                    th,
                    k as int,
                );
            }
            if group.len() > 0 {
                let pick = group[group.len() / 2];
                let c = self.clamp(2 * (pick as i64), d, tw, th);
                proof {
                    lemma_clamp_in_bounds(
                        self.width,
                        self.height,
                        2 * (pick as int),
                        d,
                        tw,
                        th,
                    );
                    let g = group_starts(faces, d, keyseq[k as int], leni, rmax as int);
                    assert(group@[group@.len() as int / 2] as int == g[g.len() as int / 2]);
                    assert(out@.push(c) =~= rects_for_keys(
                        keyseq.take(k as int + 1),
                        faces,
                        d,
                        leni,
                        rmax as int,
                        self.width,
                        self.height,
                        tw,
                        th,
                    ));
                }
                out.push(c);
            }
            k = k + 1;
        }
        proof {
            assert(keyseq.take(keyseq.len() as int) =~= keyseq);
        }
        // Order the crops by their position along the search axis.
        let ghost unsorted = out@;
        let mut res: Vec<Face> = Vec::new();
        let mut t: usize = 0;
        proof {
            assert(unsorted.take(0) =~= Seq::<Face>::empty());
        }
        while t < out.len()
            invariant
                self.wf(),
                out@ == unsorted,
                0 <= t <= unsorted.len(),
                res@ == sort_rects(unsorted.take(t as int), d),
                forall|q: int|
                    0 <= q < unsorted.len() ==> face_in_bounds(
                        #[trigger] unsorted[q],
                        self.width,
                        self.height,
                    ),
                forall|q: int|
                    0 <= q < res@.len() ==> face_in_bounds(
                        #[trigger] res@[q],
                        self.width,
                        self.height,
                    ),
            decreases unsorted.len() - t,
        {
            let x = out[t];
            let xlo = axis_lo_of(x, d);
            let mut idx: usize = 0;
            while idx < res.len() && axis_lo_of(res[idx], d) <= xlo
                invariant
                    xlo as int == axis_lo(x, d),
                    0 <= idx <= res@.len(),
                    forall|q: int|
                        0 <= q < idx ==> axis_lo(#[trigger] res@[q], d) <= axis_lo(x, d),
                decreases res@.len() - idx,
            {
                idx = idx + 1;
            }
            proof {
                lemma_sort_take_step(unsorted, d, t as int);
                lemma_insert_rect_at(res@, x, d, idx as int);
            }
            res.insert(idx, x);
            t = t + 1;
        }
        proof {
            assert(unsorted.take(unsorted.len() as int) =~= unsorted);
        }
        Ok(res)
    }
}

} // verus!
