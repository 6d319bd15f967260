//! Crate-level laws: properties that relate the selection functions, stated
//! over the same spec functions their contracts use.

use vstd::prelude::*;
use vstd::arithmetic::div_mod::lemma_fundamental_div_mod;
use vstd::arithmetic::mul::lemma_mul_is_commutative;
use crate::geometry::{AspectRatio, Direction, Face};
use crate::sizing::{spec_cand_h, spec_cand_w, spec_target_h, spec_target_w, spec_search_axis};
use crate::cropper::Cropper;
use crate::scan::{axis_lo, spec_crop};
use crate::candidates::{
    area_keys, insert_key, insert_rect, sort_rects, spec_candidates,
};

verus! {

/// Sizing preserves the requested ratio exactly whenever the ratio-exact
/// branch is taken and the division is exact; the larger-area branch may
/// deviate (source 10 x 10 at ratio 3:1 keeps the full 10 x 3 box).
pub proof fn lemma_sizing_exact_ratio(w: int, h: int, tw: int, th: int)
    requires
        w > 0,
        h > 0,
        tw > 0,
        th > 0,
        spec_cand_w(w, h, tw, th) * th <= spec_cand_h(w, h, tw, th) * tw,
        (spec_cand_h(w, h, tw, th) * tw) % th == 0,
    ensures
        spec_target_w(w, h, tw, th) * th == spec_target_h(w, h, tw, th) * tw,
{
    let ch = spec_cand_h(w, h, tw, th);
    lemma_fundamental_div_mod(ch * tw, th);
    lemma_mul_is_commutative(ch * tw / th, th);
}

/// Selection is repeatable: it borrows the cropper immutably, and its result
/// depends only on the face list, the source dimensions and the requested
/// ratio — not on the stored default ratio. Two calls with the same inputs
/// return the same crop, and the same candidate list.
pub proof fn lemma_crop_repeatable(c1: Cropper, c2: Cropper, ar: AspectRatio)
    requires
        c1.faces@ == c2.faces@,
        c1.width == c2.width,
        c1.height == c2.height,
    ensures
        spec_crop(c1, ar) == spec_crop(c2, ar),
        spec_candidates(c1, ar) == spec_candidates(c2, ar),
{
}

/// When the sized crop box equals the source exactly, both selections return
/// the full image, whatever the faces are.
pub proof fn lemma_no_crop_full_image(c: Cropper, ar: AspectRatio)
    requires
        spec_target_w(c.width as int, c.height as int, ar.0 as int, ar.1 as int) == c.width as int,
        spec_target_h(c.width as int, c.height as int, ar.0 as int, ar.1 as int) == c.height as int,
    ensures
        spec_crop(c, ar) == (Face { xmin: 0, xmax: c.width, ymin: 0, ymax: c.height }),
        spec_candidates(c, ar) == seq![
            Face { xmin: 0, xmax: c.width, ymin: 0, ymax: c.height },
        ],
{
}

/// A list of crops ordered by position along the search axis.
pub open spec fn rects_sorted(s: Seq<Face>, d: Direction) -> bool {
    forall|i: int, j: int|
        0 <= i < j < s.len() ==> axis_lo(#[trigger] s[i], d) <= axis_lo(#[trigger] s[j], d)
}

/// A strictly ascending list of integers: no two entries are equal.
pub open spec fn strictly_increasing(s: Seq<int>) -> bool {
    forall|i: int, j: int| 0 <= i < j < s.len() ==> #[trigger] s[i] < #[trigger] s[j]
}

/// Ordered insertion keeps a crop list ordered, grows it by one, and adds no
/// crop but the inserted one.
pub proof fn lemma_insert_rect_sorted(sorted: Seq<Face>, x: Face, d: Direction)
    requires
        rects_sorted(sorted, d),
    ensures
        rects_sorted(insert_rect(sorted, x, d), d),
        insert_rect(sorted, x, d).len() == sorted.len() + 1,
        forall|q: int|
            0 <= q < insert_rect(sorted, x, d).len() ==> insert_rect(sorted, x, d)[q] == x
                || sorted.contains(#[trigger] insert_rect(sorted, x, d)[q]),
    decreases sorted.len(),
{
    let r = insert_rect(sorted, x, d);
    if sorted.len() == 0 {
    } else if axis_lo(sorted[0], d) <= axis_lo(x, d) {
        let tail = sorted.skip(1);
        assert(forall|q: int| 0 <= q < tail.len() ==> tail[q] == sorted[q + 1]);
        assert(rects_sorted(tail, d));
        lemma_insert_rect_sorted(tail, x, d);
        let rt = insert_rect(tail, x, d);
        assert(r == seq![sorted[0]] + rt);
        assert forall|q: int| 0 <= q < r.len() implies r[q] == x || sorted.contains(
            #[trigger] r[q],
        ) by {
            if q == 0 {
                assert(sorted.contains(sorted[0]));
            } else {
                assert(r[q] == rt[q - 1]);
                if rt[q - 1] == x {
                } else {
                    assert(tail.contains(rt[q - 1]));
                    let p = choose|p: int| 0 <= p < tail.len() && tail[p] == rt[q - 1];
                    assert(sorted[p + 1] == rt[q - 1]);
                    assert(sorted.contains(sorted[p + 1]));
                }
            }
        }
        assert forall|i: int, j: int| 0 <= i < j < r.len() implies axis_lo(#[trigger] r[i], d)
            <= axis_lo(#[trigger] r[j], d) by {
            if i == 0 {
                if rt[j - 1] == x {
                } else {
                    assert(tail.contains(rt[j - 1]));
                    let p = choose|p: int| 0 <= p < tail.len() && tail[p] == rt[j - 1];
                    assert(axis_lo(sorted[0], d) <= axis_lo(sorted[p + 1], d));
                }
            } else {
                assert(r[i] == rt[i - 1] && r[j] == rt[j - 1]);
            }
        }
    } else {
        assert(r == seq![x] + sorted);
        assert forall|q: int| 0 <= q < r.len() implies r[q] == x || sorted.contains(
            #[trigger] r[q],
        ) by {
            if q > 0 {
                assert(r[q] == sorted[q - 1]);
                assert(sorted.contains(sorted[q - 1]));
            }
        }
    }
}

/// Sorting crops by repeated insertion yields an ordered list of the same
/// length.
pub proof fn lemma_sort_rects_sorted(s: Seq<Face>, d: Direction)
    ensures
        rects_sorted(sort_rects(s, d), d),
        sort_rects(s, d).len() == s.len(),
    decreases s.len(),
{
    if s.len() > 0 {
        lemma_sort_rects_sorted(s.drop_last(), d);
        lemma_insert_rect_sorted(sort_rects(s.drop_last(), d), s.last(), d);
    }
}

/// The candidate list is ordered by position along the search axis.
pub proof fn lemma_candidates_sorted(c: Cropper, ar: AspectRatio)
    ensures
        rects_sorted(
            spec_candidates(c, ar),
            spec_search_axis(c.width as int, c.height as int, ar.0 as int, ar.1 as int),
        ),
{
    let d = spec_search_axis(c.width as int, c.height as int, ar.0 as int, ar.1 as int);
    let tw = spec_target_w(c.width as int, c.height as int, ar.0 as int, ar.1 as int);
    let th = spec_target_h(c.width as int, c.height as int, ar.0 as int, ar.1 as int);
    if tw == c.width as int && th == c.height as int {
    } else if c.faces@.len() == 1 {
    } else {
        let len = if d is X {
            tw
        } else {
            th
        };
        let dim = if d is X {
            c.width as int
        } else {
            c.height as int
        };
        let rmax = dim - len;
        let twu = tw as u32;
        let thu = th as u32;
        lemma_sort_rects_sorted(
            crate::candidates::rects_for_keys(
                area_keys(c.faces@),
                c.faces@,
                d,
                len,
                rmax,
                c.width,
                c.height,
                twu,
                thu,
            ),
            d,
        );
    }
}

/// Ordered key insertion keeps the key list strictly ascending and adds no
/// key but the inserted one.
pub proof fn lemma_insert_key_increasing(keys: Seq<int>, a: int)
    requires
        strictly_increasing(keys),
    ensures
        strictly_increasing(insert_key(keys, a)),
        forall|q: int|
            0 <= q < insert_key(keys, a).len() ==> insert_key(keys, a)[q] == a || keys.contains(
                #[trigger] insert_key(keys, a)[q],
            ),
    decreases keys.len(),
{
    let r = insert_key(keys, a);
    if keys.len() == 0 {
    } else if keys[0] < a {
        let tail = keys.skip(1);
        assert(forall|q: int| 0 <= q < tail.len() ==> tail[q] == keys[q + 1]);
        assert(strictly_increasing(tail));
        lemma_insert_key_increasing(tail, a);
        let rt = insert_key(tail, a);
        assert(r == seq![keys[0]] + rt);
        assert forall|q: int| 0 <= q < r.len() implies r[q] == a || keys.contains(
            #[trigger] r[q],
        ) by {
            if q == 0 {
                assert(keys.contains(keys[0]));
            } else {
                assert(r[q] == rt[q - 1]);
                if rt[q - 1] == a {
                } else {
                    assert(tail.contains(rt[q - 1]));
                    let p = choose|p: int| 0 <= p < tail.len() && tail[p] == rt[q - 1];
                    assert(keys.contains(keys[p + 1]));
                }
            }
        }
        assert forall|i: int, j: int| 0 <= i < j < r.len() implies #[trigger] r[i] < #[trigger] r[j] by {
            if i == 0 {
                if rt[j - 1] == a {
                } else {
                    assert(tail.contains(rt[j - 1]));
                    let p = choose|p: int| 0 <= p < tail.len() && tail[p] == rt[j - 1];
                    assert(keys[0] < keys[p + 1]);
                }
            } else {
                assert(r[i] == rt[i - 1] && r[j] == rt[j - 1]);
            }
        }
    } else if keys[0] == a {
    } else {
        assert(r == seq![a] + keys);
        assert forall|q: int| 0 <= q < r.len() implies r[q] == a || keys.contains(
            #[trigger] r[q],
        ) by {
            if q > 0 {
                assert(keys.contains(keys[q - 1]));
            }
        }
    }
}

/// The area keys the candidate selection groups by are strictly ascending:
/// no two candidate crops share an area-group key.
pub proof fn lemma_area_keys_distinct(faces: Seq<Face>)
    ensures
        strictly_increasing(area_keys(faces)),
    decreases faces.len(),
{
    if faces.len() > 0 {
        lemma_area_keys_distinct(faces.drop_last());
        lemma_insert_key_increasing(
            area_keys(faces.drop_last()),
            crate::geometry::spec_area(faces.last()),
        );
    }
}

} // verus!

