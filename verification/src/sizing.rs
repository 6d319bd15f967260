//! Crop-window sizing: the largest box of a given aspect ratio that fits
//! inside the source image, and the axis along which it must be positioned.

use vstd::prelude::*;
use vstd::arithmetic::div_mod::{
    lemma_div_is_ordered, lemma_div_multiples_vanish, lemma_fundamental_div_mod,
    lemma_div_pos_is_pos,
};
use vstd::arithmetic::mul::{lemma_mul_inequality, lemma_mul_is_commutative};
use crate::geometry::Direction;

verus! {

/// Width candidate: the source width, or the width matching the target ratio
/// at full source height, whichever is smaller (integer floor division).
pub open spec fn spec_cand_w(w: int, h: int, tw: int, th: int) -> int {
    let fit = h * tw / th;
    if w < fit {
        w
    } else {
        fit
    }
}

/// Height candidate: the source height, or the height matching the target
/// ratio at full source width, whichever is smaller.
pub open spec fn spec_cand_h(w: int, h: int, tw: int, th: int) -> int {
    let fit = w * th / tw;
    if h < fit {
        h
    } else {
        fit
    }
}

/// Chosen crop width: the width candidate when its box has the larger area,
/// else the width matching the ratio at the height candidate.
pub open spec fn spec_target_w(w: int, h: int, tw: int, th: int) -> int {
    let cw = spec_cand_w(w, h, tw, th);
    let ch = spec_cand_h(w, h, tw, th);
    if cw * th > ch * tw {
        cw
    } else {
        ch * tw / th
    }
}

/// Chosen crop height: always the height candidate.
pub open spec fn spec_target_h(w: int, h: int, tw: int, th: int) -> int {
    spec_cand_h(w, h, tw, th)
}

/// The axis the crop window slides on: Y when the full source width is kept
/// (the vertical extent was reduced), X otherwise.
pub open spec fn spec_search_axis(w: int, h: int, tw: int, th: int) -> Direction {
    if spec_target_w(w, h, tw, th) == w {
        Direction::Y
    } else {
        Direction::X
    }
}

/// The sized crop box is never larger than the source, and never negative.
pub proof fn lemma_sized_fits(w: int, h: int, tw: int, th: int)
    requires
        w > 0,
        h > 0,
        tw > 0,
        th > 0,
    ensures
        0 <= spec_target_w(w, h, tw, th) <= w,
        0 <= spec_target_h(w, h, tw, th) <= h,
{
    let cw = spec_cand_w(w, h, tw, th);
    let ch = spec_cand_h(w, h, tw, th);
    lemma_div_pos_is_pos(h * tw, th);
    lemma_div_pos_is_pos(w * th, tw);
    assert(h * tw >= 0) by (nonlinear_arith)
        requires
            h > 0,
            tw > 0,
    ;
    assert(w * th >= 0) by (nonlinear_arith)
        requires
            w > 0,
            th > 0,
    ;
    assert(0 <= ch <= h);
    assert(0 <= cw <= w);
    // In the other branch the width is ch * tw / th; show ch * tw <= w * th,
    // from which the division bound follows.
    if ch == h {
        // Here h <= w * th / tw, so h * tw <= (w * th / tw) * tw <= w * th.
        lemma_mul_inequality(h, w * th / tw, tw);
        lemma_fundamental_div_mod(w * th, tw);
        assert(tw * (w * th / tw) <= w * th);
        lemma_mul_is_commutative(w * th / tw, tw);
        assert(ch * tw <= w * th);
    } else {
        // Here ch == w * th / tw and (w * th / tw) * tw <= w * th.
        lemma_fundamental_div_mod(w * th, tw);
        lemma_mul_is_commutative(w * th / tw, tw);
        assert(ch * tw <= w * th);
    }
    lemma_div_is_ordered(ch * tw, w * th, th);
    lemma_div_multiples_vanish(w, th);
    assert(th * w == w * th) by (nonlinear_arith);
    assert(w * th / th == w);
    assert(ch * tw / th <= w);
    lemma_div_pos_is_pos(ch * tw, th);
    assert(ch * tw >= 0) by (nonlinear_arith)
        requires
            ch >= 0,
            tw > 0,
    ;
}

} // verus!
