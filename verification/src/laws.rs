//! The ordering laws of the comparators. The pkgver comparator is
//! reflexive and antisymmetric, equal strings are interchangeable, and the
//! strict order is transitive, so it yields a total order on version
//! strings; the composite comparator inherits reflexivity and
//! antisymmetry, epoch dominance, and the rule that an absent pkgrel is
//! ignored.

use vstd::prelude::*;

use crate::order::{head_segment, lex_cmp, pkgver_cmp, segment_cmp, segments_cmp};
use crate::segment::SegmentView;
use crate::version::{epoch_value_of, version_cmp, VersionModel};

verus! {

/// `m` with its pkgrel removed; comparison of such a version is decided by
/// epoch and pkgver alone.
pub open spec fn without_pkgrel(m: VersionModel) -> VersionModel {
    VersionModel { epoch: m.epoch, pkgver: m.pkgver, pkgrel: None }
}

proof fn lemma_lex_cmp_refl(a: Seq<char>)
    ensures
        lex_cmp(a, a) == 0,
    decreases a.len(),
{
    if a.len() > 0 {
        lemma_lex_cmp_refl(a.skip(1));
    }
}

proof fn lemma_lex_cmp_antisym(a: Seq<char>, b: Seq<char>)
    ensures
        lex_cmp(b, a) == -lex_cmp(a, b),
    decreases a.len() + b.len(),
{
    if a.len() > 0 && b.len() > 0 && a[0] as u32 == b[0] as u32 {
        lemma_lex_cmp_antisym(a.skip(1), b.skip(1));
    }
}

proof fn lemma_lex_cmp_zero_codes(a: Seq<char>, b: Seq<char>)
    requires
        lex_cmp(a, b) == 0,
    ensures
        a.len() == b.len(),
        forall|i: int| 0 <= i < a.len() ==> (#[trigger] a[i]) as u32 == b[i] as u32,
    decreases a.len(),
{
    if a.len() > 0 {
        lemma_lex_cmp_zero_codes(a.skip(1), b.skip(1));
        assert forall|i: int| 0 <= i < a.len() implies (#[trigger] a[i]) as u32 == b[i] as u32 by {
            if i > 0 {
                assert(a.skip(1)[i - 1] == a[i]);
                assert(b.skip(1)[i - 1] == b[i]);
            }
        }
    }
}

proof fn lemma_lex_cmp_congruent(a: Seq<char>, b: Seq<char>, c: Seq<char>)
    requires
        a.len() == b.len(),
        forall|i: int| 0 <= i < a.len() ==> (#[trigger] a[i]) as u32 == b[i] as u32,
    ensures
        lex_cmp(a, c) == lex_cmp(b, c),
    decreases a.len() + c.len(),
{
    if a.len() > 0 && c.len() > 0 {
        assert(a[0] as u32 == b[0] as u32);
        if !((a[0] as u32) < (c[0] as u32)) && !((a[0] as u32) > (c[0] as u32)) {
            assert forall|i: int|
                0 <= i < a.skip(1).len() implies (#[trigger] a.skip(1)[i]) as u32 == b.skip(
                1,
            )[i] as u32 by {
                assert(a.skip(1)[i] == a[i + 1]);
                assert(b.skip(1)[i] == b[i + 1]);
            }
            lemma_lex_cmp_congruent(a.skip(1), b.skip(1), c.skip(1));
        }
    }
}

proof fn lemma_lex_cmp_trans_lt(a: Seq<char>, b: Seq<char>, c: Seq<char>)
    requires
        lex_cmp(a, b) < 0,
        lex_cmp(b, c) < 0,
    ensures
        lex_cmp(a, c) < 0,
    decreases a.len() + b.len() + c.len(),
{
    if a.len() > 0 && b.len() > 0 && c.len() > 0 {
        if a[0] as u32 == b[0] as u32 && b[0] as u32 == c[0] as u32 {
            lemma_lex_cmp_trans_lt(a.skip(1), b.skip(1), c.skip(1));
        }
    }
}

proof fn lemma_lex_cmp_range(a: Seq<char>, b: Seq<char>)
    ensures
        lex_cmp(a, b) == -1 || lex_cmp(a, b) == 0 || lex_cmp(a, b) == 1,
    decreases a.len(),
{
    if a.len() > 0 && b.len() > 0 {
        lemma_lex_cmp_range(a.skip(1), b.skip(1));
    }
}

proof fn lemma_segment_cmp_range(x: Option<SegmentView>, y: Option<SegmentView>)
    ensures
        segment_cmp(x, y) == -1 || segment_cmp(x, y) == 0 || segment_cmp(x, y) == 1,
{
    match (x, y) {
        (Some(SegmentView::Letters(t)), Some(SegmentView::Letters(u))) => {
            lemma_lex_cmp_range(t, u);
        },
        _ => {},
    }
}

proof fn lemma_segments_cmp_range(a: Seq<SegmentView>, b: Seq<SegmentView>)
    ensures
        segments_cmp(a, b) == -1 || segments_cmp(a, b) == 0 || segments_cmp(a, b) == 1,
    decreases a.len() + b.len(),
{
    if !(a.len() == 0 && b.len() == 0) {
        lemma_segment_cmp_range(head_segment(a), head_segment(b));
        if segment_cmp(head_segment(a), head_segment(b)) == 0 {
            lemma_segments_cmp_range(a.skip(1), b.skip(1));
        }
    }
}

proof fn lemma_segment_cmp_refl(x: Option<SegmentView>)
    ensures
        segment_cmp(x, x) == 0,
{
    match x {
        Some(SegmentView::Letters(t)) => {
            lemma_lex_cmp_refl(t);
        },
        _ => {},
    }
}

proof fn lemma_segment_cmp_antisym(x: Option<SegmentView>, y: Option<SegmentView>)
    ensures
        segment_cmp(y, x) == -segment_cmp(x, y),
{
    match (x, y) {
        (Some(SegmentView::Letters(t)), Some(SegmentView::Letters(u))) => {
            lemma_lex_cmp_antisym(t, u);
        },
        _ => {},
    }
}

proof fn lemma_segment_cmp_congruent(x: Option<SegmentView>, y: Option<SegmentView>, z: Option<
    SegmentView,
>)
    requires
        segment_cmp(x, y) == 0,
    ensures
        segment_cmp(x, z) == segment_cmp(y, z),
{
    match (x, y) {
        (Some(SegmentView::Letters(t)), Some(SegmentView::Letters(u))) => {
            lemma_lex_cmp_zero_codes(t, u);
            match z {
                Some(SegmentView::Letters(w)) => {
                    lemma_lex_cmp_congruent(t, u, w);
                },
                _ => {},
            }
        },
        _ => {},
    }
}

proof fn lemma_segment_cmp_trans_lt(x: Option<SegmentView>, y: Option<SegmentView>, z: Option<
    SegmentView,
>)
    requires
        segment_cmp(x, y) < 0,
        segment_cmp(y, z) < 0,
    ensures
        segment_cmp(x, z) < 0,
{
    match (x, y) {
        (Some(SegmentView::Letters(t)), Some(SegmentView::Letters(u))) => {
            match z {
                Some(SegmentView::Letters(w)) => {
                    lemma_lex_cmp_trans_lt(t, u, w);
                },
                _ => {},
            }
        },
        _ => {},
    }
}

proof fn lemma_segments_cmp_refl(a: Seq<SegmentView>)
    ensures
        segments_cmp(a, a) == 0,
    decreases a.len(),
{
    if a.len() > 0 {
        lemma_segment_cmp_refl(head_segment(a));
        lemma_segments_cmp_refl(a.skip(1));
    }
}

proof fn lemma_segments_cmp_antisym(a: Seq<SegmentView>, b: Seq<SegmentView>)
    ensures
        segments_cmp(b, a) == -segments_cmp(a, b),
    decreases a.len() + b.len(),
{
    if !(a.len() == 0 && b.len() == 0) {
        lemma_segment_cmp_antisym(head_segment(a), head_segment(b));
        if segment_cmp(head_segment(a), head_segment(b)) == 0 {
            lemma_segments_cmp_antisym(a.skip(1), b.skip(1));
        }
    }
}

proof fn lemma_segments_cmp_congruent(a: Seq<SegmentView>, b: Seq<SegmentView>, c: Seq<SegmentView>)
    requires
        segments_cmp(a, b) == 0,
    ensures
        segments_cmp(a, c) == segments_cmp(b, c),
    decreases a.len() + b.len() + c.len(),
{
    if a.len() == 0 && b.len() == 0 {
        assert(a =~= b);
    } else {
        let ha = head_segment(a);
        let hb = head_segment(b);
        let hc = head_segment(c);
        assert(segment_cmp(ha, hb) == 0);
        assert(a.len() > 0 && b.len() > 0);
        lemma_segment_cmp_congruent(ha, hb, hc);
        if segment_cmp(ha, hc) == 0 {
            lemma_segments_cmp_congruent(a.skip(1), b.skip(1), c.skip(1));
        }
    }
}

proof fn lemma_segments_cmp_trans_lt(a: Seq<SegmentView>, b: Seq<SegmentView>, c: Seq<SegmentView>)
    requires
        segments_cmp(a, b) < 0,
        segments_cmp(b, c) < 0,
    ensures
        segments_cmp(a, c) < 0,
    decreases a.len() + b.len() + c.len(),
{
    let ha = head_segment(a);
    let hb = head_segment(b);
    let hc = head_segment(c);
    let cab = segment_cmp(ha, hb);
    let cbc = segment_cmp(hb, hc);
    if cab < 0 && cbc < 0 {
        lemma_segment_cmp_trans_lt(ha, hb, hc);
    } else if cab < 0 && cbc == 0 {
        lemma_segment_cmp_antisym(hb, hc);
        lemma_segment_cmp_congruent(hb, hc, ha);
        lemma_segment_cmp_antisym(hb, ha);
        lemma_segment_cmp_antisym(hc, ha);
    } else if cab == 0 && cbc < 0 {
        lemma_segment_cmp_congruent(ha, hb, hc);
    } else {
        assert(cab == 0 && cbc == 0);
        lemma_segment_cmp_congruent(ha, hb, hc);
        lemma_segments_cmp_trans_lt(a.skip(1), b.skip(1), c.skip(1));
    }
}

/// The pkgver comparator is total: it yields `-1`, `0` or `1`, so for any
/// two version strings exactly one of "less", "equal" and "greater"
/// holds.
pub proof fn lemma_pkgver_cmp_trichotomy(a: Seq<char>, b: Seq<char>)
    ensures
        pkgver_cmp(a, b) == -1 || pkgver_cmp(a, b) == 0 || pkgver_cmp(a, b) == 1,
{
    lemma_segments_cmp_range(crate::segment::seg_tokens(a), crate::segment::seg_tokens(b));
}

/// The pkgver comparator is reflexive: a version string always compares
/// equal to itself.
pub proof fn lemma_pkgver_cmp_reflexive(a: Seq<char>)
    ensures
        pkgver_cmp(a, a) == 0,
{
    lemma_segments_cmp_refl(crate::segment::seg_tokens(a));
}

/// The pkgver comparator is antisymmetric: comparing in one direction is
/// the inverse of comparing in the other.
pub proof fn lemma_pkgver_cmp_antisymmetric(a: Seq<char>, b: Seq<char>)
    ensures
        pkgver_cmp(b, a) == -pkgver_cmp(a, b),
{
    lemma_segments_cmp_antisym(crate::segment::seg_tokens(a), crate::segment::seg_tokens(b));
}

/// Strings that the pkgver comparator holds equal are interchangeable in
/// any further comparison.
pub proof fn lemma_pkgver_cmp_equal_congruent(a: Seq<char>, b: Seq<char>, c: Seq<char>)
    requires
        pkgver_cmp(a, b) == 0,
    ensures
        pkgver_cmp(a, c) == pkgver_cmp(b, c),
{
    lemma_segments_cmp_congruent(
        crate::segment::seg_tokens(a),
        crate::segment::seg_tokens(b),
        crate::segment::seg_tokens(c),
    );
}

/// The strict pkgver order is transitive. Together with reflexivity,
/// antisymmetry and congruence this makes the comparator a total order on
/// version strings.
pub proof fn lemma_pkgver_cmp_transitive(a: Seq<char>, b: Seq<char>, c: Seq<char>)
    requires
        pkgver_cmp(a, b) < 0,
        pkgver_cmp(b, c) < 0,
    ensures
        pkgver_cmp(a, c) < 0,
{
    lemma_segments_cmp_trans_lt(
        crate::segment::seg_tokens(a),
        crate::segment::seg_tokens(b),
        crate::segment::seg_tokens(c),
    );
}

/// A version compares equal to itself.
pub proof fn lemma_version_cmp_reflexive(a: VersionModel)
    ensures
        version_cmp(a, a) == 0,
{
    lemma_pkgver_cmp_reflexive(a.pkgver);
    match a.pkgrel {
        Some(r) => {
            lemma_pkgver_cmp_reflexive(r);
        },
        None => {},
    }
}

/// Comparing two versions in one direction is the inverse of comparing
/// them in the other.
pub proof fn lemma_version_cmp_antisymmetric(a: VersionModel, b: VersionModel)
    ensures
        version_cmp(b, a) == -version_cmp(a, b),
{
    lemma_pkgver_cmp_antisymmetric(a.pkgver, b.pkgver);
    match (a.pkgrel, b.pkgrel) {
        (Some(x), Some(y)) => {
            lemma_pkgver_cmp_antisymmetric(x, y);
        },
        _ => {},
    }
}

/// Epoch dominance: a version whose epoch has the greater value orders
/// above the other, whatever their pkgver and pkgrel texts say.
pub proof fn lemma_epoch_dominance(a: VersionModel, b: VersionModel)
    requires
        epoch_value_of(a.epoch) > epoch_value_of(b.epoch),
    ensures
        version_cmp(a, b) == 1,
{
}

/// An absent pkgrel is ignored, not penalized: when either side carries no
/// pkgrel, the comparison is what it would be with both pkgrels removed,
/// so presence of a pkgrel is never itself a tie-breaker.
pub proof fn lemma_pkgrel_ignored_when_absent(a: VersionModel, b: VersionModel)
    requires
        a.pkgrel is None || b.pkgrel is None,
    ensures
        version_cmp(a, b) == version_cmp(without_pkgrel(a), without_pkgrel(b)),
{
}

} // verus!
