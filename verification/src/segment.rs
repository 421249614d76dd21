//! The segment tokenizer: a version string is read as an alternating
//! sequence of digit runs and letter runs, with `.` and `_` (and any other
//! non-alphanumeric character) acting as separators that never appear in a
//! segment. A class change without a separator also ends a segment, so
//! `1.0a12` tokenizes as `1`, `0`, `a`, `12`.

use vstd::prelude::*;

use crate::chars::chars_of;
use crate::chars::{alpha_char, digit_char};
use crate::chars::{is_alpha_char, is_digit_char};

verus! {

/// One segment of a version string: a maximal run of ASCII digits or a
/// maximal run of ASCII letters.
#[derive(Debug, PartialEq, Eq)]
pub enum Segment {
    /// A maximal run of ASCII digits.
    Digits(Vec<char>),
    /// A maximal run of ASCII letters.
    Letters(Vec<char>),
}

/// The mathematical value of a [`Segment`]: the same tag over a sequence of
/// characters.
pub enum SegmentView {
    /// A maximal run of ASCII digits.
    Digits(Seq<char>),
    /// A maximal run of ASCII letters.
    Letters(Seq<char>),
}

impl View for Segment {
    type V = SegmentView;

    open spec fn view(&self) -> SegmentView {
        match self {
            Segment::Digits(t) => SegmentView::Digits(t@),
            Segment::Letters(t) => SegmentView::Letters(t@),
        }
    }
}

/// The views of a sequence of segments.
pub open spec fn seg_views(v: Seq<Segment>) -> Seq<SegmentView> {
    v.map_values(|g: Segment| g@)
}

/// The segments of `s`, in order. A character that is neither a letter nor
/// a digit separates segments and belongs to none; a letter or digit joins
/// the segment before it exactly when the character directly before it is
/// of the same class, so both a separator and a class change end a segment.
pub open spec fn seg_tokens(s: Seq<char>) -> Seq<SegmentView>
    decreases s.len(),
{
    if s.len() == 0 {
        Seq::empty()
    } else {
        let t = seg_tokens(s.drop_last());
        let c = s.last();
        if is_digit_char(c) {
            if s.len() >= 2 && is_digit_char(s[s.len() - 2]) && t.len() > 0 && (t.last()
                is Digits) {
                t.update(t.len() - 1, SegmentView::Digits(t.last()->Digits_0.push(c)))
            } else {
                t.push(SegmentView::Digits(seq![c]))
            }
        } else if is_alpha_char(c) {
            if s.len() >= 2 && is_alpha_char(s[s.len() - 2]) && t.len() > 0 && (t.last()
                is Letters) {
                t.update(t.len() - 1, SegmentView::Letters(t.last()->Letters_0.push(c)))
            } else {
                t.push(SegmentView::Letters(seq![c]))
            }
        } else {
            t
        }
    }
}

/// A well-formed segment: a non-empty run whose characters all belong to
/// the class its tag names.
pub open spec fn segment_wf(g: SegmentView) -> bool {
    match g {
        SegmentView::Digits(t) => t.len() > 0 && forall|i: int|
            0 <= i < t.len() ==> is_digit_char(t[i]),
        SegmentView::Letters(t) => t.len() > 0 && forall|i: int|
            0 <= i < t.len() ==> is_alpha_char(t[i]),
    }
}

/// Every segment the tokenizer produces is well-formed.
pub proof fn lemma_seg_tokens_wf(s: Seq<char>)
    ensures
        forall|k: int| 0 <= k < seg_tokens(s).len() ==> segment_wf(#[trigger] seg_tokens(s)[k]),
    decreases s.len(),
{
    if s.len() > 0 {
        lemma_seg_tokens_wf(s.drop_last());
        let t = seg_tokens(s.drop_last());
        let c = s.last();
        let r = seg_tokens(s);
        if is_digit_char(c) {
            if s.len() >= 2 && is_digit_char(s[s.len() - 2]) && t.len() > 0 && (t.last()
                is Digits) {
                let w = t.last()->Digits_0;
                assert(segment_wf(t[t.len() - 1]));
                assert forall|i: int| 0 <= i < w.push(c).len() implies is_digit_char(
                    w.push(c)[i],
                ) by {
                    if i < w.len() {
                        assert(w.push(c)[i] == w[i]);
                    } else {
                        assert(w.push(c)[i] == c);
                    }
                }
                assert forall|k: int| 0 <= k < r.len() implies segment_wf(r[k]) by {
                    if k < t.len() - 1 {
                        assert(r[k] == t[k]);
                    }
                }
            } else {
                assert(seq![c][0] == c);
                assert forall|k: int| 0 <= k < r.len() implies segment_wf(r[k]) by {
                    if k < t.len() {
                        assert(r[k] == t[k]);
                    } else {
                        assert(r[k] == SegmentView::Digits(seq![c]));
                    }
                }
            }
        } else if is_alpha_char(c) {
            if s.len() >= 2 && is_alpha_char(s[s.len() - 2]) && t.len() > 0 && (t.last()
                is Letters) {
                let w = t.last()->Letters_0;
                assert(segment_wf(t[t.len() - 1]));
                assert forall|i: int| 0 <= i < w.push(c).len() implies is_alpha_char(
                    w.push(c)[i],
                ) by {
                    if i < w.len() {
                        assert(w.push(c)[i] == w[i]);
                    } else {
                        assert(w.push(c)[i] == c);
                    }
                }
                assert forall|k: int| 0 <= k < r.len() implies segment_wf(r[k]) by {
                    if k < t.len() - 1 {
                        assert(r[k] == t[k]);
                    }
                }
            } else {
                assert(seq![c][0] == c);
                assert forall|k: int| 0 <= k < r.len() implies segment_wf(r[k]) by {
                    if k < t.len() {
                        assert(r[k] == t[k]);
                    } else {
                        assert(r[k] == SegmentView::Letters(seq![c]));
                    }
                }
            }
        }
    }
}

/// Tokenizes the characters of `v`.
pub fn tokenize_chars(v: &Vec<char>) -> (segs: Vec<Segment>)
    ensures
        seg_views(segs@) == seg_tokens(v@),
{
    let n = v.len();
    let mut segs: Vec<Segment> = Vec::new();
    let mut i: usize = 0;
    proof {
        assert(seg_views(segs@) =~= seg_tokens(v@.take(0)));
    }
    while i < n
        invariant
            i <= n,
            n == v@.len(),
            seg_views(segs@) == seg_tokens(v@.take(i as int)),
        decreases n - i,
    {
        let c = v[i];
        proof {
            assert(v@.take(i + 1).drop_last() =~= v@.take(i as int));
            assert(v@.take(i + 1).last() == v@[i as int]);
        }
        if digit_char(c) {
            if i > 0 && digit_char(v[i - 1]) {
                proof {
                    assert(v@.take(i as int).last() == v@[i - 1]);
                    assert(seg_tokens(v@.take(i as int)).len() > 0);
                    assert(segs@.len() == seg_views(segs@).len());
                    assert(seg_views(segs@).last() == segs@.last()@);
                }
                let last = segs.pop().unwrap();
                match last {
                    Segment::Digits(mut t) => {
                        t.push(c);
                        segs.push(Segment::Digits(t));
                        proof {
                            assert(seg_views(segs@) =~= seg_tokens(v@.take(i + 1)));
                        }
                    },
                    Segment::Letters(_) => {
                        proof {
                            assert(false);
                        }
                    },
                }
            } else {
                let mut t: Vec<char> = Vec::new();
                t.push(c);
                segs.push(Segment::Digits(t));
                proof {
                    assert(t@ =~= seq![c]);
                    assert(seg_views(segs@) =~= seg_tokens(v@.take(i + 1)));
                }
            }
        } else if alpha_char(c) {
            if i > 0 && alpha_char(v[i - 1]) {
                proof {
                    assert(v@.take(i as int).last() == v@[i - 1]);
                    assert(seg_tokens(v@.take(i as int)).len() > 0);
                    assert(segs@.len() == seg_views(segs@).len());
                    assert(seg_views(segs@).last() == segs@.last()@);
                }
                let last = segs.pop().unwrap();
                match last {
                    Segment::Letters(mut t) => {
                        t.push(c);
                        segs.push(Segment::Letters(t));
                        proof {
                            assert(seg_views(segs@) =~= seg_tokens(v@.take(i + 1)));
                        }
                    },
                    Segment::Digits(_) => {
                        proof {
                            assert(false);
                        }
                    },
                }
            } else {
                let mut t: Vec<char> = Vec::new();
                t.push(c);
                segs.push(Segment::Letters(t));
                proof {
                    assert(t@ =~= seq![c]);
                    assert(seg_views(segs@) =~= seg_tokens(v@.take(i + 1)));
                }
            }
        } else {
            proof {
                assert(seg_tokens(v@.take(i + 1)) == seg_tokens(v@.take(i as int)));
            }
        }
        i = i + 1;
    }
    proof {
        assert(v@.take(n as int) =~= v@);
    }
    segs
}

/// Tokenizes a version substring into its ordered list of segments.
pub fn tokenize(s: &str) -> (segs: Vec<Segment>)
    ensures
        seg_views(segs@) == seg_tokens(s@),
{
    let v = chars_of(s);
    tokenize_chars(&v)
}

} // verus!
