//! The segment and pkgver comparators. Numeric segments compare by integer
//! value (leading zeros carry no weight), alphabetic segments compare
//! lexicographically, a numeric segment beats an alphabetic one, and a
//! sequence that ends beats a trailing alphabetic segment but loses to a
//! trailing numeric one.

use core::cmp::Ordering;

use vstd::prelude::*;

use crate::chars::is_digit_char;
use crate::segment::{seg_tokens, seg_views, segment_wf, tokenize_chars, Segment, SegmentView};

verus! {

/// The three-way comparison of two integers, as `-1`, `0` or `1`.
pub open spec fn int_cmp(a: int, b: int) -> int {
    if a < b {
        -1
    } else if a == b {
        0
    } else {
        1
    }
}

/// The [`Ordering`] that stands for a comparison outcome `c`: negative is
/// `Less`, zero is `Equal`, positive is `Greater`.
pub open spec fn ordering_of(c: int) -> Ordering {
    if c < 0 {
        Ordering::Less
    } else if c == 0 {
        Ordering::Equal
    } else {
        Ordering::Greater
    }
}

/// Ten to the power `n`.
pub open spec fn pow10(n: nat) -> nat
    decreases n,
{
    if n == 0 {
        1
    } else {
        10 * pow10((n - 1) as nat)
    }
}

/// The numeric value of one digit character.
pub open spec fn digit_val(c: char) -> nat {
    (c as u32 - 48) as nat
}

/// The integer value of a run of decimal digits, read in base ten; the
/// empty run has value zero.
pub open spec fn digits_value(s: Seq<char>) -> nat
    decreases s.len(),
{
    if s.len() == 0 {
        0
    } else {
        digit_val(s[0]) * pow10((s.len() - 1) as nat) + digits_value(s.skip(1))
    }
}

/// True when every character of `s` is an ASCII digit.
pub open spec fn all_digits(s: Seq<char>) -> bool {
    forall|i: int| 0 <= i < s.len() ==> is_digit_char(s[i])
}

pub proof fn lemma_pow10_mono(m: nat, n: nat)
    requires
        m <= n,
    ensures
        pow10(m) <= pow10(n),
    decreases n,
{
    if m < n {
        lemma_pow10_mono(m, (n - 1) as nat);
    }
}

/// A run of `n` digits has a value below ten to the `n`.
pub proof fn lemma_digits_value_bound(s: Seq<char>)
    requires
        all_digits(s),
    ensures
        digits_value(s) < pow10(s.len()),
    decreases s.len(),
{
    if s.len() > 0 {
        assert forall|i: int| 0 <= i < s.skip(1).len() implies is_digit_char(s.skip(1)[i]) by {
            assert(s.skip(1)[i] == s[i + 1]);
        }
        lemma_digits_value_bound(s.skip(1));
        let p = pow10((s.len() - 1) as nat);
        let d0 = digit_val(s[0]);
        assert(d0 <= 9);
        assert(d0 * p + p <= 10 * p) by (nonlinear_arith)
            requires
                d0 <= 9,
                p >= 0,
        ;
    }
}

/// A leading zero does not change the value of a digit run.
pub proof fn lemma_digits_value_skip_zeros(s: Seq<char>, k: int)
    requires
        0 <= k <= s.len(),
        forall|i: int| 0 <= i < k ==> (#[trigger] s[i]) as u32 == 48,
    ensures
        digits_value(s.skip(k)) == digits_value(s),
    decreases k,
{
    if k > 0 {
        assert(s[0] as u32 == 48);
        assert(digit_val(s[0]) == 0);
        assert(digits_value(s) == digits_value(s.skip(1)));
        assert forall|i: int| 0 <= i < k - 1 implies (#[trigger] s.skip(1)[i]) as u32 == 48 by {
            assert(s.skip(1)[i] == s[i + 1]);
        }
        lemma_digits_value_skip_zeros(s.skip(1), k - 1);
        assert(s.skip(1).skip(k - 1) =~= s.skip(k));
    } else {
        assert(s.skip(0) =~= s);
    }
}

/// Two digit runs whose characters agree code point by code point have the
/// same value.
pub proof fn lemma_digits_value_same_codes(a: Seq<char>, b: Seq<char>)
    requires
        a.len() == b.len(),
        forall|i: int| 0 <= i < a.len() ==> (#[trigger] a[i]) as u32 == b[i] as u32,
    ensures
        digits_value(a) == digits_value(b),
    decreases a.len(),
{
    if a.len() > 0 {
        assert(digit_val(a[0]) == digit_val(b[0]));
        assert forall|i: int|
            0 <= i < a.skip(1).len() implies (#[trigger] a.skip(1)[i]) as u32 == b.skip(
            1,
        )[i] as u32 by {
            assert(a.skip(1)[i] == a[i + 1]);
            assert(b.skip(1)[i] == b[i + 1]);
        }
        lemma_digits_value_same_codes(a.skip(1), b.skip(1));
    }
}

/// Two equally long digit runs compare by their first differing digit.
pub proof fn lemma_digits_value_lt(a: Seq<char>, b: Seq<char>, k: int)
    requires
        a.len() == b.len(),
        all_digits(a),
        all_digits(b),
        0 <= k < a.len(),
        forall|i: int| 0 <= i < k ==> (#[trigger] a[i]) as u32 == b[i] as u32,
        (a[k] as u32) < (b[k] as u32),
    ensures
        digits_value(a) < digits_value(b),
    decreases k,
{
    assert forall|i: int| 0 <= i < a.skip(1).len() implies is_digit_char(a.skip(1)[i]) by {
        assert(a.skip(1)[i] == a[i + 1]);
    }
    assert forall|i: int| 0 <= i < b.skip(1).len() implies is_digit_char(b.skip(1)[i]) by {
        assert(b.skip(1)[i] == b[i + 1]);
    }
    let p = pow10((a.len() - 1) as nat);
    if k == 0 {
        lemma_digits_value_bound(a.skip(1));
        let da = digit_val(a[0]);
        let db = digit_val(b[0]);
        let ra = digits_value(a.skip(1));
        let rb = digits_value(b.skip(1));
        assert(da < db);
        assert(da * p + ra < db * p + rb) by (nonlinear_arith)
            requires
                da < db,
                ra < p,
        ;
    } else {
        assert forall|i: int|
            0 <= i < k - 1 implies (#[trigger] a.skip(1)[i]) as u32 == b.skip(1)[i] as u32 by {
            assert(a.skip(1)[i] == a[i + 1]);
            assert(b.skip(1)[i] == b[i + 1]);
        }
        assert(a.skip(1)[k - 1] == a[k]);
        assert(b.skip(1)[k - 1] == b[k]);
        lemma_digits_value_lt(a.skip(1), b.skip(1), k - 1);
        assert(a[0] as u32 == b[0] as u32);
        assert(digit_val(a[0]) == digit_val(b[0]));
    }
}

/// After leading zeros are gone, a longer digit run has the greater value.
pub proof fn lemma_digits_value_longer(a: Seq<char>, b: Seq<char>)
    requires
        all_digits(a),
        all_digits(b),
        a.len() < b.len(),
        b.len() > 0,
        b[0] as u32 != 48,
    ensures
        digits_value(a) < digits_value(b),
{
    lemma_digits_value_bound(a);
    let p = pow10((b.len() - 1) as nat);
    lemma_pow10_mono(a.len(), (b.len() - 1) as nat);
    assert(is_digit_char(b[0]));
    assert(digit_val(b[0]) >= 1);
    assert(digit_val(b[0]) * p >= p) by (nonlinear_arith)
        requires
            digit_val(b[0]) >= 1,
            p >= 0,
    ;
}

/// The lexicographic comparison of two character sequences, by code point,
/// where a proper prefix comes first.
pub open spec fn lex_cmp(a: Seq<char>, b: Seq<char>) -> int
    decreases a.len(),
{
    if a.len() == 0 && b.len() == 0 {
        0
    } else if a.len() == 0 {
        -1
    } else if b.len() == 0 {
        1
    } else if (a[0] as u32) < (b[0] as u32) {
        -1
    } else if (a[0] as u32) > (b[0] as u32) {
        1
    } else {
        lex_cmp(a.skip(1), b.skip(1))
    }
}

/// Dropping a common prefix does not change a lexicographic comparison.
pub proof fn lemma_lex_cmp_common_prefix(a: Seq<char>, b: Seq<char>, k: int)
    requires
        0 <= k <= a.len(),
        k <= b.len(),
        forall|i: int| 0 <= i < k ==> (#[trigger] a[i]) as u32 == b[i] as u32,
    ensures
        lex_cmp(a, b) == lex_cmp(a.skip(k), b.skip(k)),
    decreases k,
{
    if k > 0 {
        assert(a[0] as u32 == b[0] as u32);
        assert forall|i: int|
            0 <= i < k - 1 implies (#[trigger] a.skip(1)[i]) as u32 == b.skip(1)[i] as u32 by {
            assert(a.skip(1)[i] == a[i + 1]);
            assert(b.skip(1)[i] == b[i + 1]);
        }
        lemma_lex_cmp_common_prefix(a.skip(1), b.skip(1), k - 1);
        assert(a.skip(1).skip(k - 1) =~= a.skip(k));
        assert(b.skip(1).skip(k - 1) =~= b.skip(k));
    } else {
        assert(a.skip(0) =~= a);
        assert(b.skip(0) =~= b);
    }
}

/// The comparison of two segments at the same position, either of which
/// may be absent because its sequence ended first.
pub open spec fn segment_cmp(a: Option<SegmentView>, b: Option<SegmentView>) -> int {
    match (a, b) {
        (None, None) => 0,
        (None, Some(SegmentView::Digits(_))) => -1,
        (None, Some(SegmentView::Letters(_))) => 1,
        (Some(SegmentView::Digits(_)), None) => 1,
        (Some(SegmentView::Letters(_)), None) => -1,
        (Some(SegmentView::Digits(x)), Some(SegmentView::Digits(y))) => int_cmp(
            digits_value(x) as int,
            digits_value(y) as int,
        ),
        (Some(SegmentView::Digits(_)), Some(SegmentView::Letters(_))) => 1,
        (Some(SegmentView::Letters(_)), Some(SegmentView::Digits(_))) => -1,
        (Some(SegmentView::Letters(x)), Some(SegmentView::Letters(y))) => lex_cmp(x, y),
    }
}

/// The first segment of `s`, or `None` when `s` is empty.
pub open spec fn head_segment(s: Seq<SegmentView>) -> Option<SegmentView> {
    if s.len() == 0 {
        None
    } else {
        Some(s[0])
    }
}

/// The comparison of two segment sequences: the first position whose
/// segment comparison is not equal decides; two sequences that end
/// together are equal.
pub open spec fn segments_cmp(a: Seq<SegmentView>, b: Seq<SegmentView>) -> int
    decreases a.len() + b.len(),
{
    if a.len() == 0 && b.len() == 0 {
        0
    } else {
        let c = segment_cmp(head_segment(a), head_segment(b));
        if c != 0 {
            c
        } else {
            segments_cmp(a.skip(1), b.skip(1))
        }
    }
}

/// The comparison of two pkgver strings: tokenize both, then compare
/// segment by segment.
pub open spec fn pkgver_cmp(a: Seq<char>, b: Seq<char>) -> int {
    segments_cmp(seg_tokens(a), seg_tokens(b))
}

/// Compares two runs of decimal digits by their integer value.
pub fn compare_digits(a: &Vec<char>, b: &Vec<char>) -> (o: Ordering)
    requires
        all_digits(a@),
        all_digits(b@),
    ensures
        o == ordering_of(int_cmp(digits_value(a@) as int, digits_value(b@) as int)),
{
    let mut ka: usize = 0;
    while ka < a.len() && (a[ka] as u32) == 48
        invariant
            ka <= a@.len(),
            forall|i: int| 0 <= i < ka ==> (#[trigger] a@[i]) as u32 == 48,
        decreases a@.len() - ka,
    {
        ka = ka + 1;
    }
    let mut kb: usize = 0;
    while kb < b.len() && (b[kb] as u32) == 48
        invariant
            kb <= b@.len(),
            forall|i: int| 0 <= i < kb ==> (#[trigger] b@[i]) as u32 == 48,
        decreases b@.len() - kb,
    {
        kb = kb + 1;
    }
    proof {
        lemma_digits_value_skip_zeros(a@, ka as int);
        lemma_digits_value_skip_zeros(b@, kb as int);
        assert forall|i: int| 0 <= i < a@.skip(ka as int).len() implies is_digit_char(
            a@.skip(ka as int)[i],
        ) by {
            assert(a@.skip(ka as int)[i] == a@[i + ka]);
        }
        assert forall|i: int| 0 <= i < b@.skip(kb as int).len() implies is_digit_char(
            b@.skip(kb as int)[i],
        ) by {
            assert(b@.skip(kb as int)[i] == b@[i + kb]);
        }
    }
    let la = a.len() - ka;
    let lb = b.len() - kb;
    if la < lb {
        proof {
            assert(b@.skip(kb as int)[0] == b@[kb as int]);
            lemma_digits_value_longer(a@.skip(ka as int), b@.skip(kb as int));
        }
        return Ordering::Less;
    }
    if lb < la {
        proof {
            assert(a@.skip(ka as int)[0] == a@[ka as int]);
            lemma_digits_value_longer(b@.skip(kb as int), a@.skip(ka as int));
        }
        return Ordering::Greater;
    }
    let mut ia: usize = ka;
    let mut ib: usize = kb;
    while ia < a.len() && ib < b.len()
        invariant
            ka <= ia <= a@.len(),
            kb <= ib <= b@.len(),
            ia - ka == ib - kb,
            a@.len() - ia == b@.len() - ib,
            forall|i: int|
                0 <= i < ia - ka ==> (#[trigger] a@.skip(ka as int)[i]) as u32 == b@.skip(
                    kb as int,
                )[i] as u32,
            all_digits(a@),
            all_digits(b@),
            digits_value(a@.skip(ka as int)) == digits_value(a@),
            digits_value(b@.skip(kb as int)) == digits_value(b@),
        decreases a@.len() - ia,
    {
        let ghost j: int = ia - ka;
        proof {
            assert forall|i: int|
                0 <= i < a@.skip(ka as int).len() implies is_digit_char(a@.skip(ka as int)[i]) by {
                assert(a@.skip(ka as int)[i] == a@[i + ka]);
            }
            assert forall|i: int|
                0 <= i < b@.skip(kb as int).len() implies is_digit_char(b@.skip(kb as int)[i]) by {
                assert(b@.skip(kb as int)[i] == b@[i + kb]);
            }
            assert(a@.skip(ka as int)[j] == a@[ia as int]);
            assert(b@.skip(kb as int)[j] == b@[ib as int]);
        }
        let xa = a[ia];
        let xb = b[ib];
        if (xa as u32) < (xb as u32) {
            proof {
                lemma_digits_value_lt(a@.skip(ka as int), b@.skip(kb as int), j);
            }
            return Ordering::Less;
        }
        if (xb as u32) < (xa as u32) {
            proof {
                lemma_digits_value_lt(b@.skip(kb as int), a@.skip(ka as int), j);
            }
            return Ordering::Greater;
        }
        proof {
            assert(a@.skip(ka as int)[j] as u32 == b@.skip(kb as int)[j] as u32);
        }
        ia = ia + 1;
        ib = ib + 1;
    }
    proof {
        assert(a@.skip(ka as int).len() == b@.skip(kb as int).len());
        lemma_digits_value_same_codes(a@.skip(ka as int), b@.skip(kb as int));
    }
    Ordering::Equal
}

/// Compares two character runs lexicographically by code point.
pub fn compare_letters(a: &Vec<char>, b: &Vec<char>) -> (o: Ordering)
    ensures
        o == ordering_of(lex_cmp(a@, b@)),
{
    let mut j: usize = 0;
    while j < a.len() && j < b.len()
        invariant
            j <= a@.len(),
            j <= b@.len(),
            forall|i: int| 0 <= i < j ==> (#[trigger] a@[i]) as u32 == b@[i] as u32,
        decreases a@.len() - j,
    {
        proof {
            lemma_lex_cmp_common_prefix(a@, b@, j as int);
            assert(a@.skip(j as int)[0] == a@[j as int]);
            assert(b@.skip(j as int)[0] == b@[j as int]);
        }
        let xa = a[j];
        let xb = b[j];
        if (xa as u32) < (xb as u32) {
            return Ordering::Less;
        }
        if (xb as u32) < (xa as u32) {
            return Ordering::Greater;
        }
        j = j + 1;
    }
    proof {
        lemma_lex_cmp_common_prefix(a@, b@, j as int);
    }
    if a.len() < b.len() {
        Ordering::Less
    } else if b.len() < a.len() {
        Ordering::Greater
    } else {
        proof {
            assert(a@.skip(j as int).len() == 0);
            assert(b@.skip(j as int).len() == 0);
        }
        Ordering::Equal
    }
}

/// Compares two present segments as the segment comparator orders them.
pub fn compare_segment(x: &Segment, y: &Segment) -> (o: Ordering)
    requires
        segment_wf(x@),
        segment_wf(y@),
    ensures
        o == ordering_of(segment_cmp(Some(x@), Some(y@))),
{
    match (x, y) {
        (Segment::Digits(t), Segment::Digits(u)) => compare_digits(t, u),
        (Segment::Digits(_), Segment::Letters(_)) => Ordering::Greater,
        (Segment::Letters(_), Segment::Digits(_)) => Ordering::Less,
        (Segment::Letters(t), Segment::Letters(u)) => compare_letters(t, u),
    }
}

/// Walks two tokenized sequences pairwise and returns the first non-equal
/// segment comparison.
pub fn compare_segment_lists(a: &Vec<Segment>, b: &Vec<Segment>) -> (o: Ordering)
    requires
        forall|k: int| 0 <= k < a@.len() ==> segment_wf(#[trigger] a@[k]@),
        forall|k: int| 0 <= k < b@.len() ==> segment_wf(#[trigger] b@[k]@),
    ensures
        o == ordering_of(segments_cmp(seg_views(a@), seg_views(b@))),
{
    let ga = Ghost(seg_views(a@));
    let gb = Ghost(seg_views(b@));
    let mut i: usize = 0;
    proof {
        assert(ga@.skip(0) =~= ga@);
        assert(gb@.skip(0) =~= gb@);
    }
    while i < a.len() || i < b.len()
        invariant
            i <= a@.len(),
            i <= b@.len(),
            ga@ == seg_views(a@),
            gb@ == seg_views(b@),
            forall|k: int| 0 <= k < a@.len() ==> segment_wf(#[trigger] a@[k]@),
            forall|k: int| 0 <= k < b@.len() ==> segment_wf(#[trigger] b@[k]@),
            segments_cmp(ga@, gb@) == segments_cmp(ga@.skip(i as int), gb@.skip(i as int)),
        decreases a@.len() + b@.len() - i,
    {
        proof {
            if i < a@.len() {
                assert(ga@.skip(i as int)[0] == ga@[i as int]);
            }
            if i < b@.len() {
                assert(gb@.skip(i as int)[0] == gb@[i as int]);
            }
        }
        if i >= a.len() {
            match &b[i] {
                Segment::Digits(_) => {
                    return Ordering::Less;
                },
                Segment::Letters(_) => {
                    return Ordering::Greater;
                },
            }
        }
        if i >= b.len() {
            match &a[i] {
                Segment::Digits(_) => {
                    return Ordering::Greater;
                },
                Segment::Letters(_) => {
                    return Ordering::Less;
                },
            }
        }
        proof {
            assert(segment_wf(a@[i as int]@));
            assert(segment_wf(b@[i as int]@));
        }
        let o = compare_segment(&a[i], &b[i]);
        match o {
            Ordering::Equal => {},
            _ => {
                return o;
            },
        }
        proof {
            assert(ga@.skip(i as int).skip(1) =~= ga@.skip(i + 1));
            assert(gb@.skip(i as int).skip(1) =~= gb@.skip(i + 1));
        }
        i = i + 1;
    }
    proof {
        assert(ga@.skip(i as int).len() == 0);
        assert(gb@.skip(i as int).len() == 0);
    }
    Ordering::Equal
}

/// Compares two pkgver strings, given as their character vectors.
pub fn compare_pkgver_chars(a: &Vec<char>, b: &Vec<char>) -> (o: Ordering)
    ensures
        o == ordering_of(pkgver_cmp(a@, b@)),
{
    let ta = tokenize_chars(a);
    let tb = tokenize_chars(b);
    proof {
        crate::segment::lemma_seg_tokens_wf(a@);
        crate::segment::lemma_seg_tokens_wf(b@);
        assert forall|k: int| 0 <= k < ta@.len() implies segment_wf(#[trigger] ta@[k]@) by {
            assert(seg_views(ta@)[k] == ta@[k]@);
        }
        assert forall|k: int| 0 <= k < tb@.len() implies segment_wf(#[trigger] tb@[k]@) by {
            assert(seg_views(tb@)[k] == tb@[k]@);
        }
    }
    compare_segment_lists(&ta, &tb)
}

} // verus!
