//! Character classes of the version grammar, and small executable helpers
//! for scanning text as sequences of characters.

use vstd::prelude::*;
use vstd::string::StrSliceExecFns;

verus! {

/// True of the ASCII digits `0` to `9`.
pub open spec fn is_digit_char(c: char) -> bool {
    48 <= c as u32 && c as u32 <= 57
}

/// True of the ASCII letters `A` to `Z` and `a` to `z`.
pub open spec fn is_alpha_char(c: char) -> bool {
    (65 <= c as u32 && c as u32 <= 90) || (97 <= c as u32 && c as u32 <= 122)
}

/// True of the ASCII letters and digits.
pub open spec fn is_alnum_char(c: char) -> bool {
    is_digit_char(c) || is_alpha_char(c)
}

/// True of the characters a `pkgver` or `pkgrel` may hold: letters, digits,
/// and the separators `.` and `_`.
pub open spec fn is_pkgver_char(c: char) -> bool {
    is_alnum_char(c) || c == '.' || c == '_'
}

/// Executable test for [`is_digit_char`].
pub fn digit_char(c: char) -> (r: bool)
    ensures
        r == is_digit_char(c),
{
    let u = c as u32;
    48 <= u && u <= 57
}

/// Executable test for [`is_alpha_char`].
pub fn alpha_char(c: char) -> (r: bool)
    ensures
        r == is_alpha_char(c),
{
    let u = c as u32;
    (65 <= u && u <= 90) || (97 <= u && u <= 122)
}

/// Executable test for [`is_alnum_char`].
pub fn alnum_char(c: char) -> (r: bool)
    ensures
        r == is_alnum_char(c),
{
    digit_char(c) || alpha_char(c)
}

/// Executable test for [`is_pkgver_char`].
pub fn pkgver_char(c: char) -> (r: bool)
    ensures
        r == is_pkgver_char(c),
{
    alnum_char(c) || c == '.' || c == '_'
}

/// The characters of `s`, in order, as a vector.
pub fn chars_of(s: &str) -> (v: Vec<char>)
    ensures
        v@ == s@,
{
    let n = s.unicode_len();
    let mut v: Vec<char> = Vec::new();
    let mut i: usize = 0;
    while i < n
        invariant
            i <= n,
            s@.len() == n as nat,
            v@ == s@.take(i as int),
        decreases n - i,
    {
        v.push(s.get_char(i));
        i = i + 1;
        proof {
            assert(v@ =~= s@.take(i as int));
        }
    }
    proof {
        assert(s@.take(n as int) =~= s@);
    }
    v
}

/// True exactly when `v` holds the same characters as `s`.
pub fn chars_equal_str(v: &Vec<char>, s: &str) -> (r: bool)
    ensures
        r == (v@ == s@),
{
    let n = s.unicode_len();
    if v.len() != n {
        proof {
            if v@ == s@ {
                assert(v@.len() == s@.len());
            }
        }
        return false;
    }
    let mut i: usize = 0;
    while i < n
        invariant
            i <= n,
            s@.len() == n as nat,
            v@.len() == n as nat,
            forall|k: int| 0 <= k < i ==> v@[k] == s@[k],
        decreases n - i,
    {
        if v[i] != s.get_char(i) {
            return false;
        }
        i = i + 1;
    }
    proof {
        assert(v@ =~= s@);
    }
    true
}

/// The index of the first occurrence of `c` in `s`, or `-1` when `c` does
/// not occur.
pub open spec fn first_index(s: Seq<char>, c: char) -> int
    decreases s.len(),
{
    if s.len() == 0 {
        -1
    } else if s[0] == c {
        0
    } else if first_index(s.skip(1), c) < 0 {
        -1
    } else {
        1 + first_index(s.skip(1), c)
    }
}

/// The index of the last occurrence of `c` in `s`, or `-1` when `c` does
/// not occur.
pub open spec fn last_index(s: Seq<char>, c: char) -> int
    decreases s.len(),
{
    if s.len() == 0 {
        -1
    } else if s[s.len() - 1] == c {
        s.len() - 1
    } else {
        last_index(s.take(s.len() - 1), c)
    }
}

/// The position of the first occurrence of `c` in `v`, if any.
pub fn find_first_char(v: &Vec<char>, c: char) -> (r: Option<usize>)
    ensures
        (match r {
            Some(i) => i < v@.len() && v@[i as int] == c && first_index(v@, c) == i as int,
            None => first_index(v@, c) < 0,
        }),
{
    let mut i: usize = 0;
    while i < v.len()
        invariant
            i <= v@.len(),
            forall|k: int| 0 <= k < i ==> v@[k] != c,
        decreases v@.len() - i,
    {
        if v[i] == c {
            proof {
                lemma_first_index(v@, c);
            }
            return Some(i);
        }
        i = i + 1;
    }
    proof {
        lemma_first_index(v@, c);
    }
    None
}

/// The position of the last occurrence of `c` in `v` at or after `from`,
/// if any; the position is an index into `v`.
pub fn find_last_char_from(v: &Vec<char>, from: usize, c: char) -> (r: Option<usize>)
    requires
        from <= v@.len(),
    ensures
        (match r {
            Some(i) => from <= i < v@.len() && last_index(v@.skip(from as int), c) == i - from,
            None => last_index(v@.skip(from as int), c) < 0,
        }),
{
    let mut j: usize = v.len();
    while j > from
        invariant
            from <= j <= v@.len(),
            forall|k: int| j <= k < v@.len() ==> v@[k] != c,
        decreases j,
    {
        j = j - 1;
        if v[j] == c {
            proof {
                lemma_last_index(v@.skip(from as int), c);
                assert(v@.skip(from as int)[j - from] == v@[j as int]);
                assert forall|k: int|
                    j - from < k < v@.skip(from as int).len() implies v@.skip(from as int)[k]
                    != c by {
                    assert(v@.skip(from as int)[k] == v@[k + from]);
                }
            }
            return Some(j);
        }
    }
    proof {
        lemma_last_index(v@.skip(from as int), c);
        assert forall|k: int| 0 <= k < v@.skip(from as int).len() implies v@.skip(from as int)[k]
            != c by {
            assert(v@.skip(from as int)[k] == v@[k + from]);
        }
    }
    None
}

/// The position of the last occurrence of `c` in `v` before `end`, if
/// any; the position is an index into `v`.
pub fn find_last_char_before(v: &Vec<char>, end: usize, c: char) -> (r: Option<usize>)
    requires
        end <= v@.len(),
    ensures
        (match r {
            Some(i) => i < end && v@[i as int] == c && last_index(v@.take(end as int), c)
                == i as int,
            None => last_index(v@.take(end as int), c) < 0,
        }),
{
    let mut j: usize = end;
    while j > 0
        invariant
            j <= end <= v@.len(),
            forall|k: int| j <= k < end ==> v@[k] != c,
        decreases j,
    {
        j = j - 1;
        if v[j] == c {
            proof {
                lemma_last_index(v@.take(end as int), c);
                assert(v@.take(end as int)[j as int] == v@[j as int]);
                assert forall|k: int|
                    j < k < v@.take(end as int).len() implies v@.take(end as int)[k] != c by {
                    assert(v@.take(end as int)[k] == v@[k]);
                }
            }
            return Some(j);
        }
    }
    proof {
        lemma_last_index(v@.take(end as int), c);
        assert forall|k: int| 0 <= k < v@.take(end as int).len() implies v@.take(end as int)[k]
            != c by {
            assert(v@.take(end as int)[k] == v@[k]);
        }
    }
    None
}

/// What [`first_index`] returns: the position of `c`, with no earlier one.
pub proof fn lemma_first_index(s: Seq<char>, c: char)
    ensures
        first_index(s, c) < 0 ==> forall|i: int| 0 <= i < s.len() ==> s[i] != c,
        first_index(s, c) >= 0 ==> first_index(s, c) < s.len() && s[first_index(s, c)] == c,
        first_index(s, c) >= 0 ==> forall|i: int| 0 <= i < first_index(s, c) ==> s[i] != c,
    decreases s.len(),
{
    if s.len() > 0 && s[0] != c {
        lemma_first_index(s.skip(1), c);
        assert forall|i: int| 1 <= i < s.len() implies s.skip(1)[i - 1] == s[i] by {}
    }
}

/// What [`last_index`] returns: the position of `c`, with no later one.
pub proof fn lemma_last_index(s: Seq<char>, c: char)
    ensures
        last_index(s, c) < 0 ==> forall|i: int| 0 <= i < s.len() ==> s[i] != c,
        last_index(s, c) >= 0 ==> last_index(s, c) < s.len() && s[last_index(s, c)] == c,
        last_index(s, c) >= 0 ==> forall|i: int| last_index(s, c) < i < s.len() ==> s[i] != c,
    decreases s.len(),
{
    if s.len() > 0 && s[s.len() - 1] != c {
        lemma_last_index(s.take(s.len() - 1), c);
        assert forall|i: int| 0 <= i < s.len() - 1 implies s.take(s.len() - 1)[i] == s[i] by {}
    }
}

} // verus!
