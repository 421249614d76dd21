//! The composite version model `[epoch:]pkgver[-pkgrel]`: its validated
//! component types, its parser, and the three-step comparison that orders
//! two versions by epoch, then pkgver, then (when both are present)
//! pkgrel.

use core::cmp::Ordering;

use vstd::prelude::*;
use vstd::string::{StrSliceExecFns, StringExecFns};

use crate::chars::{
    alnum_char,
    chars_of,
    digit_char,
    find_first_char,
    find_last_char_from,
    first_index,
    is_alnum_char,
    is_pkgver_char,
    last_index,
    pkgver_char,
};
use crate::error::{Component, Error};
use crate::order::{
    all_digits,
    compare_digits,
    compare_pkgver_chars,
    digits_value,
    int_cmp,
    ordering_of,
    pkgver_cmp,
};

verus! {

/// A valid epoch text: a non-empty run of decimal digits.
pub open spec fn epoch_valid(s: Seq<char>) -> bool {
    s.len() > 0 && all_digits(s)
}

/// A valid pkgver or pkgrel text: non-empty, starting with a letter or
/// digit, with every character a letter, a digit, `.` or `_`.
pub open spec fn pkgver_valid(s: Seq<char>) -> bool {
    s.len() > 0 && is_alnum_char(s[0]) && forall|i: int| 0 <= i < s.len() ==> is_pkgver_char(
        #[trigger] s[i],
    )
}

/// The index of the first character of `s` outside the pkgver class, or
/// `-1` when every character belongs to it.
pub open spec fn first_nonmember(s: Seq<char>) -> int
    decreases s.len(),
{
    if s.len() == 0 {
        -1
    } else if !is_pkgver_char(s[0]) {
        0
    } else if first_nonmember(s.skip(1)) < 0 {
        -1
    } else {
        1 + first_nonmember(s.skip(1))
    }
}

/// The index at which `s` breaks the pkgver grammar: `0` when the first
/// character is no letter or digit, else the first character outside the
/// pkgver class; `-1` when `s` is empty or well-formed.
pub open spec fn pkgver_flaw(s: Seq<char>) -> int {
    if s.len() > 0 && !is_alnum_char(s[0]) {
        0
    } else {
        first_nonmember(s)
    }
}

/// What [`first_nonmember`] returns: the position of the first character
/// outside the class, with every earlier one inside it.
pub proof fn lemma_first_nonmember(s: Seq<char>)
    ensures
        first_nonmember(s) < 0 ==> forall|i: int| 0 <= i < s.len() ==> is_pkgver_char(
            #[trigger] s[i],
        ),
        first_nonmember(s) >= 0 ==> first_nonmember(s) < s.len() && !is_pkgver_char(
            s[first_nonmember(s)],
        ),
        first_nonmember(s) >= 0 ==> forall|i: int| 0 <= i < first_nonmember(s)
            ==> is_pkgver_char(#[trigger] s[i]),
    decreases s.len(),
{
    if s.len() > 0 && is_pkgver_char(s[0]) {
        lemma_first_nonmember(s.skip(1));
        assert forall|i: int| 1 <= i < s.len() implies s.skip(1)[i - 1] == s[i] by {}
    }
}

/// A non-empty flaw-free text is a valid pkgver, and a flaw names a real
/// grammar violation.
pub proof fn lemma_pkgver_flaw_valid(s: Seq<char>)
    ensures
        pkgver_flaw(s) < 0 <==> (s.len() == 0 || pkgver_valid(s)),
{
    lemma_first_nonmember(s);
    if s.len() > 0 && is_alnum_char(s[0]) && first_nonmember(s) < 0 {
        assert(pkgver_valid(s));
    }
}

/// The epoch of a version: a validated run of decimal digits. An absent
/// epoch counts as zero.
#[derive(Debug)]
pub struct Epoch {
    text: String,
}

impl Epoch {
    #[verifier::type_invariant]
    spec fn type_inv(self) -> bool {
        epoch_valid(self.text@)
    }
}

impl View for Epoch {
    type V = Seq<char>;

    closed spec fn view(&self) -> Seq<char> {
        self.text@
    }
}

/// The primary version text of a package, validated against the pkgver
/// grammar.
#[derive(Debug)]
pub struct PackageVersion {
    text: String,
}

impl PackageVersion {
    #[verifier::type_invariant]
    spec fn type_inv(self) -> bool {
        pkgver_valid(self.text@)
    }
}

impl View for PackageVersion {
    type V = Seq<char>;

    closed spec fn view(&self) -> Seq<char> {
        self.text@
    }
}

/// The release counter of a package, validated against the same grammar
/// as a pkgver and compared by the same algorithm.
#[derive(Debug)]
pub struct PackageRelease {
    text: String,
}

impl PackageRelease {
    #[verifier::type_invariant]
    spec fn type_inv(self) -> bool {
        pkgver_valid(self.text@)
    }
}

impl View for PackageRelease {
    type V = Seq<char>;

    closed spec fn view(&self) -> Seq<char> {
        self.text@
    }
}

/// The mathematical value of a [`Version`]: its three components as plain
/// character sequences.
pub struct VersionModel {
    /// The epoch text, when an epoch was written.
    pub epoch: Option<Seq<char>>,
    /// The pkgver text.
    pub pkgver: Seq<char>,
    /// The pkgrel text, when a pkgrel was written.
    pub pkgrel: Option<Seq<char>>,
}

/// A composite package version: `[epoch:]pkgver[-pkgrel]`.
#[derive(Debug)]
pub struct Version {
    epoch: Option<Epoch>,
    pkgver: PackageVersion,
    pkgrel: Option<PackageRelease>,
}

impl View for Version {
    type V = VersionModel;

    closed spec fn view(&self) -> VersionModel {
        VersionModel {
            epoch: match self.epoch {
                Some(e) => Some(e@),
                None => None,
            },
            pkgver: self.pkgver@,
            pkgrel: match self.pkgrel {
                Some(r) => Some(r@),
                None => None,
            },
        }
    }
}

/// What parsing a version string yields: the three components split at the
/// first `:` and the last `-`, or the error for the first rule the text
/// breaks. The position of an [`Error::InvalidCharacter`] counts
/// characters from the start of the parsed text.
pub open spec fn spec_parse_version(s: Seq<char>) -> Result<VersionModel, Error> {
    if s.len() == 0 {
        Err(Error::EmptyVersion)
    } else {
        let ci = first_index(s, ':');
        let ro: int = if ci >= 0 {
            ci + 1
        } else {
            0
        };
        let rest = s.skip(ro);
        if ci >= 0 && !epoch_valid(s.take(ci)) {
            Err(Error::InvalidEpoch)
        } else {
            let di = last_index(rest, '-');
            let pv = if di >= 0 {
                rest.take(di)
            } else {
                rest
            };
            if di >= 0 && di + 1 == rest.len() {
                Err(Error::InvalidPkgrel)
            } else if pv.len() == 0 {
                Err(Error::EmptyVersion)
            } else if pkgver_flaw(pv) >= 0 {
                Err(
                    Error::InvalidCharacter {
                        position: (ro + pkgver_flaw(pv)) as usize,
                        character: pv[pkgver_flaw(pv)],
                    },
                )
            } else if di >= 0 && pkgver_flaw(rest.skip(di + 1)) >= 0 {
                Err(
                    Error::InvalidCharacter {
                        position: (ro + di + 1 + pkgver_flaw(rest.skip(di + 1))) as usize,
                        character: rest.skip(di + 1)[pkgver_flaw(rest.skip(di + 1))],
                    },
                )
            } else {
                Ok(
                    VersionModel {
                        epoch: if ci >= 0 {
                            Some(s.take(ci))
                        } else {
                            None
                        },
                        pkgver: pv,
                        pkgrel: if di >= 0 {
                            Some(rest.skip(di + 1))
                        } else {
                            None
                        },
                    },
                )
            }
        }
    }
}

/// The textual form of a version model: `[epoch:]pkgver[-pkgrel]`.
pub open spec fn version_text_of(m: VersionModel) -> Seq<char> {
    (match m.epoch {
        Some(e) => e + seq![':'],
        None => Seq::empty(),
    }) + m.pkgver + (match m.pkgrel {
        Some(r) => seq!['-'] + r,
        None => Seq::empty(),
    })
}

/// Parsing is faithful: a successfully parsed version's components are
/// each well-formed, and writing them back in the form
/// `[epoch:]pkgver[-pkgrel]` restores the input text exactly.
pub proof fn lemma_parse_version_faithful(s: Seq<char>)
    requires
        spec_parse_version(s) is Ok,
    ensures
        version_text_of(spec_parse_version(s)->Ok_0) == s,
        pkgver_valid(spec_parse_version(s)->Ok_0.pkgver),
        (match spec_parse_version(s)->Ok_0.epoch {
            Some(e) => epoch_valid(e),
            None => true,
        }),
        (match spec_parse_version(s)->Ok_0.pkgrel {
            Some(r) => pkgver_valid(r),
            None => true,
        }),
{
    let m = spec_parse_version(s)->Ok_0;
    let ci = first_index(s, ':');
    let ro: int = if ci >= 0 {
        ci + 1
    } else {
        0
    };
    let rest = s.skip(ro);
    let di = last_index(rest, '-');
    crate::chars::lemma_first_index(s, ':');
    crate::chars::lemma_last_index(rest, '-');
    lemma_pkgver_flaw_valid(m.pkgver);
    if di >= 0 {
        lemma_pkgver_flaw_valid(rest.skip(di + 1));
        assert(rest.take(di) + seq!['-'] + rest.skip(di + 1) =~= rest);
    }
    if ci >= 0 {
        assert(s.take(ci) + seq![':'] + rest =~= s);
    }
    assert(version_text_of(m) =~= s);
}

/// The pkgver class holds neither of the two delimiters.
proof fn lemma_pkgver_chars_no_delimiters(t: Seq<char>)
    requires
        forall|i: int| 0 <= i < t.len() ==> is_pkgver_char(#[trigger] t[i]),
    ensures
        forall|i: int| 0 <= i < t.len() ==> t[i] != ':' && (#[trigger] t[i]) != '-',
{
    assert forall|i: int| 0 <= i < t.len() implies t[i] != ':' && (#[trigger] t[i]) != '-' by {
        if t[i] == ':' {
            assert(t[i] as u32 == 58);
        }
        if t[i] == '-' {
            assert(t[i] as u32 == 45);
        }
    }
}

/// Parsing is complete: the text of any well-formed version model parses
/// back to exactly that model. Together with
/// [`lemma_parse_version_faithful`] this says that parsing succeeds
/// precisely on the texts of well-formed models, and is one-to-one on
/// them.
pub proof fn lemma_parse_version_complete(m: VersionModel)
    requires
        pkgver_valid(m.pkgver),
        (match m.epoch {
            Some(e) => epoch_valid(e),
            None => true,
        }),
        (match m.pkgrel {
            Some(r) => pkgver_valid(r),
            None => true,
        }),
    ensures
        spec_parse_version(version_text_of(m)) == Ok::<VersionModel, Error>(m),
{
    let s = version_text_of(m);
    let head = (match m.epoch {
        Some(e) => e + seq![':'],
        None => Seq::<char>::empty(),
    });
    let tail = (match m.pkgrel {
        Some(r) => seq!['-'] + r,
        None => Seq::<char>::empty(),
    });
    let hl = head.len() as int;
    let pl = m.pkgver.len() as int;
    crate::chars::lemma_first_index(s, ':');
    lemma_pkgver_chars_no_delimiters(m.pkgver);
    if m.pkgrel is Some {
        lemma_pkgver_chars_no_delimiters(m.pkgrel->0);
    }
    match m.epoch {
        Some(e) => {
            assert(s[hl - 1] == ':');
            assert forall|i: int| 0 <= i < hl - 1 implies s[i] != ':' by {
                assert(s[i] == e[i]);
                assert(crate::chars::is_digit_char(e[i]));
                if s[i] == ':' {
                    assert(s[i] as u32 == 58);
                }
            }
            assert(first_index(s, ':') == hl - 1);
            assert(s.take(hl - 1) =~= e);
        },
        None => {
            assert forall|i: int| 0 <= i < s.len() implies s[i] != ':' by {
                if i < pl {
                    assert(s[i] == m.pkgver[i]);
                } else {
                    assert(s[i] == tail[i - pl]);
                    if i == pl && m.pkgrel is Some {
                        assert(s[i] == '-');
                    } else {
                        assert(s[i] == m.pkgrel->0[i - pl - 1]);
                    }
                }
            }
            assert(first_index(s, ':') < 0);
        },
    }
    let ro: int = if m.epoch is Some {
        hl
    } else {
        0
    };
    let rest = s.skip(ro);
    assert(rest =~= m.pkgver + tail);
    crate::chars::lemma_last_index(rest, '-');
    match m.pkgrel {
        Some(r) => {
            assert(rest[pl] == '-');
            assert forall|i: int| pl < i < rest.len() implies rest[i] != '-' by {
                assert(rest[i] == r[i - pl - 1]);
            }
            assert forall|i: int| 0 <= i < pl implies rest[i] != '-' by {
                assert(rest[i] == m.pkgver[i]);
            }
            assert(last_index(rest, '-') == pl);
            assert(rest.take(pl) =~= m.pkgver);
            assert(rest.skip(pl + 1) =~= r);
            lemma_pkgver_flaw_valid(rest.take(pl));
            lemma_pkgver_flaw_valid(rest.skip(pl + 1));
        },
        None => {
            assert forall|i: int| 0 <= i < rest.len() implies rest[i] != '-' by {
                assert(rest[i] == m.pkgver[i]);
            }
            assert(last_index(rest, '-') < 0);
            lemma_pkgver_flaw_valid(rest);
        },
    }
}

/// Finds the first index in `v[from..to]` at which the pkgver grammar is
/// broken, as [`pkgver_flaw`] names it; the returned index points into
/// `v`.
fn scan_pkgver_flaw(v: &Vec<char>, from: usize, to: usize) -> (r: Option<usize>)
    requires
        from <= to <= v@.len(),
    ensures
        (match r {
            Some(i) => from <= i < to && pkgver_flaw(v@.subrange(from as int, to as int)) == i
                - from,
            None => pkgver_flaw(v@.subrange(from as int, to as int)) < 0,
        }),
{
    let ghost t = v@.subrange(from as int, to as int);
    proof {
        lemma_first_nonmember(t);
    }
    if from < to && !alnum_char(v[from]) {
        proof {
            assert(t[0] == v@[from as int]);
        }
        return Some(from);
    }
    let mut i: usize = from;
    while i < to
        invariant
            from <= i <= to <= v@.len(),
            t == v@.subrange(from as int, to as int),
            from < to ==> is_alnum_char(t[0]),
            forall|k: int| 0 <= k < i - from ==> is_pkgver_char(#[trigger] t[k]),
        decreases to - i,
    {
        proof {
            assert(t[i - from] == v@[i as int]);
        }
        if !pkgver_char(v[i]) {
            proof {
                lemma_first_nonmember(t);
            }
            return Some(i);
        }
        i = i + 1;
    }
    proof {
        lemma_first_nonmember(t);
        if t.len() > 0 {
            assert(t[0] == v@[from as int]);
        }
    }
    None
}

/// Parses a composite version string `[epoch:]pkgver[-pkgrel]`, returning
/// exactly what [`spec_parse_version`] names for it.
pub fn parse_version(s: &str) -> (r: Result<Version, Error>)
    ensures
        (match (r, spec_parse_version(s@)) {
            (Ok(v), Ok(m)) => v@ == m,
            (Err(e), Err(m)) => e == m,
            _ => false,
        }),
{
    let v = chars_of(s);
    let n = v.len();
    if n == 0 {
        return Err(Error::EmptyVersion);
    }
    let ci = find_first_char(&v, ':');
    let ro: usize = match ci {
        Some(i) => i + 1,
        None => 0,
    };
    let epoch: Option<Epoch> = match ci {
        Some(i) => {
            if i == 0 {
                return Err(Error::InvalidEpoch);
            }
            let mut k: usize = 0;
            while k < i
                invariant
                    0 <= k <= i < v@.len(),
                    v@ == s@,
                    v@[i as int] == ':',
                    first_index(v@, ':') == i as int,
                    forall|t: int| 0 <= t < k ==> crate::chars::is_digit_char(#[trigger] v@[t]),
                decreases i - k,
            {
                if !digit_char(v[k]) {
                    proof {
                        assert(s@.take(i as int)[k as int] == v@[k as int]);
                    }
                    return Err(Error::InvalidEpoch);
                }
                k = k + 1;
            }
            let text = s.substring_char(0, i).to_owned();
            proof {
                assert forall|t: int| 0 <= t < i implies crate::chars::is_digit_char(
                    #[trigger] text@[t],
                ) by {
                    assert(text@[t] == v@[t]);
                }
            }
            Some(Epoch { text })
        },
        None => None,
    };
    let ghost rest = s@.skip(ro as int);
    let di = find_last_char_from(&v, ro, '-');
    let pv_end: usize = match di {
        Some(i) => i,
        None => n,
    };
    proof {
        assert(rest =~= v@.subrange(ro as int, n as int));
        if di is Some {
            assert(rest.take(last_index(rest, '-')) =~= v@.subrange(
                ro as int,
                pv_end as int,
            ));
        } else {
            assert(rest =~= v@.subrange(ro as int, pv_end as int));
        }
    }
    if let Some(i) = di {
        if i + 1 == n {
            return Err(Error::InvalidPkgrel);
        }
    }
    if pv_end == ro {
        return Err(Error::EmptyVersion);
    }
    match scan_pkgver_flaw(&v, ro, pv_end) {
        Some(i) => {
            return Err(Error::InvalidCharacter { position: i, character: v[i] });
        },
        None => {},
    }
    let pkgrel: Option<PackageRelease> = match di {
        Some(i) => {
            proof {
                assert(rest.skip(last_index(rest, '-') + 1) =~= v@.subrange(
                    (i + 1) as int,
                    n as int,
                ));
            }
            match scan_pkgver_flaw(&v, i + 1, n) {
                Some(k) => {
                    return Err(Error::InvalidCharacter { position: k, character: v[k] });
                },
                None => {},
            }
            let text = s.substring_char(i + 1, n).to_owned();
            proof {
                assert(text@ =~= rest.skip(last_index(rest, '-') + 1));
                lemma_pkgver_flaw_valid(text@);
            }
            Some(PackageRelease { text })
        },
        None => None,
    };
    let text = s.substring_char(ro, pv_end).to_owned();
    proof {
        assert(text@ =~= (if last_index(rest, '-') >= 0 {
            rest.take(last_index(rest, '-'))
        } else {
            rest
        }));
        lemma_pkgver_flaw_valid(text@);
    }
    let pkgver = PackageVersion { text };
    Ok(Version { epoch, pkgver, pkgrel })
}

/// The value an epoch component stands for: its digits read in base ten,
/// or zero when it is absent.
pub open spec fn epoch_value_of(e: Option<Seq<char>>) -> nat {
    match e {
        Some(t) => digits_value(t),
        None => 0,
    }
}

/// The three-way comparison of two versions: by epoch value first, then by
/// pkgver, then by pkgrel — and only when both sides carry a pkgrel; a
/// version without one neither wins nor loses on that step.
pub open spec fn version_cmp(a: VersionModel, b: VersionModel) -> int {
    let ec = int_cmp(epoch_value_of(a.epoch) as int, epoch_value_of(b.epoch) as int);
    if ec != 0 {
        ec
    } else {
        let pc = pkgver_cmp(a.pkgver, b.pkgver);
        if pc != 0 {
            pc
        } else {
            match (a.pkgrel, b.pkgrel) {
                (Some(x), Some(y)) => pkgver_cmp(x, y),
                _ => 0,
            }
        }
    }
}

/// Compares two versions as [`version_cmp`] orders them.
pub fn compare_versions(a: &Version, b: &Version) -> (o: Ordering)
    ensures
        o == ordering_of(version_cmp(a@, b@)),
{
    let ea: Vec<char> = match &a.epoch {
        Some(e) => {
            proof {
                use_type_invariant(&*e);
            }
            chars_of(e.text.as_str())
        },
        None => Vec::new(),
    };
    let eb: Vec<char> = match &b.epoch {
        Some(e) => {
            proof {
                use_type_invariant(&*e);
            }
            chars_of(e.text.as_str())
        },
        None => Vec::new(),
    };
    let eo = compare_digits(&ea, &eb);
    match eo {
        Ordering::Equal => {},
        _ => {
            return eo;
        },
    }
    let pa = chars_of(a.pkgver.text.as_str());
    let pb = chars_of(b.pkgver.text.as_str());
    let po = compare_pkgver_chars(&pa, &pb);
    match po {
        Ordering::Equal => {},
        _ => {
            return po;
        },
    }
    match (&a.pkgrel, &b.pkgrel) {
        (Some(x), Some(y)) => {
            let ra = chars_of(x.text.as_str());
            let rb = chars_of(y.text.as_str());
            compare_pkgver_chars(&ra, &rb)
        },
        _ => Ordering::Equal,
    }
}

impl Version {
    /// Parses a composite version string; the same operation as
    /// [`parse_version`].
    pub fn new(version: &str) -> (r: Result<Self, Error>)
        ensures
            (match (r, spec_parse_version(version@)) {
                (Ok(v), Ok(m)) => v@ == m,
                (Err(e), Err(m)) => e == m,
                _ => false,
            }),
    {
        parse_version(version)
    }

    /// Parses a composite version string that must carry a pkgrel;
    /// one without a pkgrel is rejected as missing that component.
    pub fn with_pkgrel(version: &str) -> (r: Result<Self, Error>)
        ensures
            (match (r, spec_parse_version(version@)) {
                (Ok(v), Ok(m)) => v@ == m && m.pkgrel is Some,
                (Err(e), Ok(m)) => m.pkgrel is None && e == Error::MissingComponent {
                    component: Component::Pkgrel,
                },
                (Err(e), Err(m)) => e == m,
                _ => false,
            }),
    {
        match parse_version(version) {
            Ok(v) => {
                if v.pkgrel.is_some() {
                    Ok(v)
                } else {
                    Err(Error::MissingComponent { component: Component::Pkgrel })
                }
            },
            Err(e) => Err(e),
        }
    }

    /// The epoch component, when one was written.
    pub fn epoch(&self) -> (r: Option<&Epoch>)
        ensures
            (match (r, self@.epoch) {
                (Some(e), Some(m)) => e@ == m,
                (None, None) => true,
                _ => false,
            }),
    {
        self.epoch.as_ref()
    }

    /// The pkgver component.
    pub fn pkgver(&self) -> (r: &PackageVersion)
        ensures
            r@ == self@.pkgver,
    {
        &self.pkgver
    }

    /// The textual form `[epoch:]pkgver[-pkgrel]` of this version.
    /// Parsing it yields this version back.
    pub fn text(&self) -> (r: String)
        ensures
            r@ == version_text_of(self@),
            spec_parse_version(r@) == Ok::<VersionModel, Error>(self@),
    {
        proof {
            use_type_invariant(&self.pkgver);
        }
        let mut out = String::new();
        match &self.epoch {
            Some(e) => {
                proof {
                    use_type_invariant(&*e);
                }
                out.append(e.text.as_str());
                out.append(":");
            },
            None => {},
        }
        out.append(self.pkgver.text.as_str());
        match &self.pkgrel {
            Some(p) => {
                proof {
                    use_type_invariant(&*p);
                }
                out.append("-");
                out.append(p.text.as_str());
            },
            None => {},
        }
        proof {
            reveal_strlit(":");
            reveal_strlit("-");
            assert(":"@ =~= seq![':']);
            assert("-"@ =~= seq!['-']);
            assert(out@ =~= version_text_of(self@));
            lemma_parse_version_complete(self@);
        }
        out
    }

    /// The pkgrel component, when one was written.
    pub fn pkgrel(&self) -> (r: Option<&PackageRelease>)
        ensures
            (match (r, self@.pkgrel) {
                (Some(e), Some(m)) => e@ == m,
                (None, None) => true,
                _ => false,
            }),
    {
        self.pkgrel.as_ref()
    }
}

impl Epoch {
    /// Validates a run of decimal digits as an epoch.
    pub fn new(epoch: &str) -> (r: Result<Self, Error>)
        ensures
            (match r {
                Ok(e) => epoch_valid(epoch@) && e@ == epoch@,
                Err(e) => !epoch_valid(epoch@) && e == Error::InvalidEpoch,
            }),
    {
        let v = chars_of(epoch);
        if v.len() == 0 {
            return Err(Error::InvalidEpoch);
        }
        let mut k: usize = 0;
        while k < v.len()
            invariant
                k <= v@.len(),
                v@ == epoch@,
                forall|t: int| 0 <= t < k ==> crate::chars::is_digit_char(#[trigger] v@[t]),
            decreases v@.len() - k,
        {
            if !digit_char(v[k]) {
                return Err(Error::InvalidEpoch);
            }
            k = k + 1;
        }
        Ok(Epoch { text: epoch.to_owned() })
    }

    /// The epoch text.
    pub fn as_str(&self) -> (r: &str)
        ensures
            r@ == self@,
    {
        self.text.as_str()
    }
}

impl PackageVersion {
    /// Validates a text against the pkgver grammar.
    pub fn new(pkgver: &str) -> (r: Result<Self, Error>)
        ensures
            (match r {
                Ok(p) => pkgver_valid(pkgver@) && p@ == pkgver@,
                Err(e) => !pkgver_valid(pkgver@) && (match e {
                    Error::EmptyVersion => pkgver@.len() == 0,
                    Error::InvalidCharacter { position, character } => pkgver_flaw(pkgver@)
                        == position as int && character == pkgver@[position as int],
                    _ => false,
                }),
            }),
    {
        let v = chars_of(pkgver);
        if v.len() == 0 {
            return Err(Error::EmptyVersion);
        }
        proof {
            assert(v@.subrange(0, v@.len() as int) =~= pkgver@);
        }
        match scan_pkgver_flaw(&v, 0, v.len()) {
            Some(i) => {
                proof {
                    lemma_pkgver_flaw_valid(pkgver@);
                }
                Err(Error::InvalidCharacter { position: i, character: v[i] })
            },
            None => {
                proof {
                    lemma_pkgver_flaw_valid(pkgver@);
                }
                Ok(PackageVersion { text: pkgver.to_owned() })
            },
        }
    }

    /// The pkgver text.
    pub fn as_str(&self) -> (r: &str)
        ensures
            r@ == self@,
    {
        self.text.as_str()
    }

    /// Compares two pkgver texts with the segment algorithm.
    pub fn compare(&self, other: &PackageVersion) -> (o: Ordering)
        ensures
            o == ordering_of(pkgver_cmp(self@, other@)),
    {
        let a = chars_of(self.text.as_str());
        let b = chars_of(other.text.as_str());
        compare_pkgver_chars(&a, &b)
    }
}

impl PackageRelease {
    /// Validates a text against the pkgrel grammar, which is the pkgver
    /// grammar.
    pub fn new(pkgrel: &str) -> (r: Result<Self, Error>)
        ensures
            (match r {
                Ok(p) => pkgver_valid(pkgrel@) && p@ == pkgrel@,
                Err(e) => !pkgver_valid(pkgrel@) && (match e {
                    Error::EmptyVersion => pkgrel@.len() == 0,
                    Error::InvalidCharacter { position, character } => pkgver_flaw(pkgrel@)
                        == position as int && character == pkgrel@[position as int],
                    _ => false,
                }),
            }),
    {
        let v = chars_of(pkgrel);
        if v.len() == 0 {
            return Err(Error::EmptyVersion);
        }
        proof {
            assert(v@.subrange(0, v@.len() as int) =~= pkgrel@);
        }
        match scan_pkgver_flaw(&v, 0, v.len()) {
            Some(i) => {
                proof {
                    lemma_pkgver_flaw_valid(pkgrel@);
                }
                Err(Error::InvalidCharacter { position: i, character: v[i] })
            },
            None => {
                proof {
                    lemma_pkgver_flaw_valid(pkgrel@);
                }
                Ok(PackageRelease { text: pkgrel.to_owned() })
            },
        }
    }

    /// The pkgrel text.
    pub fn as_str(&self) -> (r: &str)
        ensures
            r@ == self@,
    {
        self.text.as_str()
    }

    /// Compares two pkgrel texts with the segment algorithm.
    pub fn compare(&self, other: &PackageRelease) -> (o: Ordering)
        ensures
            o == ordering_of(pkgver_cmp(self@, other@)),
    {
        let a = chars_of(self.text.as_str());
        let b = chars_of(other.text.as_str());
        compare_pkgver_chars(&a, &b)
    }
}

} // verus!
