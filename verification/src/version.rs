//! Semantic versions and calendar dates as the changelog stores them: plain
//! fields the contracts can speak about.
//!
//! Parsing a version string is delegated to the `semver` crate behind a
//! trusted wrapper; formatting and precedence ordering are implemented and
//! verified here.

use vstd::prelude::*;

use crate::text;

verus! {

/// A semantic version held as plain values: numeric core, pre-release and
/// build metadata as their raw dot-separated text.
#[derive(Debug, Clone, PartialEq, Eq)]
pub struct SemVer {
    pub major: u64,
    pub minor: u64,
    pub patch: u64,
    pub pre: String,
    pub build: String,
}

/// What `semver::Version::parse` returns for a given string: `None` when the
/// string is not a valid semantic version, otherwise the five fields
/// (major, minor, patch, pre-release text, build metadata text).
pub uninterp spec fn semver_of(s: Seq<char>) -> Option<(u64, u64, u64, Seq<char>, Seq<char>)>;

impl SemVer {
    /// The version equals the given parsed fields.
    pub open spec fn matches_parts(self, p: (u64, u64, u64, Seq<char>, Seq<char>)) -> bool {
        &&& self.major == p.0
        &&& self.minor == p.1
        &&& self.patch == p.2
        &&& self.pre@ == p.3
        &&& self.build@ == p.4
    }
}

/// Relies on `semver::Version::parse`: whether a string is a valid semantic
/// version, and the fields parsed out of it, depend on the string alone.
#[verifier::external_body]
pub(crate) fn semver_parse(s: &str) -> (r: Option<SemVer>)
    ensures
        r is Some <==> semver_of(s@) is Some,
        r is Some ==> r->Some_0.matches_parts(semver_of(s@)->Some_0),
{
    semver::Version::parse(s).ok().map(
        |v|
            SemVer {
                major: v.major,
                minor: v.minor,
                patch: v.patch,
                pre: v.pre.as_str().to_owned(),
                build: v.build.as_str().to_owned(),
            },
    )
}

/// The canonical text of a version: `major.minor.patch`, then `-pre` when a
/// pre-release is present and `+build` when build metadata is present.
pub open spec fn spec_semver_str(v: SemVer) -> Seq<char> {
    text::spec_dec(v.major as int) + seq!['.'] + text::spec_dec(v.minor as int) + seq!['.']
        + text::spec_dec(v.patch as int) + (if v.pre@.len() > 0 {
        seq!['-'] + v.pre@
    } else {
        Seq::empty()
    }) + (if v.build@.len() > 0 {
        seq!['+'] + v.build@
    } else {
        Seq::empty()
    })
}

/// Appends the canonical text of `v` to `out`.
pub fn append_semver(out: &mut String, v: &SemVer)
    ensures
        final(out)@ == old(out)@ + spec_semver_str(*v),
{
    proof {
        reveal_strlit(".");
        reveal_strlit("-");
        reveal_strlit("+");
    }
    text::append_dec(out, v.major);
    out.append(".");
    text::append_dec(out, v.minor);
    out.append(".");
    text::append_dec(out, v.patch);
    if v.pre.as_str().unicode_len() > 0 {
        out.append("-");
        out.append(v.pre.as_str());
    }
    if v.build.as_str().unicode_len() > 0 {
        out.append("+");
        out.append(v.build.as_str());
    }
    proof {
        assert(out@ =~= old(out)@ + spec_semver_str(*v));
    }
}

/// Three-way comparison of integers: negative, zero or positive.
pub open spec fn spec_cmp_int(a: int, b: int) -> int {
    if a < b {
        -1
    } else if a == b {
        0
    } else {
        1
    }
}

/// Lexicographic comparison of character sequences by code point, negative
/// when `a` comes first.
pub open spec fn spec_cmp_chars(a: Seq<char>, b: Seq<char>) -> int
    decreases a.len(),
{
    if a.len() == 0 && b.len() == 0 {
        0
    } else if a.len() == 0 {
        -1
    } else if b.len() == 0 {
        1
    } else if a[0] != b[0] {
        if a[0] < b[0] {
            -1
        } else {
            1
        }
    } else {
        spec_cmp_chars(a.drop_first(), b.drop_first())
    }
}

/// A non-empty run of decimal digits.
pub open spec fn spec_is_numeric(s: Seq<char>) -> bool {
    s.len() > 0 && forall|i: int| 0 <= i < s.len() ==> text::spec_is_digit(#[trigger] s[i])
}

/// The digit sequence without its leading zeros (all-zero input keeps one).
pub open spec fn spec_strip_zeros(s: Seq<char>) -> Seq<char>
    decreases s.len(),
{
    if s.len() > 1 && s[0] == '0' {
        spec_strip_zeros(s.drop_first())
    } else {
        s
    }
}

/// Numeric order of two digit runs: shorter (after stripping leading zeros)
/// is smaller; equal lengths compare digit by digit.
pub open spec fn spec_cmp_numeric(a: Seq<char>, b: Seq<char>) -> int {
    let sa = spec_strip_zeros(a);
    let sb = spec_strip_zeros(b);
    if sa.len() != sb.len() {
        spec_cmp_int(sa.len() as int, sb.len() as int)
    } else {
        spec_cmp_chars(sa, sb)
    }
}

/// Precedence order of two pre-release identifiers: numeric identifiers
/// compare numerically and are smaller than alphanumeric ones, which compare
/// lexicographically.
pub open spec fn spec_cmp_ident(a: Seq<char>, b: Seq<char>) -> int {
    if spec_is_numeric(a) && spec_is_numeric(b) {
        spec_cmp_numeric(a, b)
    } else if spec_is_numeric(a) {
        -1
    } else if spec_is_numeric(b) {
        1
    } else {
        spec_cmp_chars(a, b)
    }
}

/// Index of the first `'.'` in `s`, or `s.len()`.
pub open spec fn spec_find_dot(s: Seq<char>) -> int
    decreases s.len(),
{
    if s.len() == 0 {
        0
    } else if s[0] == '.' {
        0
    } else {
        1 + spec_find_dot(s.drop_first())
    }
}

pub proof fn lemma_find_dot(s: Seq<char>)
    ensures
        0 <= spec_find_dot(s) <= s.len(),
        forall|i: int| 0 <= i < spec_find_dot(s) ==> s[i] != '.',
        spec_find_dot(s) < s.len() ==> s[spec_find_dot(s)] == '.',
    decreases s.len(),
{
    if s.len() > 0 && s[0] != '.' {
        lemma_find_dot(s.drop_first());
        assert forall|i: int| 0 <= i < spec_find_dot(s) implies s[i] != '.' by {
            if i > 0 {
                assert(s.drop_first()[i - 1] == s[i]);
            }
        }
    }
}

/// Precedence order of two pre-release texts, identifier by identifier:
/// the first differing identifier decides; otherwise fewer identifiers sort
/// first.
pub open spec fn spec_cmp_pre_rec(a: Seq<char>, b: Seq<char>) -> int
    decreases a.len(),
    via spec_cmp_pre_rec_dec
{
    let pa = spec_find_dot(a);
    let pb = spec_find_dot(b);
    let c = spec_cmp_ident(a.subrange(0, pa), b.subrange(0, pb));
    if c != 0 {
        c
    } else if pa >= a.len() && pb >= b.len() {
        0
    } else if pa >= a.len() {
        -1
    } else if pb >= b.len() {
        1
    } else {
        spec_cmp_pre_rec(a.subrange(pa + 1, a.len() as int), b.subrange(pb + 1, b.len() as int))
    }
}

#[via_fn]
proof fn spec_cmp_pre_rec_dec(a: Seq<char>, b: Seq<char>) {
    lemma_find_dot(a);
    lemma_find_dot(b);
}

/// Precedence order of two pre-release fields: an absent pre-release is
/// higher than any present one.
pub open spec fn spec_cmp_pre(a: Seq<char>, b: Seq<char>) -> int {
    if a.len() == 0 && b.len() == 0 {
        0
    } else if a.len() == 0 {
        1
    } else if b.len() == 0 {
        -1
    } else {
        spec_cmp_pre_rec(a, b)
    }
}

/// Semantic-version precedence: numeric core first, then pre-release; build
/// metadata is ignored.
pub open spec fn spec_cmp_semver(a: SemVer, b: SemVer) -> int {
    if a.major != b.major {
        spec_cmp_int(a.major as int, b.major as int)
    } else if a.minor != b.minor {
        spec_cmp_int(a.minor as int, b.minor as int)
    } else if a.patch != b.patch {
        spec_cmp_int(a.patch as int, b.patch as int)
    } else {
        spec_cmp_pre(a.pre@, b.pre@)
    }
}

fn cmp_chars_at(a: &Vec<char>, ia: usize, ea: usize, b: &Vec<char>, ib: usize, eb: usize) -> (r:
    i8)
    requires
        ia <= ea <= a@.len(),
        ib <= eb <= b@.len(),
    ensures
        r as int == spec_cmp_chars(a@.subrange(ia as int, ea as int), b@.subrange(ib as int, eb as int)),
    decreases ea - ia,
{
    let ghost sa = a@.subrange(ia as int, ea as int);
    let ghost sb = b@.subrange(ib as int, eb as int);
    if ia == ea && ib == eb {
        0
    } else if ia == ea {
        -1
    } else if ib == eb {
        1
    } else if a[ia] != b[ib] {
        proof {
            assert(sa[0] == a@[ia as int]);
            assert(sb[0] == b@[ib as int]);
        }
        let xa: char = a[ia];
        let xb: char = b[ib];
        proof {
            assert(xa == sa[0] && xb == sb[0]);
        }
        if xa < xb {
            -1
        } else {
            1
        }
    } else {
        let r = cmp_chars_at(a, ia + 1, ea, b, ib + 1, eb);
        proof {
            assert(sa[0] == a@[ia as int]);
            assert(sb[0] == b@[ib as int]);
            assert(sa.drop_first() =~= a@.subrange(ia + 1, ea as int));
            assert(sb.drop_first() =~= b@.subrange(ib + 1, eb as int));
        }
        r
    }
}

fn is_numeric_at(a: &Vec<char>, ia: usize, ea: usize) -> (r: bool)
    requires
        ia <= ea <= a@.len(),
    ensures
        r == spec_is_numeric(a@.subrange(ia as int, ea as int)),
{
    let ghost sa = a@.subrange(ia as int, ea as int);
    if ia == ea {
        return false;
    }
    let mut k: usize = ia;
    while k < ea
        invariant
            ia <= k <= ea <= a@.len(),
            sa == a@.subrange(ia as int, ea as int),
            forall|i: int| 0 <= i < k - ia ==> text::spec_is_digit(#[trigger] sa[i]),
        decreases ea - k,
    {
        proof {
            assert(sa[k - ia] == a@[k as int]);
        }
        if !text::is_digit(a[k]) {
            return false;
        }
        k += 1;
    }
    true
}

fn strip_zeros_at(a: &Vec<char>, ia: usize, ea: usize) -> (r: usize)
    requires
        ia <= ea <= a@.len(),
    ensures
        ia <= r <= ea,
        a@.subrange(r as int, ea as int) == spec_strip_zeros(a@.subrange(ia as int, ea as int)),
    decreases ea - ia,
{
    let ghost sa = a@.subrange(ia as int, ea as int);
    if ea - ia > 1 && a[ia] == '0' {
        proof {
            assert(sa[0] == a@[ia as int]);
            assert(sa.drop_first() =~= a@.subrange(ia + 1, ea as int));
        }
        strip_zeros_at(a, ia + 1, ea)
    } else {
        ia
    }
}

fn cmp_numeric_at(a: &Vec<char>, ia: usize, ea: usize, b: &Vec<char>, ib: usize, eb: usize) -> (r:
    i8)
    requires
        ia <= ea <= a@.len(),
        ib <= eb <= b@.len(),
    ensures
        r as int == spec_cmp_numeric(
            a@.subrange(ia as int, ea as int),
            b@.subrange(ib as int, eb as int),
        ),
{
    let na = strip_zeros_at(a, ia, ea);
    let nb = strip_zeros_at(b, ib, eb);
    if ea - na != eb - nb {
        if ea - na < eb - nb {
            -1
        } else {
            1
        }
    } else {
        cmp_chars_at(a, na, ea, b, nb, eb)
    }
}

fn cmp_ident_at(a: &Vec<char>, ia: usize, ea: usize, b: &Vec<char>, ib: usize, eb: usize) -> (r:
    i8)
    requires
        ia <= ea <= a@.len(),
        ib <= eb <= b@.len(),
    ensures
        r as int == spec_cmp_ident(
            a@.subrange(ia as int, ea as int),
            b@.subrange(ib as int, eb as int),
        ),
{
    let num_a = is_numeric_at(a, ia, ea);
    let num_b = is_numeric_at(b, ib, eb);
    if num_a && num_b {
        cmp_numeric_at(a, ia, ea, b, ib, eb)
    } else if num_a {
        -1
    } else if num_b {
        1
    } else {
        cmp_chars_at(a, ia, ea, b, ib, eb)
    }
}

fn find_dot_at(a: &Vec<char>, ia: usize, ea: usize) -> (r: usize)
    requires
        ia <= ea <= a@.len(),
    ensures
        r - ia == spec_find_dot(a@.subrange(ia as int, ea as int)),
        ia <= r <= ea,
    decreases ea - ia,
{
    let ghost sa = a@.subrange(ia as int, ea as int);
    if ia == ea {
        ia
    } else if a[ia] == '.' {
        proof {
            assert(sa[0] == a@[ia as int]);
        }
        ia
    } else {
        proof {
            assert(sa[0] == a@[ia as int]);
            assert(sa.drop_first() =~= a@.subrange(ia + 1, ea as int));
        }
        find_dot_at(a, ia + 1, ea)
    }
}

fn cmp_pre_rec_at(a: &Vec<char>, ia: usize, ea: usize, b: &Vec<char>, ib: usize, eb: usize) -> (r:
    i8)
    requires
        ia <= ea <= a@.len(),
        ib <= eb <= b@.len(),
    ensures
        r as int == spec_cmp_pre_rec(
            a@.subrange(ia as int, ea as int),
            b@.subrange(ib as int, eb as int),
        ),
    decreases ea - ia,
{
    let ghost sa = a@.subrange(ia as int, ea as int);
    let ghost sb = b@.subrange(ib as int, eb as int);
    let pa = find_dot_at(a, ia, ea);
    let pb = find_dot_at(b, ib, eb);
    proof {
        assert(sa.subrange(0, pa - ia) =~= a@.subrange(ia as int, pa as int));
        assert(sb.subrange(0, pb - ib) =~= b@.subrange(ib as int, pb as int));
    }
    let c = cmp_ident_at(a, ia, pa, b, ib, pb);
    if c != 0 {
        c
    } else if pa >= ea && pb >= eb {
        0
    } else if pa >= ea {
        -1
    } else if pb >= eb {
        1
    } else {
        proof {
            assert(sa.subrange(spec_find_dot(sa) + 1, sa.len() as int) =~= a@.subrange(
                pa + 1,
                ea as int,
            ));
            assert(sb.subrange(spec_find_dot(sb) + 1, sb.len() as int) =~= b@.subrange(
                pb + 1,
                eb as int,
            ));
        }
        cmp_pre_rec_at(a, pa + 1, ea, b, pb + 1, eb)
    }
}

/// Three-way precedence comparison of two versions, negative when `a` has
/// lower precedence than `b`.
pub fn cmp_semver(a: &SemVer, b: &SemVer) -> (r: i8)
    ensures
        r as int == spec_cmp_semver(*a, *b),
{
    if a.major != b.major {
        if a.major < b.major {
            -1
        } else {
            1
        }
    } else if a.minor != b.minor {
        if a.minor < b.minor {
            -1
        } else {
            1
        }
    } else if a.patch != b.patch {
        if a.patch < b.patch {
            -1
        } else {
            1
        }
    } else {
        let ca = text::str_to_chars(a.pre.as_str());
        let cb = text::str_to_chars(b.pre.as_str());
        let na = ca.len();
        let nb = cb.len();
        proof {
            assert(ca@.subrange(0, ca@.len() as int) =~= a.pre@);
            assert(cb@.subrange(0, cb@.len() as int) =~= b.pre@);
        }
        if na == 0 && nb == 0 {
            0
        } else if na == 0 {
            1
        } else if nb == 0 {
            -1
        } else {
            cmp_pre_rec_at(&ca, 0, na, &cb, 0, nb)
        }
    }
}

/// Character comparison only returns -1, 0 or 1.
proof fn lemma_cmp_chars_range(a: Seq<char>, b: Seq<char>)
    ensures
        -1 <= spec_cmp_chars(a, b) <= 1,
    decreases a.len(),
{
    if a.len() > 0 && b.len() > 0 && a[0] == b[0] {
        lemma_cmp_chars_range(a.drop_first(), b.drop_first());
    }
}

proof fn lemma_cmp_ident_range(a: Seq<char>, b: Seq<char>)
    ensures
        -1 <= spec_cmp_ident(a, b) <= 1,
{
    lemma_cmp_chars_range(a, b);
    lemma_cmp_chars_range(spec_strip_zeros(a), spec_strip_zeros(b));
}

proof fn lemma_cmp_pre_rec_range(a: Seq<char>, b: Seq<char>)
    ensures
        -1 <= spec_cmp_pre_rec(a, b) <= 1,
    decreases a.len(),
{
    let pa = spec_find_dot(a);
    let pb = spec_find_dot(b);
    lemma_find_dot(a);
    lemma_find_dot(b);
    lemma_cmp_ident_range(a.subrange(0, pa), b.subrange(0, pb));
    if spec_cmp_ident(a.subrange(0, pa), b.subrange(0, pb)) == 0 && pa < a.len() && pb < b.len() {
        lemma_cmp_pre_rec_range(
            a.subrange(pa + 1, a.len() as int),
            b.subrange(pb + 1, b.len() as int),
        );
    }
}

/// Version precedence only returns -1, 0 or 1.
pub proof fn lemma_cmp_semver_range(a: SemVer, b: SemVer)
    ensures
        -1 <= spec_cmp_semver(a, b) <= 1,
{
    if a.major == b.major && a.minor == b.minor && a.patch == b.patch {
        if a.pre@.len() > 0 && b.pre@.len() > 0 {
            lemma_cmp_pre_rec_range(a.pre@, b.pre@);
        }
    }
}

/// Lexicographic character comparison is antisymmetric.
proof fn lemma_cmp_chars_anti(a: Seq<char>, b: Seq<char>)
    ensures
        spec_cmp_chars(a, b) == -spec_cmp_chars(b, a),
    decreases a.len(),
{
    if a.len() > 0 && b.len() > 0 && a[0] == b[0] {
        lemma_cmp_chars_anti(a.drop_first(), b.drop_first());
    }
}

proof fn lemma_cmp_ident_anti(a: Seq<char>, b: Seq<char>)
    ensures
        spec_cmp_ident(a, b) == -spec_cmp_ident(b, a),
{
    lemma_cmp_chars_anti(a, b);
    lemma_cmp_chars_anti(spec_strip_zeros(a), spec_strip_zeros(b));
}

proof fn lemma_cmp_pre_rec_anti(a: Seq<char>, b: Seq<char>)
    ensures
        spec_cmp_pre_rec(a, b) == -spec_cmp_pre_rec(b, a),
    decreases a.len(),
{
    let pa = spec_find_dot(a);
    let pb = spec_find_dot(b);
    lemma_find_dot(a);
    lemma_find_dot(b);
    lemma_cmp_ident_anti(a.subrange(0, pa), b.subrange(0, pb));
    if spec_cmp_ident(a.subrange(0, pa), b.subrange(0, pb)) == 0 && pa < a.len() && pb < b.len() {
        lemma_cmp_pre_rec_anti(
            a.subrange(pa + 1, a.len() as int),
            b.subrange(pb + 1, b.len() as int),
        );
    }
}

/// Version precedence is antisymmetric: swapping the arguments flips the
/// sign of the comparison.
pub proof fn lemma_cmp_semver_anti(a: SemVer, b: SemVer)
    ensures
        spec_cmp_semver(a, b) == -spec_cmp_semver(b, a),
{
    if a.major == b.major && a.minor == b.minor && a.patch == b.patch {
        if a.pre@.len() > 0 && b.pre@.len() > 0 {
            lemma_cmp_pre_rec_anti(a.pre@, b.pre@);
        }
    }
}

/// A calendar date, stored as plain year, month and day (UTC midnight).
#[derive(Debug, Clone, Copy, PartialEq, Eq, Structural)]
pub struct Date {
    pub year: u32,
    pub month: u8,
    pub day: u8,
}

/// True for leap years in the proleptic Gregorian calendar.
pub open spec fn spec_is_leap_year(y: u32) -> bool {
    (y % 4 == 0 && y % 100 != 0) || y % 400 == 0
}

/// Number of days in the given month of the given year; 0 for an invalid
/// month.
pub open spec fn spec_days_in_month(y: u32, m: u8) -> u8 {
    if m == 1 || m == 3 || m == 5 || m == 7 || m == 8 || m == 10 || m == 12 {
        31
    } else if m == 4 || m == 6 || m == 9 || m == 11 {
        30
    } else if m == 2 {
        if spec_is_leap_year(y) {
            29
        } else {
            28
        }
    } else {
        0
    }
}

impl Date {
    /// A date is valid when its month exists and its day exists in that
    /// month.
    pub open spec fn spec_valid(self) -> bool {
        1 <= self.month <= 12 && 1 <= self.day <= spec_days_in_month(self.year, self.month)
    }

    /// Builds a date after checking it against the calendar.
    pub fn new(year: u32, month: u8, day: u8) -> (r: Option<Date>)
        ensures
            r is Some <==> (Date { year, month, day }).spec_valid(),
            r is Some ==> r->Some_0 == (Date { year, month, day }),
    {
        let ok = 1 <= month && month <= 12 && 1 <= day && day <= days_in_month(year, month);
        if ok {
            Some(Date { year, month, day })
        } else {
            None
        }
    }
}

fn is_leap_year(y: u32) -> (r: bool)
    ensures
        r == spec_is_leap_year(y),
{
    (y % 4 == 0 && y % 100 != 0) || y % 400 == 0
}

pub(crate) fn days_in_month(y: u32, m: u8) -> (r: u8)
    ensures
        r == spec_days_in_month(y, m),
{
    if m == 1 || m == 3 || m == 5 || m == 7 || m == 8 || m == 10 || m == 12 {
        31
    } else if m == 4 || m == 6 || m == 9 || m == 11 {
        30
    } else if m == 2 {
        if is_leap_year(y) {
            29
        } else {
            28
        }
    } else {
        0
    }
}

/// Chronological three-way comparison of dates.
pub open spec fn spec_cmp_date(a: Date, b: Date) -> int {
    if a.year != b.year {
        spec_cmp_int(a.year as int, b.year as int)
    } else if a.month != b.month {
        spec_cmp_int(a.month as int, b.month as int)
    } else {
        spec_cmp_int(a.day as int, b.day as int)
    }
}

pub fn cmp_date(a: &Date, b: &Date) -> (r: i8)
    ensures
        r as int == spec_cmp_date(*a, *b),
{
    if a.year != b.year {
        if a.year < b.year {
            -1
        } else {
            1
        }
    } else if a.month != b.month {
        if a.month < b.month {
            -1
        } else {
            1
        }
    } else if a.day != b.day {
        if a.day < b.day {
            -1
        } else {
            1
        }
    } else {
        0
    }
}

/// The text of a date as the headline shows it: `YYYY-MM-DD`, zero padded.
pub open spec fn spec_date_str(d: Date) -> Seq<char> {
    text::spec_dec_pad(d.year as int, 4) + seq!['-'] + text::spec_dec_pad(d.month as int, 2)
        + seq!['-'] + text::spec_dec_pad(d.day as int, 2)
}

/// Appends the `YYYY-MM-DD` form of `d` to `out`.
pub fn append_date(out: &mut String, d: &Date)
    ensures
        final(out)@ == old(out)@ + spec_date_str(*d),
{
    proof {
        reveal_strlit("-");
    }
    text::append_dec_pad(out, d.year as u64, 4);
    out.append("-");
    text::append_dec_pad(out, d.month as u64, 2);
    out.append("-");
    text::append_dec_pad(out, d.day as u64, 2);
    proof {
        assert(out@ =~= old(out)@ + spec_date_str(*d));
    }
}

} // verus!
