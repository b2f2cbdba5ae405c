//! Parsing markdown into the changelog model.
//!
//! The document is split into sections line by line: a line that matches the
//! release-headline grammar closes the previous section. Each release body is
//! then classified line by line; anything unrecognized is kept as an exact
//! slice of the original text, never rebuilt from parsed pieces.

use vstd::prelude::*;

use crate::changelog::section::Section;
use crate::changelog::segment::{Conventional, Data, Message, Segment};
use crate::changelog::{lemma_cmp_release_anti, sort_releases, spec_cmp_release, spec_release_block, spec_release_layout, spec_release_le, spec_sorted_releases, ChangeLog, Version};
use crate::id::{spec_id_of, ObjectId};
use crate::text;
use crate::version::{semver_of, Date, SemVer};

verus! {

/// What the headline grammar accepts, at the specification level: nesting
/// depth, the parsed version fields (`None` for "unreleased"), and the date.
pub struct SpecHeadline {
    /// The number of leading `#` characters.
    pub level: int,
    /// Whether the literal `v` preceded the version.
    pub prefix_v: bool,
    /// The parsed semantic version, or `None` for the unreleased entry.
    pub version: Option<(u64, u64, u64, Seq<char>, Seq<char>)>,
    /// The date in the trailing parenthetical, if present.
    pub date: Option<Date>,
}

/// End of the run of `#` characters starting at `i`.
pub open spec fn spec_skip_hashes(s: Seq<char>, i: int, end: int) -> int
    decreases end - i,
{
    if i < end && s[i] == '#' {
        spec_skip_hashes(s, i + 1, end)
    } else {
        i
    }
}

/// End of the run of non-whitespace characters starting at `i`.
pub open spec fn spec_skip_non_ws(s: Seq<char>, i: int, end: int) -> int
    decreases end - i,
{
    if i < end && !text::spec_is_ws(s[i]) {
        spec_skip_non_ws(s, i + 1, end)
    } else {
        i
    }
}

/// The case-insensitive literal "unreleased" occurs at `i`.
pub open spec fn spec_unreleased_at(s: Seq<char>, i: int, end: int) -> bool {
    &&& i + 10 <= end
    &&& forall|k: int|
        0 <= k < 10 ==> text::spec_ci_eq(#[trigger] s[i + k], "unreleased"@[k])
}

/// The value of the `k` decimal digits at `[i, i+k)`.
pub open spec fn spec_digits_val(s: Seq<char>, i: int, k: int) -> int
    decreases k,
{
    if k <= 0 {
        0
    } else {
        spec_digits_val(s, i, k - 1) * 10 + text::spec_digit_val(s[i + k - 1])
    }
}

/// All `k` characters at `[i, i+k)` are decimal digits.
pub open spec fn spec_all_digits(s: Seq<char>, i: int, k: int) -> bool {
    forall|j: int| i <= j < i + k ==> text::spec_is_digit(#[trigger] s[j])
}

/// The date `(YYYY-MM-DD)` whose digits start at `i` (just after the opening
/// parenthesis), ending with the closing parenthesis; `None` when the shape
/// or the calendar rejects it.
pub open spec fn spec_date_at(s: Seq<char>, i: int, end: int) -> Option<Date> {
    if i + 11 <= end && spec_all_digits(s, i, 4) && s[i + 4] == '-' && spec_all_digits(s, i + 5, 2)
        && s[i + 7] == '-' && spec_all_digits(s, i + 8, 2) && s[i + 10] == ')' {
        let d = Date {
            year: spec_digits_val(s, i, 4) as u32,
            month: spec_digits_val(s, i + 5, 2) as u8,
            day: spec_digits_val(s, i + 8, 2) as u8,
        };
        if d.spec_valid() {
            Some(d)
        } else {
            None
        }
    } else {
        None
    }
}

/// What may follow the version in a headline: only whitespace, or a valid
/// parenthesized date and then only whitespace.
pub open spec fn spec_headline_tail(
    s: Seq<char>,
    pos: int,
    end: int,
    level: int,
    prefix_v: bool,
    version: Option<(u64, u64, u64, Seq<char>, Seq<char>)>,
) -> Option<SpecHeadline> {
    let j = text::spec_skip_ws(s, pos, end);
    if j >= end {
        Some(SpecHeadline { level, prefix_v, version, date: None })
    } else if s[j] == '(' {
        match spec_date_at(s, j + 1, end) {
            Some(d) => {
                if text::spec_skip_ws(s, j + 12, end) >= end {
                    Some(SpecHeadline { level, prefix_v, version, date: Some(d) })
                } else {
                    None
                }
            },
            None => None,
        }
    } else {
        None
    }
}

/// The unreleased branch of the headline grammar.
pub open spec fn spec_headline_unreleased(s: Seq<char>, i1: int, end: int, level: int) -> Option<
    SpecHeadline,
> {
    if spec_unreleased_at(s, i1, end) {
        spec_headline_tail(s, i1 + 10, end, level, false, None)
    } else {
        None
    }
}

/// The release-headline grammar over the line `[ls, le)` of `s`, terminator
/// included: leading hashes give the depth, then optional whitespace, then
/// either a semantic-version token (leading with a digit, with an optional
/// literal `v` before it) or the word "unreleased" in any case, then an
/// optional `(YYYY-MM-DD)` date, then only whitespace to the end. Any
/// deviation makes the whole line ordinary text.
pub open spec fn spec_headline(s: Seq<char>, ls: int, le: int) -> Option<SpecHeadline> {
    let hl = spec_skip_hashes(s, ls, le);
    let level = hl - ls;
    let i1 = text::spec_skip_ws(s, hl, le);
    if i1 + 1 < le && s[i1] == 'v' && text::spec_is_digit(s[i1 + 1]) && semver_of(
        s.subrange(i1 + 1, spec_skip_non_ws(s, i1 + 1, le)),
    ) is Some {
        let te = spec_skip_non_ws(s, i1 + 1, le);
        spec_headline_tail(
            s,
            te,
            le,
            level,
            true,
            Some(semver_of(s.subrange(i1 + 1, te))->Some_0),
        )
    } else if i1 < le && text::spec_is_digit(s[i1]) && semver_of(
        s.subrange(i1, spec_skip_non_ws(s, i1, le)),
    ) is Some {
        let te = spec_skip_non_ws(s, i1, le);
        spec_headline_tail(
            s,
            te,
            le,
            level,
            false,
            Some(semver_of(s.subrange(i1, te))->Some_0),
        )
    } else {
        spec_headline_unreleased(s, i1, le, level)
    }
}

/// A parsed release headline.
pub(crate) struct Headline {
    /// The number of leading `#` characters.
    pub level: usize,
    /// Whether the literal `v` preceded the version.
    pub has_prefix: bool,
    /// The parsed version, or `None` for the unreleased entry.
    pub version: Option<SemVer>,
    /// The date of the trailing parenthetical, if any.
    pub date: Option<Date>,
}

impl Headline {
    /// The parsed headline agrees with what the grammar specifies.
    pub(crate) open spec fn matches(self, sh: SpecHeadline) -> bool {
        &&& self.level == sh.level
        &&& self.has_prefix == sh.prefix_v
        &&& self.date == sh.date
        &&& (self.version is Some <==> sh.version is Some)
        &&& self.version is Some ==> self.version->Some_0.matches_parts(sh.version->Some_0)
    }
}

fn skip_hashes(chars: &Vec<char>, i: usize, end: usize) -> (r: usize)
    requires
        i <= end <= chars@.len(),
    ensures
        r == spec_skip_hashes(chars@, i as int, end as int),
        i <= r <= end,
    decreases end - i,
{
    if i < end && chars[i] == '#' {
        skip_hashes(chars, i + 1, end)
    } else {
        i
    }
}

fn skip_non_ws(chars: &Vec<char>, i: usize, end: usize) -> (r: usize)
    requires
        i <= end <= chars@.len(),
    ensures
        r == spec_skip_non_ws(chars@, i as int, end as int),
        i <= r <= end,
    decreases end - i,
{
    if i < end && !text::is_ws(chars[i]) {
        skip_non_ws(chars, i + 1, end)
    } else {
        i
    }
}

fn unreleased_at(chars: &Vec<char>, i: usize, end: usize) -> (r: bool)
    requires
        i <= end <= chars@.len(),
    ensures
        r == spec_unreleased_at(chars@, i as int, end as int),
{
    let lit = "unreleased";
    proof {
        reveal_strlit("unreleased");
    }
    if end - i < 10 {
        return false;
    }
    let mut k: usize = 0;
    while k < 10
        invariant
            k <= 10,
            i + 10 <= end <= chars@.len(),
            lit@ == "unreleased"@,
            lit@.len() == 10,
            forall|j: int| 0 <= j < k ==> text::spec_ci_eq(#[trigger] chars@[i + j], lit@[j]),
        decreases 10 - k,
    {
        if !text::ci_eq(chars[i + k], lit.get_char(k)) {
            return false;
        }
        k += 1;
    }
    true
}

/// Reads `k` decimal digits (`k` at most 4), or nothing.
fn read_digits(chars: &Vec<char>, i: usize, end: usize, k: usize) -> (r: Option<u32>)
    requires
        i <= end <= chars@.len(),
        1 <= k <= 4,
    ensures
        r is Some <==> (i + k <= end && spec_all_digits(chars@, i as int, k as int)),
        r is Some ==> r->Some_0 == spec_digits_val(chars@, i as int, k as int),
{
    if end - i < k {
        return None;
    }
    let mut j: usize = 0;
    let mut v: u32 = 0;
    while j < k
        invariant
            j <= k <= 4,
            i + k <= end <= chars@.len(),
            spec_all_digits(chars@, i as int, j as int),
            v == spec_digits_val(chars@, i as int, j as int),
            v < 10000,
        decreases k - j,
    {
        proof {
            lemma_digits_val_bound(chars@, i as int, j as int);
        }
        if !text::is_digit(chars[i + j]) {
            return None;
        }
        v = v * 10 + text::digit_val(chars[i + j]);
        j += 1;
    }
    Some(v)
}

/// The value of at most four digits stays below 10000.
proof fn lemma_digits_val_bound(s: Seq<char>, i: int, k: int)
    requires
        spec_all_digits(s, i, k),
        0 <= k <= 4,
    ensures
        0 <= spec_digits_val(s, i, k) < if k == 0 {
            1int
        } else if k == 1 {
            10int
        } else if k == 2 {
            100int
        } else if k == 3 {
            1000int
        } else {
            10000int
        },
    decreases k,
{
    if k > 0 {
        lemma_digits_val_bound(s, i, k - 1);
    }
}

/// Reads the `(YYYY-MM-DD)` date whose digits start at `i`.
fn date_at(chars: &Vec<char>, i: usize, end: usize) -> (r: Option<Date>)
    requires
        i <= end <= chars@.len(),
    ensures
        r == spec_date_at(chars@, i as int, end as int),
{
    if end - i < 11 {
        return None;
    }
    let year = match read_digits(chars, i, end, 4) {
        Some(v) => v,
        None => {
            return None;
        },
    };
    if chars[i + 4] != '-' {
        return None;
    }
    let month = match read_digits(chars, i + 5, end, 2) {
        Some(v) => v,
        None => {
            return None;
        },
    };
    if chars[i + 7] != '-' {
        return None;
    }
    let day = match read_digits(chars, i + 8, end, 2) {
        Some(v) => v,
        None => {
            return None;
        },
    };
    if chars[i + 10] != ')' {
        return None;
    }
    proof {
        lemma_digits_val_bound(chars@, i as int, 4);
        lemma_digits_val_bound(chars@, i + 5, 2);
        lemma_digits_val_bound(chars@, i + 8, 2);
    }
    Date::new(year, month as u8, day as u8)
}

/// Parses the trailing part of a headline after the version.
fn headline_tail(
    chars: &Vec<char>,
    pos: usize,
    end: usize,
    level: usize,
    has_prefix: bool,
    version: Option<SemVer>,
) -> (r: Option<Headline>)
    requires
        pos <= end <= chars@.len(),
    ensures
        ({
            let sh = spec_headline_tail(
                chars@,
                pos as int,
                end as int,
                level as int,
                has_prefix,
                spec_version_parts(version),
            );
            &&& r is Some <==> sh is Some
            &&& r is Some ==> r->Some_0.matches(sh->Some_0)
        }),
{
    let j = text::skip_ws(chars, pos, end);
    if j >= end {
        Some(Headline { level, has_prefix, version, date: None })
    } else if chars[j] == '(' {
        match date_at(chars, j + 1, end) {
            Some(d) => {
                if text::skip_ws(chars, j + 12, end) >= end {
                    Some(Headline { level, has_prefix, version, date: Some(d) })
                } else {
                    None
                }
            },
            None => None,
        }
    } else {
        None
    }
}

/// The specification-level view of an optional parsed version.
pub open spec fn spec_version_parts(v: Option<SemVer>) -> Option<
    (u64, u64, u64, Seq<char>, Seq<char>),
> {
    match v {
        Some(sv) => Some((sv.major, sv.minor, sv.patch, sv.pre@, sv.build@)),
        None => None,
    }
}

/// Parses the line `[ls, le)` as a release headline, or nothing.
pub(crate) fn parse_headline(chars: &Vec<char>, s: &str, ls: usize, le: usize) -> (r: Option<
    Headline,
>)
    requires
        chars@ == s@,
        ls <= le <= chars@.len(),
    ensures
        ({
            let sh = spec_headline(chars@, ls as int, le as int);
            &&& r is Some <==> sh is Some
            &&& r is Some ==> r->Some_0.matches(sh->Some_0)
            &&& r is Some ==> (r->Some_0.level as int) < le - ls
        }),
{
    let hl = skip_hashes(chars, ls, le);
    let level = hl - ls;
    let i1 = text::skip_ws(chars, hl, le);
    if i1 < le && i1 + 1 < le && chars[i1] == 'v' && text::is_digit(chars[i1 + 1]) {
        let te = skip_non_ws(chars, i1 + 1, le);
        let token = text::slice_string(s, i1 + 1, te);
        match crate::version::semver_parse(token.as_str()) {
            Some(v) => {
                proof {
                    assert(spec_version_parts(Some(v)) == semver_of(
                        chars@.subrange(i1 + 1, te as int),
                    ));
                }
                return headline_tail(chars, te, le, level, true, Some(v));
            },
            None => {},
        }
    }
    if i1 < le && text::is_digit(chars[i1]) {
        let te = skip_non_ws(chars, i1, le);
        let token = text::slice_string(s, i1, te);
        match crate::version::semver_parse(token.as_str()) {
            Some(v) => {
                proof {
                    assert(spec_version_parts(Some(v)) == semver_of(
                        chars@.subrange(i1 as int, te as int),
                    ));
                }
                return headline_tail(chars, te, le, level, false, Some(v));
            },
            None => {},
        }
    }
    headline_unreleased(chars, i1, le, level)
}

/// No two ids in the list decode to the same hash.
pub open spec fn spec_distinct_ids(ids: Seq<ObjectId>) -> bool {
    forall|i: int, j: int|
        0 <= i < j < ids.len() ==> (#[trigger] ids[i]).view() != (#[trigger] ids[j]).view()
}

/// The hash a generated message is traced to, if the message is generated.
pub open spec fn spec_gen_id(m: Message) -> Option<Seq<u8>> {
    match m {
        Message::Generated { id, .. } => Some(id.view()),
        Message::User { .. } => None,
    }
}

/// No two generated messages in the list are traced to the same hash.
pub open spec fn spec_distinct_gen(ms: Seq<Message>) -> bool {
    forall|i: int, j: int|
        0 <= i < j < ms.len() && spec_gen_id(#[trigger] ms[i]) is Some && spec_gen_id(
            #[trigger] ms[j],
        ) is Some ==> spec_gen_id(ms[i]) != spec_gen_id(ms[j])
}

/// `m` is a contiguous slice of `s` inside the window `[lo, hi]`.
pub open spec fn spec_slice_of(m: Seq<char>, s: Seq<char>, lo: int, hi: int) -> bool {
    exists|a: int, b: int| lo <= a <= b <= hi && m == #[trigger] s.subrange(a, b)
}

/// End of the run of plain spaces starting at `i`.
pub open spec fn spec_skip_spaces(s: Seq<char>, i: int, end: int) -> int
    decreases end - i,
{
    if i < end && s[i] == ' ' {
        spec_skip_spaces(s, i + 1, end)
    } else {
        i
    }
}

fn skip_spaces(chars: &Vec<char>, i: usize, end: usize) -> (r: usize)
    requires
        i <= end <= chars@.len(),
    ensures
        r == spec_skip_spaces(chars@, i as int, end as int),
        i <= r <= end,
    decreases end - i,
{
    if i < end && chars[i] == ' ' {
        skip_spaces(chars, i + 1, end)
    } else {
        i
    }
}

/// A markdown heading on the line `[ls, le)`: one to six `#` at the first
/// column followed by whitespace or the line end. Gives the depth and where
/// the title text starts.
pub open spec fn spec_heading_at(s: Seq<char>, ls: int, le: int) -> Option<(int, int)> {
    let k = spec_skip_hashes(s, ls, le);
    let d = k - ls;
    if 1 <= d <= 6 && (k >= le || text::spec_is_ws(s[k])) {
        Some((d, text::spec_skip_ws(s, k, le)))
    } else {
        None
    }
}

fn heading_at(chars: &Vec<char>, ls: usize, le: usize) -> (r: Option<(usize, usize)>)
    requires
        ls <= le <= chars@.len(),
    ensures
        ({
            let sh = spec_heading_at(chars@, ls as int, le as int);
            &&& r is Some <==> sh is Some
            &&& r is Some ==> {
                &&& r->Some_0.0 as int == sh->Some_0.0
                &&& r->Some_0.1 as int == sh->Some_0.1
                &&& ls <= r->Some_0.1 <= le
                &&& 1 <= r->Some_0.0 <= 6
            }
        }),
{
    let k = skip_hashes(chars, ls, le);
    let d = k - ls;
    if 1 <= d && d <= 6 && (k >= le || text::is_ws(chars[k])) {
        Some((d, text::skip_ws(chars, k, le)))
    } else {
        None
    }
}

/// The line `[ls, le)` is a removed-message marker: the removed-id tag with a
/// 40-digit hash, then only whitespace.
pub open spec fn spec_removed_at(s: Seq<char>, ls: int, le: int) -> bool {
    &&& text::spec_match_at(s, ls, le, "<csr-removed-"@)
    &&& ls + 55 <= le
    &&& forall|k: int| ls + 13 <= k < ls + 53 ==> text::spec_is_hex(#[trigger] s[k])
    &&& s[ls + 53] == '/'
    &&& s[ls + 54] == '>'
    &&& text::spec_all_ws(s, ls + 55, le)
}

fn removed_at(chars: &Vec<char>, ls: usize, le: usize) -> (r: Option<ObjectId>)
    requires
        ls <= le <= chars@.len(),
    ensures
        r is Some <==> spec_removed_at(chars@, ls as int, le as int),
        r is Some ==> {
            &&& r->Some_0.wf()
            &&& r->Some_0.view() == spec_id_of(chars@.subrange(ls + 13, ls + 53))
        },
{
    proof {
        reveal_strlit("<csr-removed-");
    }
    if !text::match_at(chars, ls, le, "<csr-removed-") {
        return None;
    }
    if le - ls < 55 {
        return None;
    }
    let id = match ObjectId::from_hex_range(chars, ls + 13, le) {
        Some(id) => id,
        None => {
            return None;
        },
    };
    if chars[ls + 53] == '/' && chars[ls + 54] == '>' && text::all_ws(chars, ls + 55, le) {
        Some(id)
    } else {
        None
    }
}

/// A generated-message marker at `p`: the id tag with a 40-digit hash.
pub open spec fn spec_gen_marker_at(s: Seq<char>, p: int, end: int) -> bool {
    &&& text::spec_match_at(s, p, end, "<csr-id-"@)
    &&& p + 50 <= end
    &&& forall|k: int| p + 8 <= k < p + 48 ==> text::spec_is_hex(#[trigger] s[k])
    &&& s[p + 48] == '/'
    &&& s[p + 49] == '>'
}

fn gen_marker_at(chars: &Vec<char>, p: usize, end: usize) -> (r: Option<ObjectId>)
    requires
        p <= end <= chars@.len(),
    ensures
        r is Some <==> spec_gen_marker_at(chars@, p as int, end as int),
        r is Some ==> {
            &&& r->Some_0.wf()
            &&& r->Some_0.view() == spec_id_of(chars@.subrange(p + 8, p + 48))
        },
{
    proof {
        reveal_strlit("<csr-id-");
    }
    if !text::match_at(chars, p, end, "<csr-id-") {
        return None;
    }
    if end - p < 50 {
        return None;
    }
    let id = match ObjectId::from_hex_range(chars, p + 8, end) {
        Some(id) => id,
        None => {
            return None;
        },
    };
    if chars[p + 48] == '/' && chars[p + 49] == '>' {
        Some(id)
    } else {
        None
    }
}

/// The text after a matched group title is, once trimmed, exactly the
/// breaking-change marker.
pub open spec fn spec_breaking_rest(s: Seq<char>, i: int, end: int) -> bool {
    let a = text::spec_skip_ws(s, i, end);
    let b = text::spec_trim_end(s, a, end);
    b - a == 10 && text::spec_match_at(s, a, b, "(BREAKING)"@)
}

fn breaking_rest(chars: &Vec<char>, i: usize, end: usize) -> (r: bool)
    requires
        i <= end <= chars@.len(),
    ensures
        r == spec_breaking_rest(chars@, i as int, end as int),
{
    proof {
        reveal_strlit("(BREAKING)");
    }
    let a = text::skip_ws(chars, i, end);
    let b = text::trim_end(chars, a, end);
    b - a == 10 && text::match_at(chars, a, b, "(BREAKING)")
}

/// Which commit-type group a heading title opens: the known titles are
/// matched as case-insensitive prefixes, and the remaining text may carry the
/// breaking-change marker. Gives the type tag and the breaking flag.
pub open spec fn spec_kind_for_title(s: Seq<char>, ts: int, te: int) -> Option<(Seq<char>, bool)> {
    if text::spec_ci_match_at(s, ts, te, "Fixed"@) {
        Some(("fix"@, spec_breaking_rest(s, ts + "Fixed"@.len(), te)))
    } else if text::spec_ci_match_at(s, ts, te, "Added"@) {
        Some(("add"@, spec_breaking_rest(s, ts + "Added"@.len(), te)))
    } else if text::spec_ci_match_at(s, ts, te, "New Features"@) {
        Some(("feat"@, spec_breaking_rest(s, ts + "New Features"@.len(), te)))
    } else if text::spec_ci_match_at(s, ts, te, "Reverted"@) {
        Some(("revert"@, spec_breaking_rest(s, ts + "Reverted"@.len(), te)))
    } else if text::spec_ci_match_at(s, ts, te, "Removed"@) {
        Some(("remove"@, spec_breaking_rest(s, ts + "Removed"@.len(), te)))
    } else if text::spec_ci_match_at(s, ts, te, "Changed"@) {
        Some(("change"@, spec_breaking_rest(s, ts + "Changed"@.len(), te)))
    } else if text::spec_ci_match_at(s, ts, te, "Documentation"@) {
        Some(("docs"@, spec_breaking_rest(s, ts + "Documentation"@.len(), te)))
    } else if text::spec_ci_match_at(s, ts, te, "Performance"@) {
        Some(("perf"@, spec_breaking_rest(s, ts + "Performance"@.len(), te)))
    } else if text::spec_ci_match_at(s, ts, te, "Refactor"@) {
        Some(("refactor"@, spec_breaking_rest(s, ts + "Refactor"@.len(), te)))
    } else if text::spec_ci_match_at(s, ts, te, "Style"@) {
        Some(("style"@, spec_breaking_rest(s, ts + "Style"@.len(), te)))
    } else if text::spec_ci_match_at(s, ts, te, "Other"@) {
        Some(("other"@, spec_breaking_rest(s, ts + "Other"@.len(), te)))
    } else {
        None
    }
}

fn kind_for_title(chars: &Vec<char>, ts: usize, te: usize) -> (r: Option<(&'static str, bool)>)
    requires
        ts <= te <= chars@.len(),
    ensures
        ({
            let sk = spec_kind_for_title(chars@, ts as int, te as int);
            &&& r is Some <==> sk is Some
            &&& r is Some ==> r->Some_0.0@ == sk->Some_0.0 && r->Some_0.1 == sk->Some_0.1
        }),
{
    proof {
        reveal_strlit("Fixed");
        reveal_strlit("Added");
        reveal_strlit("New Features");
        reveal_strlit("Reverted");
        reveal_strlit("Removed");
        reveal_strlit("Changed");
        reveal_strlit("Documentation");
        reveal_strlit("Performance");
        reveal_strlit("Refactor");
        reveal_strlit("Style");
        reveal_strlit("Other");
    }
    if text::ci_match_at(chars, ts, te, "Fixed") {
        Some(("fix", breaking_rest(chars, ts + 5, te)))
    } else if text::ci_match_at(chars, ts, te, "Added") {
        Some(("add", breaking_rest(chars, ts + 5, te)))
    } else if text::ci_match_at(chars, ts, te, "New Features") {
        Some(("feat", breaking_rest(chars, ts + 12, te)))
    } else if text::ci_match_at(chars, ts, te, "Reverted") {
        Some(("revert", breaking_rest(chars, ts + 8, te)))
    } else if text::ci_match_at(chars, ts, te, "Removed") {
        Some(("remove", breaking_rest(chars, ts + 7, te)))
    } else if text::ci_match_at(chars, ts, te, "Changed") {
        Some(("change", breaking_rest(chars, ts + 7, te)))
    } else if text::ci_match_at(chars, ts, te, "Documentation") {
        Some(("docs", breaking_rest(chars, ts + 13, te)))
    } else if text::ci_match_at(chars, ts, te, "Performance") {
        Some(("perf", breaking_rest(chars, ts + 11, te)))
    } else if text::ci_match_at(chars, ts, te, "Refactor") {
        Some(("refactor", breaking_rest(chars, ts + 8, te)))
    } else if text::ci_match_at(chars, ts, te, "Style") {
        Some(("style", breaking_rest(chars, ts + 5, te)))
    } else if text::ci_match_at(chars, ts, te, "Other") {
        Some(("other", breaking_rest(chars, ts + 5, te)))
    } else {
        None
    }
}

/// Which generated-report block a heading title names, as a case-sensitive
/// prefix: the statistics, lint-fix or details block.
pub open spec fn spec_report_for_title(s: Seq<char>, ts: int, te: int) -> Option<int> {
    if text::spec_match_at(s, ts, te, "Commit Statistics"@) {
        Some(0int)
    } else if text::spec_match_at(s, ts, te, "Thanks Clippy"@) {
        Some(1int)
    } else if text::spec_match_at(s, ts, te, "Details"@) {
        Some(2int)
    } else {
        None
    }
}

fn report_for_title(chars: &Vec<char>, ts: usize, te: usize) -> (r: Option<u8>)
    requires
        ts <= te <= chars@.len(),
    ensures
        ({
            let sk = spec_report_for_title(chars@, ts as int, te as int);
            &&& r is Some <==> sk is Some
            &&& r is Some ==> r->Some_0 as int == sk->Some_0
        }),
{
    if text::match_at(chars, ts, te, "Commit Statistics") {
        Some(0)
    } else if text::match_at(chars, ts, te, "Thanks Clippy") {
        Some(1)
    } else if text::match_at(chars, ts, te, "Details") {
        Some(2)
    } else {
        None
    }
}

/// A list item starting on the line `[ls, le)`: up to two spaces of indent,
/// a dash or star marker, then whitespace or the line end. Gives where the
/// item text starts.
pub open spec fn spec_item_start(s: Seq<char>, ls: int, le: int) -> Option<int> {
    let a = spec_skip_spaces(s, ls, le);
    if a - ls <= 2 && a < le && (s[a] == '-' || s[a] == '*') && (a + 1 >= le || text::spec_is_ws(
        s[a + 1],
    )) {
        if a + 1 < le && s[a + 1] == ' ' {
            Some(a + 2)
        } else {
            Some(a + 1)
        }
    } else {
        None
    }
}

fn item_start(chars: &Vec<char>, ls: usize, le: usize) -> (r: Option<usize>)
    requires
        ls <= le <= chars@.len(),
    ensures
        ({
            let si = spec_item_start(chars@, ls as int, le as int);
            &&& r is Some <==> si is Some
            &&& r is Some ==> r->Some_0 as int == si->Some_0 && ls <= r->Some_0 <= le
        }),
{
    let a = skip_spaces(chars, ls, le);
    if a - ls <= 2 && a < le && (chars[a] == '-' || chars[a] == '*') && (a + 1 >= le || text::is_ws(
        chars[a + 1],
    )) {
        if a + 1 < le && chars[a + 1] == ' ' {
            Some(a + 2)
        } else {
            Some(a + 1)
        }
    } else {
        None
    }
}

/// Consumes the lines of an unknown-content block up to and including its
/// closing tag, appending the content between the tags to `unknown`.
fn consume_unknown(chars: &Vec<char>, s: &str, start: usize, be: usize, unknown: &mut String) -> (r:
    usize)
    requires
        chars@ == s@,
        start <= be <= chars@.len(),
    ensures
        r as int == spec_consume_unknown(chars@, start as int, be as int).0,
        final(unknown)@ == old(unknown)@ + spec_consume_unknown(chars@, start as int, be as int).1,
        start <= r <= be,
{
    proof {
        reveal_strlit("</csr-unknown>");
        lemma_consume_unknown_bounds(chars@, start as int, be as int);
    }
    let ghost un0 = unknown@;
    let mut i = start;
    while i < be
        invariant
            chars@ == s@,
            un0 == old(unknown)@,
            start <= i <= be <= chars@.len(),
            spec_consume_unknown(chars@, start as int, be as int).0 == spec_consume_unknown(
                chars@,
                i as int,
                be as int,
            ).0,
            un0 + spec_consume_unknown(chars@, start as int, be as int).1 == unknown@
                + spec_consume_unknown(chars@, i as int, be as int).1,
        decreases be - i,
    {
        let le = text::line_end(chars, i, be);
        let mut q = i;
        let mut found = false;
        while q < le && !found
            invariant
                i <= q <= le <= chars@.len(),
                found ==> q < le && text::spec_match_at(chars@, q as int, le as int, "</csr-unknown>"@),
                forall|j: int|
                    i <= j < q ==> !#[trigger] text::spec_match_at(
                        chars@,
                        j,
                        le as int,
                        "</csr-unknown>"@,
                    ),
            decreases (if found { 0int } else { 1int }), le - q,
        {
            if text::match_at(chars, q, le, "</csr-unknown>") {
                found = true;
            } else {
                q += 1;
            }
        }
        proof {
            lemma_find_tag_bounds(chars@, i as int, le as int);
            let ft = spec_find_tag(chars@, i as int, le as int);
            if found {
                assert(text::spec_match_at(chars@, q as int, le as int, "</csr-unknown>"@));
                assert(ft == q as int);
            } else {
                assert(q == le);
                if ft < le {
                    assert(text::spec_match_at(chars@, ft, le as int, "</csr-unknown>"@));
                }
                assert(ft == le as int);
            }
        }
        if found {
            if q > i {
                let part = text::slice_string(s, i, q);
                unknown.append(part.as_str());
            }
            proof {
                assert(spec_consume_unknown(chars@, i as int, be as int) == (
                    le as int,
                    chars@.subrange(i as int, q as int),
                ));
                if q == i {
                    assert(chars@.subrange(i as int, q as int) =~= Seq::<char>::empty());
                    assert(unknown@ =~= unknown@ + chars@.subrange(i as int, q as int));
                }
                assert(un0 + spec_consume_unknown(chars@, start as int, be as int).1 =~= unknown@);
            }
            return le;
        }
        let part = text::slice_string(s, i, le);
        unknown.append(part.as_str());
        proof {
            let rest = spec_consume_unknown(chars@, le as int, be as int);
            assert(spec_consume_unknown(chars@, i as int, be as int) == (
                rest.0,
                chars@.subrange(i as int, le as int) + rest.1,
            ));
            assert(un0 + spec_consume_unknown(chars@, start as int, be as int).1 =~= unknown@
                + rest.1);
        }
        i = le;
    }
    proof {
        assert(spec_consume_unknown(chars@, i as int, be as int) == (
            be as int,
            Seq::<char>::empty(),
        ));
        assert(un0 + spec_consume_unknown(chars@, start as int, be as int).1 =~= unknown@);
    }
    be
}

/// Skips the discarded content of a generated-report block: everything up to
/// the next heading at the report's depth or above.
fn skip_report(chars: &Vec<char>, start: usize, be: usize, d: usize) -> (r: usize)
    requires
        start <= be <= chars@.len(),
    ensures
        r as int == spec_skip_report(chars@, start as int, be as int, d as int),
        start <= r <= be,
{
    proof {
        lemma_skip_report_bounds(chars@, start as int, be as int, d as int);
    }
    let mut i = start;
    while i < be
        invariant
            start <= i <= be <= chars@.len(),
            spec_skip_report(chars@, start as int, be as int, d as int) == spec_skip_report(
                chars@,
                i as int,
                be as int,
                d as int,
            ),
        decreases be - i,
    {
        let le = text::line_end(chars, i, be);
        match heading_at(chars, i, le) {
            Some((d2, _)) => {
                if d2 <= d {
                    return i;
                }
            },
            None => {},
        }
        i = le;
    }
    be
}

/// Appends an id unless an equal one is already in the list: first
/// occurrence wins, insertion order is kept.
fn push_unique(ids: &mut Vec<ObjectId>, id: ObjectId)
    requires
        spec_distinct_ids(old(ids)@),
        forall|k: int| 0 <= k < old(ids)@.len() ==> (#[trigger] old(ids)@[k]).wf(),
        id.wf(),
    ensures
        spec_distinct_ids(final(ids)@),
        forall|k: int| 0 <= k < final(ids)@.len() ==> (#[trigger] final(ids)@[k]).wf(),
        (exists|k: int|
            0 <= k < old(ids)@.len() && (#[trigger] old(ids)@[k]).view() == id.view())
            ==> final(ids)@ == old(ids)@,
        !(exists|k: int|
            0 <= k < old(ids)@.len() && (#[trigger] old(ids)@[k]).view() == id.view())
            ==> final(ids)@ == old(ids)@.push(id),
        abs_ids(final(ids)@) == spec_push_unique_id(abs_ids(old(ids)@), id.view()),
{
    let n = ids.len();
    let mut k: usize = 0;
    while k < n
        invariant
            k <= n,
            n == ids@.len(),
            ids@ == old(ids)@,
            id.wf(),
            spec_distinct_ids(ids@),
            forall|j: int| 0 <= j < ids@.len() ==> (#[trigger] ids@[j]).wf(),
            forall|j: int| 0 <= j < k ==> (#[trigger] ids@[j]).view() != id.view(),
        decreases n - k,
    {
        if ids[k].eq_id(&id) {
            proof {
                lemma_abs_ids_index(ids@);
                assert(abs_ids(ids@)[k as int] == id.view());
            }
            return ;
        }
        k += 1;
    }
    proof {
        lemma_abs_ids_index(ids@);
        assert forall|j: int| 0 <= j < abs_ids(ids@).len() implies #[trigger] abs_ids(ids@)[j]
            != id.view() by {
            assert(abs_ids(ids@)[j] == ids@[j].view());
        }
        assert(!(exists|j: int| 0 <= j < abs_ids(ids@).len() && #[trigger] abs_ids(ids@)[j]
            == id.view()));
    }
    let ghost pre = ids@;
    ids.push(id);
    proof {
        assert(ids@.drop_last() =~= pre);
        assert(abs_ids(ids@) == abs_ids(pre).push(id.view()));
        assert forall|i: int, j: int|
            0 <= i < j < ids@.len() implies (#[trigger] ids@[i]).view() != (
        #[trigger] ids@[j]).view() by {
            if j == ids@.len() - 1 {
                assert(ids@[i] == old(ids)@[i]);
            } else {
                assert(ids@[i] == old(ids)@[i] && ids@[j] == old(ids)@[j]);
            }
        }
        assert forall|k2: int| 0 <= k2 < ids@.len() implies (#[trigger] ids@[k2]).wf() by {
            if k2 < ids@.len() - 1 {
                assert(ids@[k2] == old(ids)@[k2]);
            } else {
                assert(ids@[k2] == id);
            }
        }
    }
}

/// What must hold of one message for the section's contract: a generated
/// entry has a real hash, a hand-authored one is an exact slice of the body.
pub open spec fn spec_msg_ok(m: Message, s: Seq<char>, lo: int, hi: int) -> bool {
    match m {
        Message::Generated { id, .. } => id.wf(),
        Message::User { markdown } => spec_slice_of(markdown@, s, lo, hi),
    }
}

/// What must hold of a commit-type group built from the body `[lo, hi)` of
/// `s`: removed ids and generated-message ids are deduplicated, and every
/// hand-authored entry is an exact slice of the body.
pub open spec fn spec_conv_ok(c: Conventional, s: Seq<char>, lo: int, hi: int) -> bool {
    &&& spec_distinct_ids(c.removed@)
    &&& forall|k: int| 0 <= k < c.removed@.len() ==> (#[trigger] c.removed@[k]).wf()
    &&& spec_distinct_gen(c.messages@)
    &&& forall|k: int| 0 <= k < c.messages@.len() ==> spec_msg_ok(#[trigger] c.messages@[k], s, lo, hi)
}

/// What must hold of one built segment: free-form content is an exact slice
/// of the body, and groups obey `spec_conv_ok`.
pub open spec fn spec_seg_ok(g: Segment, s: Seq<char>, lo: int, hi: int) -> bool {
    match g {
        Segment::User { markdown } => spec_slice_of(markdown@, s, lo, hi),
        Segment::Conventional(c) => spec_conv_ok(c, s, lo, hi),
        Segment::Clippy(d) => d is Parsed,
        Segment::Statistics(d) => d is Parsed,
        Segment::Details(d) => d is Parsed,
    }
}

/// The mathematical value of one group entry, for the parser's contract.
#[verifier::ext_equal]
pub enum SpecMessage {
    /// A machine-authored entry: hash bytes, title text, optional body text.
    Generated { id: Seq<u8>, title: Seq<char>, body: Option<Seq<char>> },
    /// A hand-authored entry, as its exact text.
    User { markdown: Seq<char> },
}

/// The mathematical value of one commit-type group.
#[verifier::ext_equal]
pub struct SpecConv {
    /// The type tag text.
    pub kind: Seq<char>,
    /// The breaking-change flag.
    pub breaking: bool,
    /// The removed hashes, in order.
    pub removed: Seq<Seq<u8>>,
    /// The entries, in order.
    pub messages: Seq<SpecMessage>,
}

/// The mathematical value of one segment.
#[verifier::ext_equal]
pub enum SpecSegment {
    /// Free-form content, as its exact text.
    User { markdown: Seq<char> },
    /// A commit-type group.
    Conv { conv: SpecConv },
    /// The lint-fix report marker.
    Clippy,
    /// The statistics report marker.
    Statistics,
    /// The details report marker.
    Details,
}

/// The value of one group entry.
pub open spec fn abs_message(m: Message) -> SpecMessage {
    match m {
        Message::Generated { id, title, body } => SpecMessage::Generated {
            id: id.view(),
            title: title@,
            body: match body {
                Some(b) => Some(b@),
                None => None,
            },
        },
        Message::User { markdown } => SpecMessage::User { markdown: markdown@ },
    }
}

/// The values of a list of group entries, in order.
pub open spec fn abs_messages(ms: Seq<Message>) -> Seq<SpecMessage>
    decreases ms.len(),
{
    if ms.len() == 0 {
        Seq::empty()
    } else {
        abs_messages(ms.drop_last()).push(abs_message(ms.last()))
    }
}

/// The hash bytes of a list of ids, in order.
pub open spec fn abs_ids(ids: Seq<ObjectId>) -> Seq<Seq<u8>>
    decreases ids.len(),
{
    if ids.len() == 0 {
        Seq::empty()
    } else {
        abs_ids(ids.drop_last()).push(ids.last().view())
    }
}

/// The value of one commit-type group.
pub open spec fn abs_conv(c: Conventional) -> SpecConv {
    SpecConv {
        kind: c.kind@,
        breaking: c.is_breaking,
        removed: abs_ids(c.removed@),
        messages: abs_messages(c.messages@),
    }
}

/// The value of one segment.
pub open spec fn abs_segment(g: Segment) -> SpecSegment {
    match g {
        Segment::User { markdown } => SpecSegment::User { markdown: markdown@ },
        Segment::Conventional(c) => SpecSegment::Conv { conv: abs_conv(c) },
        Segment::Clippy(_) => SpecSegment::Clippy,
        Segment::Statistics(_) => SpecSegment::Statistics,
        Segment::Details(_) => SpecSegment::Details,
    }
}

/// The values of a list of segments, in order.
pub open spec fn abs_segments(gs: Seq<Segment>) -> Seq<SpecSegment>
    decreases gs.len(),
{
    if gs.len() == 0 {
        Seq::empty()
    } else {
        abs_segments(gs.drop_last()).push(abs_segment(gs.last()))
    }
}

/// The list of id values indexes pointwise through the ids.
proof fn lemma_abs_ids_index(ids: Seq<ObjectId>)
    ensures
        abs_ids(ids).len() == ids.len(),
        forall|k: int| 0 <= k < ids.len() ==> abs_ids(ids)[k] == (#[trigger] ids[k]).view(),
    decreases ids.len(),
{
    if ids.len() > 0 {
        lemma_abs_ids_index(ids.drop_last());
        assert forall|k: int|
            0 <= k < ids.len() implies abs_ids(ids)[k] == (#[trigger] ids[k]).view() by {
            if k < ids.len() - 1 {
                assert(ids.drop_last()[k] == ids[k]);
            }
        }
    }
}

/// The list of entry values indexes pointwise through the entries.
proof fn lemma_abs_messages_index(ms: Seq<Message>)
    ensures
        abs_messages(ms).len() == ms.len(),
        forall|k: int| 0 <= k < ms.len() ==> abs_messages(ms)[k] == abs_message(#[trigger] ms[k]),
    decreases ms.len(),
{
    if ms.len() > 0 {
        lemma_abs_messages_index(ms.drop_last());
        assert forall|k: int|
            0 <= k < ms.len() implies abs_messages(ms)[k] == abs_message(#[trigger] ms[k]) by {
            if k < ms.len() - 1 {
                assert(ms.drop_last()[k] == ms[k]);
            }
        }
    }
}

/// First position at or after `i` where the closing unknown-content tag
/// starts inside the line ending at `le`; `le` when there is none.
pub open spec fn spec_find_tag(s: Seq<char>, i: int, le: int) -> int
    decreases le - i,
{
    if 0 <= i < le {
        if text::spec_match_at(s, i, le, "</csr-unknown>"@) {
            i
        } else {
            spec_find_tag(s, i + 1, le)
        }
    } else {
        le
    }
}

proof fn lemma_find_tag_bounds(s: Seq<char>, i: int, le: int)
    requires
        0 <= i <= le,
    ensures
        i <= spec_find_tag(s, i, le) <= le,
        forall|q: int|
            i <= q < spec_find_tag(s, i, le) ==> !#[trigger] text::spec_match_at(
                s,
                q,
                le,
                "</csr-unknown>"@,
            ),
        spec_find_tag(s, i, le) < le ==> text::spec_match_at(
            s,
            spec_find_tag(s, i, le),
            le,
            "</csr-unknown>"@,
        ),
    decreases le - i,
{
    if 0 <= i < le && !text::spec_match_at(s, i, le, "</csr-unknown>"@) {
        lemma_find_tag_bounds(s, i + 1, le);
    }
}

/// What consuming an unknown-content block yields: the position after the
/// line holding the closing tag (or the end of the body), and the exact
/// text of the lines between the tags.
pub open spec fn spec_consume_unknown(s: Seq<char>, i: int, be: int) -> (int, Seq<char>)
    decreases be - i,
    via spec_consume_unknown_dec
{
    if 0 <= i < be && be <= s.len() {
        let le = text::spec_line_end(s, i, be);
        let q = spec_find_tag(s, i, le);
        if q < le {
            (le, s.subrange(i, q))
        } else {
            let rest = spec_consume_unknown(s, le, be);
            (rest.0, s.subrange(i, le) + rest.1)
        }
    } else {
        (be, Seq::empty())
    }
}

#[via_fn]
proof fn spec_consume_unknown_dec(s: Seq<char>, i: int, be: int) {
    if 0 <= i < be && be <= s.len() {
        text::lemma_line_end_bounds(s, i, be);
    }
}

/// The consumed block never moves backwards and stays inside the body.
pub proof fn lemma_consume_unknown_bounds(s: Seq<char>, i: int, be: int)
    requires
        0 <= i <= be <= s.len(),
    ensures
        i <= spec_consume_unknown(s, i, be).0 <= be,
        i < be ==> spec_consume_unknown(s, i, be).0 >= text::spec_line_end(s, i, be),
    decreases be - i,
{
    if 0 <= i < be {
        text::lemma_line_end_bounds(s, i, be);
        let le = text::spec_line_end(s, i, be);
        lemma_consume_unknown_bounds(s, le, be);
    }
}

/// Where a discarded report block ends: the first line at or after `i` that
/// is a heading at the report's depth or above, or the end of the body.
pub open spec fn spec_skip_report(s: Seq<char>, i: int, be: int, d: int) -> int
    decreases be - i,
    via spec_skip_report_dec
{
    if 0 <= i < be && be <= s.len() {
        let le = text::spec_line_end(s, i, be);
        if spec_heading_at(s, i, le) is Some && spec_heading_at(s, i, le)->Some_0.0 <= d {
            i
        } else {
            spec_skip_report(s, le, be, d)
        }
    } else {
        be
    }
}

#[via_fn]
proof fn spec_skip_report_dec(s: Seq<char>, i: int, be: int, d: int) {
    if 0 <= i < be && be <= s.len() {
        text::lemma_line_end_bounds(s, i, be);
    }
}

/// The discard never moves backwards and stays inside the body.
pub proof fn lemma_skip_report_bounds(s: Seq<char>, i: int, be: int, d: int)
    requires
        0 <= i <= be <= s.len(),
    ensures
        i <= spec_skip_report(s, i, be, d) <= be,
    decreases be - i,
{
    if 0 <= i < be {
        text::lemma_line_end_bounds(s, i, be);
        lemma_skip_report_bounds(s, text::spec_line_end(s, i, be), be, d);
    }
}

/// The hash a spec-level entry is traced to, if it is generated.
pub open spec fn spec_gen_id_of(m: SpecMessage) -> Option<Seq<u8>> {
    match m {
        SpecMessage::Generated { id, .. } => Some(id),
        SpecMessage::User { .. } => None,
    }
}

/// Some entry of the list is generated from this hash.
pub open spec fn spec_has_gen_id(ms: Seq<SpecMessage>, id: Seq<u8>) -> bool {
    exists|k: int| 0 <= k < ms.len() && spec_gen_id_of(#[trigger] ms[k]) == Some(id)
}

/// Appends the hash unless an equal one is already in the list.
pub open spec fn spec_push_unique_id(ids: Seq<Seq<u8>>, id: Seq<u8>) -> Seq<Seq<u8>> {
    if exists|k: int| 0 <= k < ids.len() && #[trigger] ids[k] == id {
        ids
    } else {
        ids.push(id)
    }
}

/// The span of a collected list item, at the specification level.
#[verifier::ext_equal]
pub struct SpecItem {
    /// First character of the item's first line.
    pub start: int,
    /// Where the item's own text begins, after the marker.
    pub text_start: int,
    /// End of the item's first line.
    pub first_le: int,
    /// End of the item's last non-blank line.
    pub last_le: int,
}

/// The raw body text of a generated entry, rebuilt from the item's
/// continuation lines with up to three leading spaces stripped per line.
pub open spec fn spec_item_body(s: Seq<char>, i: int, last_le: int) -> Seq<char>
    decreases last_le - i,
    via spec_item_body_dec
{
    if 0 <= i < last_le && last_le <= s.len() {
        let le2 = text::spec_line_end(s, i, last_le);
        let a = spec_skip_spaces(s, i, le2);
        let strip = if a - i > 3 {
            i + 3
        } else {
            a
        };
        s.subrange(strip, le2) + spec_item_body(s, le2, last_le)
    } else {
        Seq::empty()
    }
}

#[via_fn]
proof fn spec_item_body_dec(s: Seq<char>, i: int, last_le: int) {
    if 0 <= i < last_le && last_le <= s.len() {
        text::lemma_line_end_bounds(s, i, last_le);
    }
}

/// What closing a collected item does to the open group: an item led by the
/// generated-message marker becomes a generated entry (first line the
/// title, later lines the body with up to three spaces of indent stripped
/// and trailing whitespace trimmed, duplicate hashes dropped); any other
/// item is kept verbatim, trimmed of trailing whitespace.
pub open spec fn spec_item_into(s: Seq<char>, c: SpecConv, it: SpecItem) -> SpecConv {
    if spec_gen_marker_at(s, it.text_start, it.first_le) {
        let ts = if it.text_start + 50 < it.first_le && s[it.text_start + 50] == ' ' {
            it.text_start + 51
        } else {
            it.text_start + 50
        };
        let title = s.subrange(ts, text::spec_trim_end(s, ts, it.first_le));
        let raw = spec_item_body(s, it.first_le, it.last_le);
        let trimmed = raw.subrange(0, text::spec_trim_end(raw, 0, raw.len() as int));
        let body = if trimmed.len() == 0 {
            Option::<Seq<char>>::None
        } else {
            Some(trimmed)
        };
        let idv = spec_id_of(s.subrange(it.text_start + 8, it.text_start + 48));
        if spec_has_gen_id(c.messages, idv) {
            c
        } else {
            SpecConv {
                messages: c.messages.push(SpecMessage::Generated { id: idv, title, body }),
                ..c
            }
        }
    } else {
        let md = s.subrange(it.start, text::spec_trim_end(s, it.start, it.last_le));
        SpecConv { messages: c.messages.push(SpecMessage::User { markdown: md }), ..c }
    }
}

/// The full parser state between lines, at the specification level.
#[verifier::ext_equal]
pub struct SpecState {
    /// The finished segments so far, in order.
    pub segments: Seq<SpecSegment>,
    /// The section-level removed hashes so far, in order.
    pub removed: Seq<Seq<u8>>,
    /// The carried-over unknown text so far.
    pub unknown: Seq<char>,
    /// Start of the open unrecognized span, if one is open.
    pub range_start: Option<int>,
    /// Depth of the unrecognized heading that opened the span, if any.
    pub range_scope: Option<int>,
    /// The open commit-type group, if one is open.
    pub conv: Option<SpecConv>,
    /// The list item being collected, if one is open.
    pub item: Option<SpecItem>,
}

/// What the body parser produces: the classified segments, the
/// section-level removed hashes, and the carried-over unknown text.
#[verifier::ext_equal]
pub struct SpecBody {
    /// The classified segments, in document order.
    pub segments: Seq<SpecSegment>,
    /// The removed hashes, first occurrence first.
    pub removed: Seq<Seq<u8>>,
    /// The text carried over from unknown-content blocks.
    pub unknown: Seq<char>,
}

/// Closes the open list item, if any, into the open group.
pub open spec fn spec_flush_item(s: Seq<char>, st: SpecState) -> SpecState {
    match st.item {
        Some(it) => {
            match st.conv {
                Some(c) => SpecState { conv: Some(spec_item_into(s, c, it)), item: None, ..st },
                None => SpecState { item: None, ..st },
            }
        },
        None => st,
    }
}

/// Closes the open unrecognized span, if any, as a segment holding the
/// exact text from its start to `endp`.
pub open spec fn spec_flush_range(s: Seq<char>, st: SpecState, endp: int) -> SpecState {
    match st.range_start {
        Some(rs) => SpecState {
            segments: st.segments.push(SpecSegment::User { markdown: s.subrange(rs, endp) }),
            range_start: None,
            range_scope: None,
            ..st
        },
        None => st,
    }
}

/// Closes the open commit-type group, if any, as a segment.
pub open spec fn spec_flush_conv(st: SpecState) -> SpecState {
    match st.conv {
        Some(c) => SpecState {
            segments: st.segments.push(SpecSegment::Conv { conv: c }),
            conv: None,
            ..st
        },
        None => st,
    }
}

/// What remains to do at the end of the body: close the open item, then the
/// open group or the open span.
pub open spec fn spec_body_finish(s: Seq<char>, be: int, st: SpecState) -> SpecBody {
    let st1 = spec_flush_item(s, st);
    let st2 = if st1.conv is Some {
        spec_flush_conv(st1)
    } else {
        spec_flush_range(s, st1, be)
    };
    SpecBody { segments: st2.segments, removed: st2.removed, unknown: st2.unknown }
}

/// The body parser itself, one line at a time, in the priority order of the
/// recognition rules: an unknown-content block, a removed-message marker, a
/// heading (swallowed by an open unrecognized-heading scope when deeper;
/// else a report marker with its content discarded, a commit-type group
/// opening, or the start of an unrecognized span), then list-item handling
/// inside an open group, then plain content extending or opening a span.
pub open spec fn spec_body_run(s: Seq<char>, i: int, be: int, st: SpecState) -> SpecBody
    decreases be - i,
    via spec_body_run_dec
{
    if 0 <= i < be && be <= s.len() {
        let le = text::spec_line_end(s, i, be);
        if text::spec_match_at(s, i, le, "<csr-unknown>"@) {
            let st1 = spec_flush_range(s, spec_flush_item(s, st), i);
            let cu = spec_consume_unknown(s, le, be);
            spec_body_run(s, cu.0, be, SpecState { unknown: st1.unknown + cu.1, ..st1 })
        } else if spec_removed_at(s, i, le) {
            let idv = spec_id_of(s.subrange(i + 13, i + 53));
            let st1 = spec_flush_range(s, spec_flush_item(s, st), i);
            let st2 = match st1.conv {
                Some(c) => SpecState {
                    conv: Some(SpecConv { removed: spec_push_unique_id(c.removed, idv), ..c }),
                    ..st1
                },
                None => SpecState { removed: spec_push_unique_id(st1.removed, idv), ..st1 },
            };
            spec_body_run(s, le, be, st2)
        } else if spec_heading_at(s, i, le) is Some {
            let d = spec_heading_at(s, i, le)->Some_0.0;
            let ts = spec_heading_at(s, i, le)->Some_0.1;
            let st1 = spec_flush_item(s, st);
            if st1.range_scope is Some && d > st1.range_scope->Some_0 {
                spec_body_run(s, le, be, st1)
            } else {
                let st2 = spec_flush_conv(spec_flush_range(s, st1, i));
                let tend = text::spec_trim_end(s, ts, le);
                if spec_report_for_title(s, ts, tend) is Some {
                    let rep = spec_report_for_title(s, ts, tend)->Some_0;
                    let seg = if rep == 0 {
                        SpecSegment::Statistics
                    } else if rep == 1 {
                        SpecSegment::Clippy
                    } else {
                        SpecSegment::Details
                    };
                    spec_body_run(
                        s,
                        spec_skip_report(s, le, be, d),
                        be,
                        SpecState { segments: st2.segments.push(seg), ..st2 },
                    )
                } else if spec_kind_for_title(s, ts, tend) is Some {
                    let kb = spec_kind_for_title(s, ts, tend)->Some_0;
                    spec_body_run(
                        s,
                        le,
                        be,
                        SpecState {
                            conv: Some(
                                SpecConv {
                                    kind: kb.0,
                                    breaking: kb.1,
                                    removed: Seq::empty(),
                                    messages: Seq::empty(),
                                },
                            ),
                            ..st2
                        },
                    )
                } else {
                    spec_body_run(
                        s,
                        le,
                        be,
                        SpecState { range_start: Some(i), range_scope: Some(d), ..st2 },
                    )
                }
            }
        } else if st.conv is Some {
            if text::spec_all_ws(s, i, le) {
                spec_body_run(s, le, be, st)
            } else if spec_item_start(s, i, le) is Some {
                let ts2 = spec_item_start(s, i, le)->Some_0;
                let st1 = spec_flush_item(s, st);
                spec_body_run(
                    s,
                    le,
                    be,
                    SpecState {
                        item: Some(SpecItem { start: i, text_start: ts2, first_le: le, last_le: le }),
                        ..st1
                    },
                )
            } else {
                let a = spec_skip_spaces(s, i, le);
                if st.item is Some && a - i >= 3 {
                    let it = st.item->Some_0;
                    spec_body_run(
                        s,
                        le,
                        be,
                        SpecState { item: Some(SpecItem { last_le: le, ..it }), ..st },
                    )
                } else {
                    let st1 = spec_flush_conv(spec_flush_item(s, st));
                    spec_body_run(
                        s,
                        le,
                        be,
                        SpecState { range_start: Some(i), range_scope: None, ..st1 },
                    )
                }
            }
        } else {
            if st.range_start is None && !text::spec_all_ws(s, i, le) {
                spec_body_run(
                    s,
                    le,
                    be,
                    SpecState { range_start: Some(i), range_scope: None, ..st },
                )
            } else {
                spec_body_run(s, le, be, st)
            }
        }
    } else {
        spec_body_finish(s, be, st)
    }
}

#[via_fn]
proof fn spec_body_run_dec(s: Seq<char>, i: int, be: int, st: SpecState) {
    if 0 <= i < be && be <= s.len() {
        text::lemma_line_end_bounds(s, i, be);
        let le = text::spec_line_end(s, i, be);
        lemma_consume_unknown_bounds(s, le, be);
        if spec_heading_at(s, i, le) is Some {
            lemma_skip_report_bounds(s, le, be, spec_heading_at(s, i, le)->Some_0.0);
        }
    }
}

/// What the body parser yields for the body text `[bs, be)`: the run from
/// the empty starting state.
pub open spec fn spec_parse_body(s: Seq<char>, bs: int, be: int) -> SpecBody {
    spec_body_run(
        s,
        bs,
        be,
        SpecState {
            segments: Seq::empty(),
            removed: Seq::empty(),
            unknown: Seq::empty(),
            range_start: None,
            range_scope: None,
            conv: None,
            item: None,
        },
    )
}

/// The span of the list item currently being collected.
#[derive(Clone, Copy)]
struct ItemAcc {
    /// First character of the item's first line.
    start: usize,
    /// Where the item's own text begins, after the marker.
    text_start: usize,
    /// End of the item's first line.
    first_le: usize,
    /// End of the item's last non-blank line so far.
    last_le: usize,
}

impl ItemAcc {
    spec fn inv(self) -> bool {
        self.start <= self.text_start <= self.first_le <= self.last_le
    }
}

/// Is a generated message with this hash already in the list?
fn contains_gen(ms: &Vec<Message>, id: &ObjectId) -> (r: bool)
    ensures
        r == exists|k: int|
            0 <= k < ms@.len() && spec_gen_id(#[trigger] ms@[k]) == Some(id.view()),
{
    let n = ms.len();
    let mut k: usize = 0;
    while k < n
        invariant
            k <= n,
            n == ms@.len(),
            forall|j: int| 0 <= j < k ==> spec_gen_id(#[trigger] ms@[j]) != Some(id.view()),
        decreases n - k,
    {
        let hit = match &ms[k] {
            Message::Generated { id: mid, .. } => mid.eq_id(id),
            Message::User { .. } => false,
        };
        if hit {
            return true;
        }
        k += 1;
    }
    false
}

/// Closes the collected list item into the open group: an item led by the
/// generated-message marker becomes a generated entry (first line the title,
/// later lines the body with up to three spaces of indent stripped, ids
/// deduplicated); any other item is kept verbatim, trimmed of trailing
/// whitespace.
fn flush_item(
    conv: &mut Conventional,
    chars: &Vec<char>,
    s: &str,
    it: ItemAcc,
    lo: Ghost<int>,
    hi: Ghost<int>,
)
    requires
        chars@ == s@,
        it.inv(),
        0 <= lo@ <= it.start,
        it.last_le <= hi@ <= chars@.len(),
        spec_conv_ok(*old(conv), chars@, lo@, hi@),
    ensures
        spec_conv_ok(*final(conv), chars@, lo@, hi@),
        abs_conv(*final(conv)) == spec_item_into(
            chars@,
            abs_conv(*old(conv)),
            SpecItem {
                start: it.start as int,
                text_start: it.text_start as int,
                first_le: it.first_le as int,
                last_le: it.last_le as int,
            },
        ),
{
    let ghost msgs0 = conv.messages@;
    let ghost sit = SpecItem {
        start: it.start as int,
        text_start: it.text_start as int,
        first_le: it.first_le as int,
        last_le: it.last_le as int,
    };
    let ghost c0 = abs_conv(*conv);
    match gen_marker_at(chars, it.text_start, it.first_le) {
        Some(id) => {
            let mut ts = it.text_start + 50;
            if ts < it.first_le && chars[ts] == ' ' {
                ts += 1;
            }
            let tend = text::trim_end(chars, ts, it.first_le);
            let title = text::slice_string(s, ts, tend);
            let mut body = String::new();
            let mut i = it.first_le;
            while i < it.last_le
                invariant
                    chars@ == s@,
                    it.first_le <= i <= it.last_le <= chars@.len(),
                    spec_item_body(chars@, it.first_le as int, it.last_le as int) == body@
                        + spec_item_body(chars@, i as int, it.last_le as int),
                decreases it.last_le - i,
            {
                let le2 = text::line_end(chars, i, it.last_le);
                let a = skip_spaces(chars, i, le2);
                let strip = if a - i > 3 {
                    i + 3
                } else {
                    a
                };
                let part = text::slice_string(s, strip, le2);
                body.append(part.as_str());
                proof {
                    assert(spec_item_body(chars@, it.first_le as int, it.last_le as int) =~= body@
                        + spec_item_body(chars@, le2 as int, it.last_le as int));
                }
                i = le2;
            }
            proof {
                assert(body@ =~= spec_item_body(chars@, it.first_le as int, it.last_le as int));
            }
            let trimmed = text::trim_end_string(body.as_str());
            let body_opt = if trimmed.as_str().unicode_len() == 0 {
                None
            } else {
                Some(trimmed)
            };
            proof {
                lemma_abs_messages_index(conv.messages@);
                assert forall|k: int|
                    0 <= k < conv.messages@.len() implies spec_gen_id_of(
                    #[trigger] abs_messages(conv.messages@)[k],
                ) == spec_gen_id(conv.messages@[k]) by {
                    assert(abs_messages(conv.messages@)[k] == abs_message(conv.messages@[k]));
                }
                if spec_has_gen_id(abs_messages(conv.messages@), id.view()) {
                    let k = choose|k: int|
                        0 <= k < abs_messages(conv.messages@).len() && spec_gen_id_of(
                            #[trigger] abs_messages(conv.messages@)[k],
                        ) == Some(id.view());
                    assert(spec_gen_id(conv.messages@[k]) == Some(id.view()));
                }
                if exists|k: int|
                    0 <= k < conv.messages@.len() && spec_gen_id(#[trigger] conv.messages@[k])
                        == Some(id.view()) {
                    let k = choose|k: int|
                        0 <= k < conv.messages@.len() && spec_gen_id(#[trigger] conv.messages@[k])
                            == Some(id.view());
                    assert(spec_gen_id_of(abs_messages(conv.messages@)[k]) == Some(id.view()));
                }
            }
            if !contains_gen(&conv.messages, &id) {
                let ghost idv = id.view();
                conv.messages.push(Message::Generated { id, title, body: body_opt });
                proof {
                    assert(conv.messages@.drop_last() =~= msgs0);
                    assert(abs_conv(*conv) =~= spec_item_into(chars@, c0, sit));
                    assert forall|i2: int, j2: int|
                        0 <= i2 < j2 < conv.messages@.len() && spec_gen_id(
                            #[trigger] conv.messages@[i2],
                        ) is Some && spec_gen_id(#[trigger] conv.messages@[j2]) is Some implies
                        spec_gen_id(conv.messages@[i2]) != spec_gen_id(conv.messages@[j2]) by {
                        if j2 == conv.messages@.len() - 1 {
                            assert(conv.messages@[i2] == msgs0[i2]);
                            assert(spec_gen_id(conv.messages@[j2]) == Some(idv));
                        } else {
                            assert(conv.messages@[i2] == msgs0[i2]);
                            assert(conv.messages@[j2] == msgs0[j2]);
                        }
                    }
                    assert forall|k: int| 0 <= k < conv.messages@.len() implies spec_msg_ok(
                        #[trigger] conv.messages@[k],
                        chars@,
                        lo@,
                        hi@,
                    ) by {
                        if k < conv.messages@.len() - 1 {
                            assert(conv.messages@[k] == msgs0[k]);
                        }
                    }
                }
            } else {
                proof {
                    assert(abs_conv(*conv) =~= spec_item_into(chars@, c0, sit));
                }
            }
        },
        None => {
            let e = text::trim_end(chars, it.start, it.last_le);
            let markdown = text::slice_string(s, it.start, e);
            conv.messages.push(Message::User { markdown });
            proof {
                assert(conv.messages@.drop_last() =~= msgs0);
                assert(abs_conv(*conv) =~= spec_item_into(chars@, c0, sit));
                assert(chars@.subrange(it.start as int, e as int) == chars@.subrange(
                    it.start as int,
                    e as int,
                ));
                assert forall|i2: int, j2: int|
                    0 <= i2 < j2 < conv.messages@.len() && spec_gen_id(
                        #[trigger] conv.messages@[i2],
                    ) is Some && spec_gen_id(#[trigger] conv.messages@[j2]) is Some implies
                    spec_gen_id(conv.messages@[i2]) != spec_gen_id(conv.messages@[j2]) by {
                    assert(conv.messages@[i2] == msgs0[i2]);
                    if j2 < conv.messages@.len() - 1 {
                        assert(conv.messages@[j2] == msgs0[j2]);
                    }
                }
                assert forall|k: int| 0 <= k < conv.messages@.len() implies spec_msg_ok(
                    #[trigger] conv.messages@[k],
                    chars@,
                    lo@,
                    hi@,
                ) by {
                    if k < conv.messages@.len() - 1 {
                        assert(conv.messages@[k] == msgs0[k]);
                    }
                }
            }
        },
    }
}

/// Appends a segment, keeping the per-segment contract of all of them.
fn push_segment(
    segments: &mut Vec<Segment>,
    g: Segment,
    sv: Ghost<Seq<char>>,
    lo: Ghost<int>,
    hi: Ghost<int>,
)
    requires
        forall|k: int|
            0 <= k < old(segments)@.len() ==> spec_seg_ok(#[trigger] old(segments)@[k], sv@, lo@, hi@),
        spec_seg_ok(g, sv@, lo@, hi@),
    ensures
        forall|k: int|
            0 <= k < final(segments)@.len() ==> spec_seg_ok(#[trigger] final(segments)@[k], sv@, lo@, hi@),
        abs_segments(final(segments)@) == abs_segments(old(segments)@).push(abs_segment(g)),
{
    let ghost segs0 = segments@;
    segments.push(g);
    proof {
        assert(segments@.drop_last() =~= segs0);
        assert forall|k: int| 0 <= k < segments@.len() implies spec_seg_ok(
            #[trigger] segments@[k],
            sv@,
            lo@,
            hi@,
        ) by {
            if k < segments@.len() - 1 {
                assert(segments@[k] == segs0[k]);
            }
        }
    }
}

/// The specification-level value of the parser's whole running state.
spec fn abs_state(
    segments: Seq<Segment>,
    removed: Seq<ObjectId>,
    unknown: Seq<char>,
    range_start: Option<usize>,
    range_scope: Option<usize>,
    conv: Conventional,
    conv_open: bool,
    item: Option<ItemAcc>,
) -> SpecState {
    SpecState {
        segments: abs_segments(segments),
        removed: abs_ids(removed),
        unknown: unknown,
        range_start: match range_start {
            Some(rs) => Some(rs as int),
            None => None,
        },
        range_scope: match range_scope {
            Some(d) => Some(d as int),
            None => None,
        },
        conv: if conv_open {
            Some(abs_conv(conv))
        } else {
            None
        },
        item: match item {
            Some(it) => Some(
                SpecItem {
                    start: it.start as int,
                    text_start: it.text_start as int,
                    first_le: it.first_le as int,
                    last_le: it.last_le as int,
                },
            ),
            None => None,
        },
    }
}

/// Builds one release section from its headline and the body text `[bs, be)`.
///
/// Content is classified line by line, in priority order: unknown-content
/// blocks, removed-message markers, headings (generated reports become
/// placeholder markers with their content discarded; known commit-type
/// titles open a group; anything else starts an unrecognized span), and
/// plain content, which either joins the open group as a list item or
/// extends the unrecognized span. Unrecognized spans are kept as exact
/// slices of the body.
#[verifier::rlimit(100)]
#[verifier::spinoff_prover]
pub(crate) fn section_from_headline_and_body(
    h: Headline,
    chars: &Vec<char>,
    s: &str,
    bs: usize,
    be: usize,
) -> (r: Section)
    requires
        chars@ == s@,
        bs <= be <= chars@.len(),
        h.level < usize::MAX,
    ensures
        r is Release,
        r.wf(),
        (r matches Section::Release {
            name,
            removed_messages,
            date,
            heading_level,
            version_prefix,
            segments,
            unknown,
        } ==> {
            &&& heading_level == h.level
            &&& date == h.date
            &&& (h.version is Some ==> name == Version::Semantic(h.version->Some_0))
            &&& (h.version is None ==> name is Unreleased)
            &&& (h.version is Some && h.has_prefix ==> version_prefix@ == "v"@)
            &&& (!(h.version is Some && h.has_prefix) ==> version_prefix@ =~= Seq::<
                char,
            >::empty())
            &&& spec_distinct_ids(removed_messages@)
            &&& abs_segments(segments@) == spec_parse_body(s@, bs as int, be as int).segments
            &&& abs_ids(removed_messages@) == spec_parse_body(s@, bs as int, be as int).removed
            &&& unknown@ == spec_parse_body(s@, bs as int, be as int).unknown
            &&& forall|k: int|
                0 <= k < segments@.len() ==> spec_seg_ok(
                    #[trigger] segments@[k],
                    s@,
                    bs as int,
                    be as int,
                )
        }),
{
    let ghost lo = bs as int;
    let ghost hi = be as int;
    let mut segments: Vec<Segment> = Vec::new();
    let mut removed: Vec<ObjectId> = Vec::new();
    let mut unknown = String::new();
    let mut range_start: Option<usize> = None;
    let mut range_scope: Option<usize> = None;
    let mut conv = Conventional {
        kind: "other",
        is_breaking: false,
        removed: Vec::new(),
        messages: Vec::new(),
    };
    let mut conv_open = false;
    let mut item: Option<ItemAcc> = None;
    let mut i = bs;
    proof {
        assert(abs_segments(Seq::<Segment>::empty()) =~= Seq::<SpecSegment>::empty());
        assert(abs_ids(Seq::<ObjectId>::empty()) =~= Seq::<Seq<u8>>::empty());
        assert(abs_state(
            segments@,
            removed@,
            unknown@,
            range_start,
            range_scope,
            conv,
            conv_open,
            item,
        ) =~= SpecState {
            segments: Seq::empty(),
            removed: Seq::empty(),
            unknown: Seq::empty(),
            range_start: None,
            range_scope: None,
            conv: None,
            item: None,
        });
    }
    while i < be
        invariant
            chars@ == s@,
            bs <= i <= be <= chars@.len(),
            spec_parse_body(chars@, lo, hi) == spec_body_run(
                chars@,
                i as int,
                hi,
                abs_state(segments@, removed@, unknown@, range_start, range_scope, conv, conv_open, item),
            ),
            spec_distinct_ids(removed@),
            forall|k: int| 0 <= k < removed@.len() ==> (#[trigger] removed@[k]).wf(),
            spec_conv_ok(conv, chars@, lo, hi),
            lo == bs as int,
            hi == be as int,
            item matches Some(it) ==> {
                &&& conv_open
                &&& it.inv()
                &&& bs <= it.start
                &&& it.last_le <= i
            },
            range_start matches Some(rs) ==> bs <= rs <= i && !conv_open,
            range_scope is Some ==> range_start is Some,
            forall|k: int|
                0 <= k < segments@.len() ==> spec_seg_ok(#[trigger] segments@[k], s@, lo, hi),
        decreases be - i,
    {
        let ghost st0 = abs_state(
            segments@,
            removed@,
            unknown@,
            range_start,
            range_scope,
            conv,
            conv_open,
            item,
        );
        let le = text::line_end(chars, i, be);
        if text::match_at(chars, i, le, "<csr-unknown>") {
            match item {
                Some(it) => {
                    flush_item(&mut conv, chars, s, it, Ghost(lo), Ghost(hi));
                    item = None;
                },
                None => {},
            }
            match range_start {
                Some(rs) => {
                    let markdown = text::slice_string(s, rs, i);
                    push_segment(
                        &mut segments,
                        Segment::User { markdown },
                        Ghost(s@),
                        Ghost(lo),
                        Ghost(hi),
                    );
                    range_start = None;
                    range_scope = None;
                },
                None => {},
            }
            let ni = consume_unknown(chars, s, le, be, &mut unknown);
            proof {
                let st1 = spec_flush_range(chars@, spec_flush_item(chars@, st0), i as int);
                let cu = spec_consume_unknown(chars@, le as int, hi);
                let stn = abs_state(
                    segments@,
                    removed@,
                    unknown@,
                    range_start,
                    range_scope,
                    conv,
                    conv_open,
                    item,
                );
                assert(stn =~= SpecState { unknown: st1.unknown + cu.1, ..st1 });
                assert(spec_body_run(chars@, i as int, hi, st0) =~= spec_body_run(
                    chars@,
                    ni as int,
                    hi,
                    stn,
                ));
            }
            i = ni;
            continue ;
        }
        match removed_at(chars, i, le) {
            Some(id) => {
                match item {
                    Some(it) => {
                        flush_item(&mut conv, chars, s, it, Ghost(lo), Ghost(hi));
                        item = None;
                    },
                    None => {},
                }
                match range_start {
                    Some(rs) => {
                        let markdown = text::slice_string(s, rs, i);
                        push_segment(
                            &mut segments,
                            Segment::User { markdown },
                            Ghost(s@),
                            Ghost(lo),
                            Ghost(hi),
                        );
                        range_start = None;
                        range_scope = None;
                    },
                    None => {},
                }
                if conv_open {
                    push_unique(&mut conv.removed, id);
                } else {
                    push_unique(&mut removed, id);
                }
                proof {
                    let idv = spec_id_of(chars@.subrange(i + 13, i + 53));
                    let st1 = spec_flush_range(chars@, spec_flush_item(chars@, st0), i as int);
                    let st2 = match st1.conv {
                        Some(c) => SpecState {
                            conv: Some(SpecConv { removed: spec_push_unique_id(c.removed, idv), ..c }),
                            ..st1
                        },
                        None => SpecState { removed: spec_push_unique_id(st1.removed, idv), ..st1 },
                    };
                    let stn = abs_state(
                        segments@,
                        removed@,
                        unknown@,
                        range_start,
                        range_scope,
                        conv,
                        conv_open,
                        item,
                    );
                    assert(stn =~= st2);
                    assert(spec_body_run(chars@, i as int, hi, st0) =~= spec_body_run(
                        chars@,
                        le as int,
                        hi,
                        stn,
                    ));
                }
                i = le;
                continue ;
            },
            None => {},
        }
        match heading_at(chars, i, le) {
            Some((d, ts)) => {
                match item {
                    Some(it) => {
                        flush_item(&mut conv, chars, s, it, Ghost(lo), Ghost(hi));
                        item = None;
                    },
                    None => {},
                }
                let in_scope = match range_scope {
                    Some(sd) => d > sd,
                    None => false,
                };
                if !in_scope {
                    match range_start {
                        Some(rs) => {
                            let markdown = text::slice_string(s, rs, i);
                            push_segment(
                                &mut segments,
                                Segment::User { markdown },
                                Ghost(s@),
                                Ghost(lo),
                                Ghost(hi),
                            );
                            range_start = None;
                            range_scope = None;
                        },
                        None => {},
                    }
                    let tend = text::trim_end(chars, ts, le);
                    if conv_open {
                        push_segment(
                            &mut segments,
                            Segment::Conventional(conv),
                            Ghost(s@),
                            Ghost(lo),
                            Ghost(hi),
                        );
                        conv = Conventional {
                            kind: "other",
                            is_breaking: false,
                            removed: Vec::new(),
                            messages: Vec::new(),
                        };
                        conv_open = false;
                    }
                    match report_for_title(chars, ts, tend) {
                        Some(rep) => {
                            let seg = if rep == 0 {
                                Segment::Statistics(Data::Parsed)
                            } else if rep == 1 {
                                Segment::Clippy(Data::Parsed)
                            } else {
                                Segment::Details(Data::Parsed)
                            };
                            push_segment(&mut segments, seg, Ghost(s@), Ghost(lo), Ghost(hi));
                            let ni = skip_report(chars, le, be, d);
                            proof {
                                let st2 = spec_flush_conv(
                                    spec_flush_range(chars@, spec_flush_item(chars@, st0), i as int),
                                );
                                let stn = abs_state(
                                    segments@,
                                    removed@,
                                    unknown@,
                                    range_start,
                                    range_scope,
                                    conv,
                                    conv_open,
                                    item,
                                );
                                assert(stn =~= SpecState {
                                    segments: st2.segments.push(abs_segment(seg)),
                                    ..st2
                                });
                                assert(spec_body_run(chars@, i as int, hi, st0) =~= spec_body_run(
                                    chars@,
                                    ni as int,
                                    hi,
                                    stn,
                                ));
                            }
                            i = ni;
                            continue ;
                        },
                        None => {},
                    }
                    match kind_for_title(chars, ts, tend) {
                        Some((kind, breaking)) => {
                            conv = Conventional {
                                kind,
                                is_breaking: breaking,
                                removed: Vec::new(),
                                messages: Vec::new(),
                            };
                            conv_open = true;
                            proof {
                                let st2 = spec_flush_conv(
                                    spec_flush_range(chars@, spec_flush_item(chars@, st0), i as int),
                                );
                                let stn = abs_state(
                                    segments@,
                                    removed@,
                                    unknown@,
                                    range_start,
                                    range_scope,
                                    conv,
                                    conv_open,
                                    item,
                                );
                                assert(abs_ids(Seq::<ObjectId>::empty()) =~= Seq::<Seq<u8>>::empty());
                                assert(abs_messages(Seq::<Message>::empty()) =~= Seq::<
                                    SpecMessage,
                                >::empty());
                                assert(stn =~= SpecState {
                                    conv: Some(
                                        SpecConv {
                                            kind: kind@,
                                            breaking,
                                            removed: Seq::empty(),
                                            messages: Seq::empty(),
                                        },
                                    ),
                                    ..st2
                                });
                                assert(spec_body_run(chars@, i as int, hi, st0) =~= spec_body_run(
                                    chars@,
                                    le as int,
                                    hi,
                                    stn,
                                ));
                            }
                            i = le;
                            continue ;
                        },
                        None => {},
                    }
                    range_start = Some(i);
                    range_scope = Some(d);
                }
                proof {
                    let st1 = spec_flush_item(chars@, st0);
                    let stn = abs_state(
                        segments@,
                        removed@,
                        unknown@,
                        range_start,
                        range_scope,
                        conv,
                        conv_open,
                        item,
                    );
                    if in_scope {
                        assert(stn =~= st1);
                    } else {
                        let st2 = spec_flush_conv(spec_flush_range(chars@, st1, i as int));
                        assert(stn =~= SpecState {
                            range_start: Some(i as int),
                            range_scope: Some(d as int),
                            ..st2
                        });
                    }
                    assert(spec_body_run(chars@, i as int, hi, st0) =~= spec_body_run(
                        chars@,
                        le as int,
                        hi,
                        stn,
                    ));
                }
                i = le;
                continue ;
            },
            None => {},
        }
        if conv_open {
            if text::all_ws(chars, i, le) {
                proof {
                    assert(spec_body_run(chars@, i as int, hi, st0) =~= spec_body_run(
                        chars@,
                        le as int,
                        hi,
                        st0,
                    ));
                }
                i = le;
                continue ;
            }
            match item_start(chars, i, le) {
                Some(ts2) => {
                    match item {
                        Some(it) => {
                            flush_item(&mut conv, chars, s, it, Ghost(lo), Ghost(hi));
                        },
                        None => {},
                    }
                    item = Some(ItemAcc { start: i, text_start: ts2, first_le: le, last_le: le });
                    proof {
                        let st1 = spec_flush_item(chars@, st0);
                        let stn = abs_state(
                            segments@,
                            removed@,
                            unknown@,
                            range_start,
                            range_scope,
                            conv,
                            conv_open,
                            item,
                        );
                        assert(stn =~= SpecState {
                            item: Some(
                                SpecItem {
                                    start: i as int,
                                    text_start: ts2 as int,
                                    first_le: le as int,
                                    last_le: le as int,
                                },
                            ),
                            ..st1
                        });
                        assert(spec_body_run(chars@, i as int, hi, st0) =~= spec_body_run(
                            chars@,
                            le as int,
                            hi,
                            stn,
                        ));
                    }
                    i = le;
                    continue ;
                },
                None => {},
            }
            let a = skip_spaces(chars, i, le);
            match item {
                Some(it) => {
                    if a - i >= 3 {
                        item = Some(
                            ItemAcc {
                                start: it.start,
                                text_start: it.text_start,
                                first_le: it.first_le,
                                last_le: le,
                            },
                        );
                        proof {
                            let sit = st0.item->Some_0;
                            let stn = abs_state(
                                segments@,
                                removed@,
                                unknown@,
                                range_start,
                                range_scope,
                                conv,
                                conv_open,
                                item,
                            );
                            assert(stn =~= SpecState {
                                item: Some(SpecItem { last_le: le as int, ..sit }),
                                ..st0
                            });
                            assert(spec_body_run(chars@, i as int, hi, st0) =~= spec_body_run(
                                chars@,
                                le as int,
                                hi,
                                stn,
                            ));
                        }
                        i = le;
                        continue ;
                    }
                    flush_item(&mut conv, chars, s, it, Ghost(lo), Ghost(hi));
                    item = None;
                },
                None => {},
            }
            push_segment(
                &mut segments,
                Segment::Conventional(conv),
                Ghost(s@),
                Ghost(lo),
                Ghost(hi),
            );
            conv = Conventional {
                kind: "other",
                is_breaking: false,
                removed: Vec::new(),
                messages: Vec::new(),
            };
            conv_open = false;
            range_start = Some(i);
            range_scope = None;
            proof {
                let st1 = spec_flush_conv(spec_flush_item(chars@, st0));
                let stn = abs_state(
                    segments@,
                    removed@,
                    unknown@,
                    range_start,
                    range_scope,
                    conv,
                    conv_open,
                    item,
                );
                assert(stn =~= SpecState {
                    range_start: Some(i as int),
                    range_scope: None,
                    ..st1
                });
                assert(spec_body_run(chars@, i as int, hi, st0) =~= spec_body_run(
                    chars@,
                    le as int,
                    hi,
                    stn,
                ));
            }
            i = le;
            continue ;
        }
        if range_start.is_none() && !text::all_ws(chars, i, le) {
            range_start = Some(i);
            range_scope = None;
        }
        proof {
            let stn = abs_state(
                segments@,
                removed@,
                unknown@,
                range_start,
                range_scope,
                conv,
                conv_open,
                item,
            );
            assert(spec_body_run(chars@, i as int, hi, st0) =~= spec_body_run(
                chars@,
                le as int,
                hi,
                stn,
            ));
        }
        i = le;
    }
    let ghost stx = abs_state(
        segments@,
        removed@,
        unknown@,
        range_start,
        range_scope,
        conv,
        conv_open,
        item,
    );
    proof {
        assert(spec_parse_body(chars@, lo, hi) == spec_body_run(chars@, be as int, hi, stx));
        assert(spec_body_run(chars@, be as int, hi, stx) =~= spec_body_finish(chars@, hi, stx));
    }
    match item {
        Some(it) => {
            flush_item(&mut conv, chars, s, it, Ghost(lo), Ghost(hi));
            item = None;
        },
        None => {},
    }
    if conv_open {
        push_segment(&mut segments, Segment::Conventional(conv), Ghost(s@), Ghost(lo), Ghost(hi));
        conv_open = false;
    } else {
        match range_start {
            Some(rs) => {
                let markdown = text::slice_string(s, rs, be);
                push_segment(
                    &mut segments,
                    Segment::User { markdown },
                    Ghost(s@),
                    Ghost(lo),
                    Ghost(hi),
                );
                range_start = None;
            },
            None => {},
        }
    }
    proof {
        let st1 = spec_flush_item(chars@, stx);
        let st2 = if st1.conv is Some {
            spec_flush_conv(st1)
        } else {
            spec_flush_range(chars@, st1, hi)
        };
        assert(abs_segments(segments@) =~= st2.segments);
        assert(abs_ids(removed@) =~= st2.removed);
        assert(unknown@ =~= st2.unknown);
        assert(spec_parse_body(chars@, lo, hi) =~= SpecBody {
            segments: abs_segments(segments@),
            removed: abs_ids(removed@),
            unknown: unknown@,
        });
    }
    let has_prefix = h.has_prefix;
    let (name, version_prefix) = match h.version {
        Some(v) => (
            Version::Semantic(v),
            if has_prefix {
                String::from_str(Section::DEFAULT_PREFIX)
            } else {
                String::new()
            },
        ),
        None => (Version::Unreleased, String::new()),
    };
    proof {
        reveal_strlit("v");
    }
    let r = Section::Release {
        name,
        removed_messages: removed,
        date: h.date,
        heading_level: h.level,
        version_prefix,
        segments,
        unknown,
    };
    proof {
        lemma_section_wf_from_seg_ok(r, s@, lo, hi);
    }
    r
}

/// A release section whose segments meet the per-segment contract is well
/// formed, as long as its own ids are and the heading depth is in range.
proof fn lemma_section_wf_from_seg_ok(r: Section, s: Seq<char>, lo: int, hi: int)
    requires
        r matches Section::Release { removed_messages, heading_level, segments, .. } ==> {
            &&& heading_level < usize::MAX
            &&& forall|k: int|
                0 <= k < removed_messages@.len() ==> (#[trigger] removed_messages@[k]).wf()
            &&& forall|k: int|
                0 <= k < segments@.len() ==> spec_seg_ok(#[trigger] segments@[k], s, lo, hi)
        },
        r is Release,
    ensures
        r.wf(),
{
    match r {
        Section::Release { segments, .. } => {
            assert forall|k: int| 0 <= k < segments@.len() implies (#[trigger] segments@[k]).wf() by {
                assert(spec_seg_ok(segments@[k], s, lo, hi));
                match segments@[k] {
                    Segment::Conventional(c) => {
                        assert(spec_conv_ok(c, s, lo, hi));
                        assert forall|j: int| 0 <= j < c.messages@.len() implies (
                        #[trigger] c.messages@[j]).wf() by {
                            assert(spec_msg_ok(c.messages@[j], s, lo, hi));
                        }
                    },
                    Segment::Details(d) => {
                        assert(d is Parsed);
                    },
                    _ => {},
                }
            }
        },
        _ => {},
    }
}

fn headline_unreleased(chars: &Vec<char>, i1: usize, le: usize, level: usize) -> (r: Option<
    Headline,
>)
    requires
        i1 <= le <= chars@.len(),
    ensures
        ({
            let sh = spec_headline_unreleased(chars@, i1 as int, le as int, level as int);
            &&& r is Some <==> sh is Some
            &&& r is Some ==> r->Some_0.matches(sh->Some_0)
        }),
{
    if unreleased_at(chars, i1, le) {
        headline_tail(chars, i1 + 10, le, level, false, None)
    } else {
        None
    }
}

/// Some line at or after `i` parses as a release headline.
/// How many lines at or after `i` parse as release headlines.
pub open spec fn spec_count_headlines(s: Seq<char>, i: int) -> int
    decreases s.len() - i,
    via spec_count_headlines_dec
{
    if 0 <= i < s.len() {
        let le = text::spec_line_end(s, i, s.len() as int);
        (if spec_headline(s, i, le) is Some {
            1int
        } else {
            0int
        }) + spec_count_headlines(s, le)
    } else {
        0
    }
}

#[via_fn]
proof fn spec_count_headlines_dec(s: Seq<char>, i: int) {
    if 0 <= i < s.len() {
        text::lemma_line_end_bounds(s, i, s.len() as int);
    }
}

/// How many of the sections are release sections.
pub open spec fn spec_count_releases(ss: Seq<Section>) -> int
    decreases ss.len(),
{
    if ss.len() == 0 {
        0
    } else {
        (if ss[0] is Release {
            1int
        } else {
            0int
        }) + spec_count_releases(ss.drop_first())
    }
}

/// Appending one section raises the release count by one exactly when the
/// section is a release.
proof fn lemma_count_releases_push(s: Seq<Section>, x: Section)
    ensures
        spec_count_releases(s.push(x)) == spec_count_releases(s) + (if x is Release {
            1int
        } else {
            0int
        }),
    decreases s.len(),
{
    if s.len() == 0 {
        assert(s.push(x).drop_first() =~= Seq::<Section>::empty());
        assert(spec_count_releases(Seq::<Section>::empty()) == 0);
        assert(s.push(x)[0] == x);
    } else {
        assert(s.push(x).drop_first() =~= s.drop_first().push(x));
        assert(s.push(x)[0] == s[0]);
        lemma_count_releases_push(s.drop_first(), x);
    }
}

/// The release count distributes over concatenation.
proof fn lemma_count_releases_concat(a: Seq<Section>, b: Seq<Section>)
    ensures
        spec_count_releases(a + b) == spec_count_releases(a) + spec_count_releases(b),
    decreases a.len(),
{
    if a.len() == 0 {
        assert(a + b =~= b);
    } else {
        assert((a + b).drop_first() =~= a.drop_first() + b);
        assert((a + b)[0] == a[0]);
        lemma_count_releases_concat(a.drop_first(), b);
    }
}

/// A sequence of releases counts its length; one without releases counts
/// zero.
proof fn lemma_count_releases_uniform(s: Seq<Section>)
    ensures
        (forall|k: int| 0 <= k < s.len() ==> (#[trigger] s[k]) is Release)
            ==> spec_count_releases(s) == s.len(),
        (forall|k: int| 0 <= k < s.len() ==> !((#[trigger] s[k]) is Release))
            ==> spec_count_releases(s) == 0,
    decreases s.len(),
{
    if s.len() > 0 {
        lemma_count_releases_uniform(s.drop_first());
        assert forall|k: int|
            0 <= k < s.drop_first().len() implies s.drop_first()[k] == s[k + 1] by {}
    }
}

pub open spec fn spec_has_headline(s: Seq<char>, i: int) -> bool
    decreases s.len() - i,
    via spec_has_headline_dec
{
    if 0 <= i < s.len() {
        let le = text::spec_line_end(s, i, s.len() as int);
        spec_headline(s, i, le) is Some || spec_has_headline(s, le)
    } else {
        false
    }
}

#[via_fn]
proof fn spec_has_headline_dec(s: Seq<char>, i: int) {
    if 0 <= i < s.len() {
        text::lemma_line_end_bounds(s, i, s.len() as int);
    }
}

/// What parsing promises of one message beyond well-formedness: a
/// hand-authored entry is an exact slice of the input text.
pub open spec fn spec_msg_preserved(m: Message, input: Seq<char>) -> bool {
    match m {
        Message::Generated { id, .. } => id.wf(),
        Message::User { markdown } => spec_slice_of(markdown@, input, 0, input.len() as int),
    }
}

/// What parsing promises of one segment: unrecognized content is an exact
/// slice of the input, and the id lists of a group are deduplicated, first
/// occurrence first.
pub open spec fn spec_seg_preserved(g: Segment, input: Seq<char>) -> bool {
    match g {
        Segment::User { markdown } => spec_slice_of(markdown@, input, 0, input.len() as int),
        Segment::Conventional(c) => {
            &&& spec_distinct_ids(c.removed@)
            &&& spec_distinct_gen(c.messages@)
            &&& forall|k: int|
                0 <= k < c.messages@.len() ==> spec_msg_preserved(#[trigger] c.messages@[k], input)
        },
        _ => true,
    }
}

/// What parsing promises of one section: verbatim text is an exact slice of
/// the input, removed-id lists are deduplicated with their first occurrence
/// first, and every segment keeps its own promise.
pub open spec fn spec_section_preserved(sec: Section, input: Seq<char>) -> bool {
    match sec {
        Section::Verbatim { text, .. } => spec_slice_of(text@, input, 0, input.len() as int),
        Section::Release { removed_messages, segments, .. } => {
            &&& spec_distinct_ids(removed_messages@)
            &&& forall|k: int|
                0 <= k < segments@.len() ==> spec_seg_preserved(#[trigger] segments@[k], input)
        },
    }
}

/// A slice of a window of the text is a slice of the whole text.
proof fn lemma_slice_widen(m: Seq<char>, s: Seq<char>, lo: int, hi: int)
    requires
        spec_slice_of(m, s, lo, hi),
        0 <= lo,
        hi <= s.len(),
    ensures
        spec_slice_of(m, s, 0, s.len() as int),
{
    let (a, b) = choose|a: int, b: int| lo <= a <= b <= hi && m == #[trigger] s.subrange(a, b);
    assert(m == s.subrange(a, b));
}

/// A section built by the body parser keeps the preservation promise.
proof fn lemma_section_preserved_from(sec: Section, s: Seq<char>, lo: int, hi: int)
    requires
        0 <= lo,
        hi <= s.len(),
        sec matches Section::Release { removed_messages, segments, .. } ==> {
            &&& spec_distinct_ids(removed_messages@)
            &&& forall|k: int|
                0 <= k < segments@.len() ==> spec_seg_ok(#[trigger] segments@[k], s, lo, hi)
        },
        sec is Release,
    ensures
        spec_section_preserved(sec, s),
{
    match sec {
        Section::Release { segments, .. } => {
            assert forall|k: int|
                0 <= k < segments@.len() implies spec_seg_preserved(#[trigger] segments@[k], s) by {
                assert(spec_seg_ok(segments@[k], s, lo, hi));
                match segments@[k] {
                    Segment::User { markdown } => {
                        lemma_slice_widen(markdown@, s, lo, hi);
                    },
                    Segment::Conventional(c) => {
                        assert forall|j: int|
                            0 <= j < c.messages@.len() implies spec_msg_preserved(
                            #[trigger] c.messages@[j],
                            s,
                        ) by {
                            assert(spec_msg_ok(c.messages@[j], s, lo, hi));
                            match c.messages@[j] {
                                Message::User { markdown } => {
                                    lemma_slice_widen(markdown@, s, lo, hi);
                                },
                                _ => {},
                            }
                        }
                    },
                    _ => {},
                }
            }
        },
        _ => {},
    }
}

/// Every element of a rearranged sequence is well formed and keeps the
/// preservation promise if every element of the original does.
proof fn lemma_all_wf_transfer(a: Seq<Section>, b: Seq<Section>, input: Seq<char>)
    requires
        a.to_multiset() == b.to_multiset(),
        forall|k: int| 0 <= k < b.len() ==> (#[trigger] b[k]).wf(),
        forall|k: int| 0 <= k < b.len() ==> spec_section_preserved(#[trigger] b[k], input),
        forall|k: int| 0 <= k < b.len() ==> (#[trigger] b[k]) is Release,
    ensures
        forall|k: int| 0 <= k < a.len() ==> (#[trigger] a[k]).wf(),
        forall|k: int| 0 <= k < a.len() ==> spec_section_preserved(#[trigger] a[k], input),
        forall|k: int| 0 <= k < a.len() ==> (#[trigger] a[k]) is Release,
{
    broadcast use vstd::seq_lib::group_to_multiset_ensures;

    assert forall|k: int|
        0 <= k < a.len() implies (#[trigger] a[k]).wf() && spec_section_preserved(a[k], input)
        && a[k] is Release by {
        assert(a.contains(a[k]));
        assert(a.to_multiset().count(a[k]) > 0);
        assert(b.contains(a[k]));
        let j = choose|j: int| 0 <= j < b.len() && b[j] == a[k];
        assert(b[j].wf());
        assert(spec_section_preserved(b[j], input));
        assert(b[j] is Release);
    }
}

/// A parsed section is well formed and keeps the preservation promise.
pub open spec fn spec_section_good(sec: Section, input: Seq<char>) -> bool {
    sec.wf() && spec_section_preserved(sec, input)
}

impl ChangeLog {
    /// Obtains as much information as possible from `input` and keeps
    /// everything it did not understand in the respective sections.
    ///
    /// Every line that matches the headline grammar opens a release section;
    /// the text before the first headline, if any, stays as a verbatim
    /// section pinned to the front. Release sections are ordered with the
    /// unreleased entry first, then by date, newest first, dated entries
    /// before undated ones, undated ties by version, highest first. A
    /// document without a single headline is kept whole as one verbatim
    /// section. Loading never fails: anything unrecognized is carried
    /// through as exact slices of the input.
    ///
    /// Each release keeps the depth its own headline was written with;
    /// `from_markdown_normalized` instead forces every release to the first
    /// headline's depth. Whether to normalize is deliberately left to the
    /// caller, so documents with mixed nesting are not silently rewritten.
    pub fn from_markdown(input: &str) -> (r: ChangeLog)
        ensures
            r.wf(),
            r.sections@.len() >= 1,
            spec_sorted_releases(r.sections@),
            spec_release_layout(r.sections@),
            spec_count_releases(r.sections@) == spec_count_headlines(input@, 0),
            forall|i: int|
                0 <= i < r.sections@.len() ==> spec_section_preserved(
                    #[trigger] r.sections@[i],
                    input@,
                ),
            !spec_has_headline(input@, 0) ==> {
                &&& r.sections@.len() == 1
                &&& (r.sections@[0] matches Section::Verbatim { text, generated } ==> text@
                    == input@ && !generated)
                &&& r.sections@[0] is Verbatim
            },
    {
        let chars = text::str_to_chars(input);
        let n = chars.len();
        let mut sections: Vec<Section> = Vec::new();
        let mut prev: Option<Headline> = None;
        let mut body_start: usize = 0;
        let mut i: usize = 0;
        while i < n
            invariant
                chars@ == input@,
                body_start <= i <= n == chars@.len(),
                prev is None ==> sections@.len() == 0 && body_start == 0,
                prev matches Some(h) ==> h.level < usize::MAX,
                spec_has_headline(chars@, 0) == (prev is Some || spec_has_headline(
                    chars@,
                    i as int,
                )),
                spec_count_releases(sections@) + (if prev is Some {
                    1int
                } else {
                    0int
                }) + spec_count_headlines(chars@, i as int) == spec_count_headlines(chars@, 0),
                forall|k: int|
                    0 <= k < sections@.len() ==> spec_section_good(
                        #[trigger] sections@[k],
                        chars@,
                    ),
            decreases n - i,
        {
            let le = text::line_end(&chars, i, n);
            let ghost secs0 = sections@;
            match parse_headline(&chars, input, i, le) {
                Some(h) => {
                    let old_prev = prev;
                    match old_prev {
                        Some(ph) => {
                            let sec = section_from_headline_and_body(
                                ph,
                                &chars,
                                input,
                                body_start,
                                i,
                            );
                            proof {
                                lemma_section_preserved_from(
                                    sec,
                                    chars@,
                                    body_start as int,
                                    i as int,
                                );
                                lemma_count_releases_push(sections@, sec);
                            }
                            sections.push(sec);
                        },
                        None => {
                            if body_start < i {
                                let text_s = text::slice_string(input, body_start, i);
                                proof {
                                    assert(text_s@ == chars@.subrange(
                                        body_start as int,
                                        i as int,
                                    ));
                                    lemma_count_releases_push(
                                        sections@,
                                        Section::Verbatim { text: text_s, generated: false },
                                    );
                                }
                                sections.push(Section::Verbatim { text: text_s, generated: false });
                            }
                        },
                    }
                    proof {
                        assert forall|k: int|
                            0 <= k < sections@.len() implies spec_section_good(
                            #[trigger] sections@[k],
                            chars@,
                        ) by {
                            if k < secs0.len() {
                                assert(sections@[k] == secs0[k]);
                            }
                        }
                    }
                    prev = Some(h);
                    body_start = le;
                },
                None => {},
            }
            proof {
                assert(spec_has_headline(chars@, i as int) == (spec_headline(
                    chars@,
                    i as int,
                    le as int,
                ) is Some || spec_has_headline(chars@, le as int)));
                assert(spec_count_headlines(chars@, i as int) == (if spec_headline(
                    chars@,
                    i as int,
                    le as int,
                ) is Some {
                    1int
                } else {
                    0int
                }) + spec_count_headlines(chars@, le as int));
            }
            i = le;
        }
        match prev {
            Some(ph) => {
                let ghost secs0 = sections@;
                let sec = section_from_headline_and_body(ph, &chars, input, body_start, n);
                proof {
                    lemma_section_preserved_from(sec, chars@, body_start as int, n as int);
                    lemma_count_releases_push(sections@, sec);
                }
                sections.push(sec);
                proof {
                    assert forall|k: int|
                        0 <= k < sections@.len() implies spec_section_good(
                        #[trigger] sections@[k],
                        chars@,
                    ) by {
                        if k < secs0.len() {
                            assert(sections@[k] == secs0[k]);
                        }
                    }
                }
            },
            None => {
                let ghost secs0 = sections@;
                let text_s = text::slice_string(input, 0, n);
                proof {
                    assert(input@.subrange(0, n as int) =~= input@);
                }
                proof {
                    lemma_count_releases_push(
                        sections@,
                        Section::Verbatim { text: text_s, generated: false },
                    );
                }
                sections.push(Section::Verbatim { text: text_s, generated: false });
                proof {
                    assert(text_s@ == chars@.subrange(0, n as int));
                    assert forall|k: int|
                        0 <= k < sections@.len() implies spec_section_good(
                        #[trigger] sections@[k],
                        chars@,
                    ) by {
                        if k < secs0.len() {
                            assert(sections@[k] == secs0[k]);
                        }
                    }
                }
            },
        }
        let ghost had_headline = spec_has_headline(input@, 0);
        let ghost built = sections@;
        proof {
            assert(spec_count_releases(built) == spec_count_headlines(chars@, 0));
        }
        // Pin a leading verbatim section, sort the releases, and keep any
        // trailing non-release sections after them in their original order.
        let mut rest = sections;
        let mut pin: Option<Section> = None;
        let mut releases: Vec<Section> = Vec::new();
        let mut others: Vec<Section> = Vec::new();
        let mut first = true;
        while rest.len() > 0
            invariant
                chars@ == input@,
                pin is Some ==> !(pin->Some_0 is Release) && spec_section_good(
                    pin->Some_0,
                    chars@,
                ),
                forall|k: int|
                    0 <= k < releases@.len() ==> spec_section_good(
                        #[trigger] releases@[k],
                        chars@,
                    ) && releases@[k] is Release,
                forall|k: int|
                    0 <= k < others@.len() ==> spec_section_good(#[trigger] others@[k], chars@)
                        && !(others@[k] is Release),
                forall|k: int|
                    0 <= k < rest@.len() ==> spec_section_good(#[trigger] rest@[k], chars@),
                releases@.len() + spec_count_releases(rest@) == spec_count_releases(built),
                (if pin is Some {
                    1int
                } else {
                    0int
                }) + releases@.len() + others@.len() + rest@.len() == built.len(),
                built.len() == 1 && rest@.len() == 0 && !(built[0] is Release) ==> pin is Some
                    && pin->Some_0 == built[0],
                rest@.len() == built.len() ==> rest@ == built,
                first <==> rest@.len() == built.len(),
            decreases rest@.len(),
        {
            let ghost rest0 = rest@;
            let sec = rest.remove(0);
            let is_rel = match &sec {
                Section::Release { .. } => true,
                _ => false,
            };
            if first && !is_rel {
                pin = Some(sec);
            } else if is_rel {
                let ghost rels0 = releases@;
                releases.push(sec);
                proof {
                    assert forall|k: int|
                        0 <= k < releases@.len() implies spec_section_good(
                        #[trigger] releases@[k],
                        chars@,
                    ) && releases@[k] is Release by {
                        if k < rels0.len() {
                            assert(releases@[k] == rels0[k]);
                        }
                    }
                }
            } else {
                let ghost oth0 = others@;
                others.push(sec);
                proof {
                    assert forall|k: int|
                        0 <= k < others@.len() implies spec_section_good(
                        #[trigger] others@[k],
                        chars@,
                    ) && !(others@[k] is Release) by {
                        if k < oth0.len() {
                            assert(others@[k] == oth0[k]);
                        }
                    }
                }
            }
            first = false;
            proof {
                assert(rest0.remove(0) =~= rest@);
                assert(rest0.drop_first() =~= rest@);
            }
        }
        let sorted = sort_releases(releases);
        let ghost sorted0 = sorted@;
        let ghost pin_seq: Seq<Section> = if pin is Some {
            seq![pin->Some_0]
        } else {
            Seq::empty()
        };
        let ghost others0 = others@;
        proof {
            lemma_all_wf_transfer(sorted0, releases@, chars@);
        }
        let mut out: Vec<Section> = Vec::new();
        match pin {
            Some(p) => {
                out.push(p);
            },
            None => {},
        }
        proof {
            assert(out@ =~= pin_seq);
            assert(sorted0.subrange(0, sorted0.len() as int) =~= sorted0);
            assert(sorted0.subrange(0, 0) =~= Seq::<Section>::empty());
            assert(out@ =~= pin_seq + sorted0.subrange(0, 0));
        }
        let mut srest = sorted;
        while srest.len() > 0
            invariant
                srest@.len() <= sorted0.len(),
                srest@ == sorted0.subrange(
                    sorted0.len() - srest@.len(),
                    sorted0.len() as int,
                ),
                out@ == pin_seq + sorted0.subrange(0, sorted0.len() - srest@.len()),
            decreases srest@.len(),
        {
            let ghost srest0 = srest@;
            let ghost out0 = out@;
            let x = srest.remove(0);
            out.push(x);
            proof {
                let k = sorted0.len() - srest0.len();
                assert(x == srest0[0]);
                assert(srest0[0] == sorted0[k]);
                assert(srest0.remove(0) =~= srest@);
                assert(srest@ =~= sorted0.subrange(k + 1, sorted0.len() as int));
                assert(out@ =~= pin_seq + sorted0.subrange(0, k + 1));
            }
        }
        proof {
            assert(sorted0.subrange(0, sorted0.len() as int) =~= sorted0);
            assert(out@ == pin_seq + sorted0);
        }
        proof {
            assert(others0.subrange(0, others0.len() as int) =~= others0);
            assert(others0.subrange(0, 0) =~= Seq::<Section>::empty());
            assert(out@ =~= pin_seq + sorted0 + others0.subrange(0, 0));
        }
        let mut orest = others;
        while orest.len() > 0
            invariant
                orest@.len() <= others0.len(),
                orest@ == others0.subrange(
                    others0.len() - orest@.len(),
                    others0.len() as int,
                ),
                out@ == pin_seq + sorted0 + others0.subrange(0, others0.len() - orest@.len()),
            decreases orest@.len(),
        {
            let ghost orest0 = orest@;
            let x = orest.remove(0);
            out.push(x);
            proof {
                let k = others0.len() - orest0.len();
                assert(x == orest0[0]);
                assert(orest0[0] == others0[k]);
                assert(orest0.remove(0) =~= orest@);
                assert(orest@ =~= others0.subrange(k + 1, others0.len() as int));
                assert(out@ =~= pin_seq + sorted0 + others0.subrange(0, k + 1));
            }
        }
        proof {
            assert(others0.subrange(0, others0.len() as int) =~= others0);
            assert(out@ == pin_seq + sorted0 + others0);
            let p = pin_seq.len();
            let sl = sorted0.len();
            assert forall|a: int| 0 <= a < out@.len() - 1 implies spec_release_le(
                #[trigger] out@[a],
                out@[a + 1],
            ) by {
                lemma_cmp_release_anti(out@[a], out@[a + 1]);
                if a < p {
                    assert(out@[a] == pin_seq[a]);
                    assert(!(out@[a] is Release));
                } else if a + 1 < p + sl {
                    assert(out@[a] == sorted0[a - p]);
                    assert(out@[a + 1] == sorted0[a + 1 - p]);
                    assert(spec_sorted_releases(sorted0));
                } else {
                    assert(out@[a + 1] == others0[a + 1 - p - sl]);
                    assert(!(out@[a + 1] is Release));
                }
            }
            assert forall|k: int|
                0 <= k < out@.len() implies (#[trigger] out@[k]).wf() && spec_section_preserved(
                out@[k],
                input@,
            ) by {
                if k < p {
                    assert(out@[k] == pin_seq[k]);
                } else if k < p + sl {
                    assert(out@[k] == sorted0[k - p]);
                } else {
                    assert(out@[k] == others0[k - p - sl]);
                }
            }
            lemma_count_releases_concat(pin_seq + sorted0, others0);
            lemma_count_releases_concat(pin_seq, sorted0);
            lemma_count_releases_uniform(pin_seq);
            lemma_count_releases_uniform(sorted0);
            lemma_count_releases_uniform(others0);
            assert forall|k: int| 0 <= k < pin_seq.len() implies !((#[trigger] pin_seq[k])
                is Release) by {
                assert(pin_seq[k] == pin->Some_0);
            }
            assert(spec_count_releases(out@) == spec_count_headlines(input@, 0));
            assert(spec_release_block(out@, p as int, (p + sl) as int)) by {
                assert forall|idx: int| 0 <= idx < p implies !((#[trigger] out@[idx]) is Release) by {
                    assert(out@[idx] == pin_seq[idx]);
                }
                assert forall|idx: int| p <= idx < p + sl implies (#[trigger] out@[idx]) is Release by {
                    assert(out@[idx] == sorted0[idx - p]);
                }
                assert forall|idx: int|
                    p + sl <= idx < out@.len() implies !((#[trigger] out@[idx]) is Release) by {
                    assert(out@[idx] == others0[idx - p - sl]);
                }
            }
            if !had_headline {
                assert(built.len() == 1);
                assert(!(built[0] is Release));
                assert(out@.len() == 1);
                assert(out@[0] == pin_seq[0]);
            }
        }
        ChangeLog { sections: out }
    }
}

/// The depth of the first release headline in the document, if any.
pub open spec fn spec_first_headline_level(s: Seq<char>, i: int) -> Option<int>
    decreases s.len() - i,
    via spec_first_headline_level_dec
{
    if 0 <= i < s.len() {
        let le = text::spec_line_end(s, i, s.len() as int);
        match spec_headline(s, i, le) {
            Some(h) => Some(h.level),
            None => spec_first_headline_level(s, le),
        }
    } else {
        None
    }
}

#[via_fn]
proof fn spec_first_headline_level_dec(s: Seq<char>, i: int) {
    if 0 <= i < s.len() {
        text::lemma_line_end_bounds(s, i, s.len() as int);
    }
}

/// There is a first headline exactly when there is a headline at all.
proof fn lemma_first_headline_level_some(s: Seq<char>, i: int)
    ensures
        spec_first_headline_level(s, i) is Some <==> spec_has_headline(s, i),
    decreases s.len() - i,
{
    if 0 <= i < s.len() {
        text::lemma_line_end_bounds(s, i, s.len() as int);
        lemma_first_headline_level_some(s, text::spec_line_end(s, i, s.len() as int));
    }
}

/// A document without a headline counts no headline lines.
proof fn lemma_no_headline_count(s: Seq<char>, i: int)
    requires
        !spec_has_headline(s, i),
    ensures
        spec_count_headlines(s, i) == 0,
    decreases s.len() - i,
{
    if 0 <= i < s.len() {
        text::lemma_line_end_bounds(s, i, s.len() as int);
        lemma_no_headline_count(s, text::spec_line_end(s, i, s.len() as int));
    }
}

/// A section list counting no releases holds none.
proof fn lemma_count_zero_no_release(ss: Seq<Section>)
    requires
        spec_count_releases(ss) == 0,
    ensures
        forall|k: int| 0 <= k < ss.len() ==> !((#[trigger] ss[k]) is Release),
    decreases ss.len(),
{
    if ss.len() > 0 {
        lemma_count_releases_nonneg(ss.drop_first());
        lemma_count_zero_no_release(ss.drop_first());
        assert forall|k: int| 0 <= k < ss.len() implies !((#[trigger] ss[k]) is Release) by {
            if k > 0 {
                assert(ss.drop_first()[k - 1] == ss[k]);
            }
        }
    }
}

/// The release count is never negative.
proof fn lemma_count_releases_nonneg(ss: Seq<Section>)
    ensures
        spec_count_releases(ss) >= 0,
    decreases ss.len(),
{
    if ss.len() > 0 {
        lemma_count_releases_nonneg(ss.drop_first());
    }
}

/// The section with its heading depth forced to `l`; non-release sections
/// are untouched.
pub open spec fn spec_normalize_level(sec: Section, l: usize) -> Section {
    match sec {
        Section::Release {
            name,
            removed_messages,
            date,
            heading_level,
            version_prefix,
            segments,
            unknown,
        } => Section::Release {
            name,
            removed_messages,
            date,
            heading_level: l,
            version_prefix,
            segments,
            unknown,
        },
        Section::Verbatim { text, generated } => Section::Verbatim { text, generated },
    }
}

/// Forcing the depth changes neither the release order of two sections nor
/// their release count or preservation promise.
proof fn lemma_normalize_level_facts(a: Section, b: Section, l: usize, input: Seq<char>)
    ensures
        spec_cmp_release(spec_normalize_level(a, l), spec_normalize_level(b, l))
            == spec_cmp_release(a, b),
        spec_normalize_level(a, l) is Release <==> a is Release,
        spec_section_preserved(a, input) ==> spec_section_preserved(
            spec_normalize_level(a, l),
            input,
        ),
        l < usize::MAX && a.wf() ==> spec_normalize_level(a, l).wf(),
{
}

/// Pointwise depth forcing keeps the release count.
proof fn lemma_normalize_count(t: Seq<Section>, ss: Seq<Section>, l: usize)
    requires
        t.len() == ss.len(),
        forall|k: int| 0 <= k < ss.len() ==> #[trigger] t[k] == spec_normalize_level(ss[k], l),
    ensures
        spec_count_releases(t) == spec_count_releases(ss),
    decreases ss.len(),
{
    if ss.len() > 0 {
        assert forall|k: int|
            0 <= k < ss.drop_first().len() implies #[trigger] t.drop_first()[k]
            == spec_normalize_level(ss.drop_first()[k], l) by {
            assert(t.drop_first()[k] == t[k + 1]);
            assert(ss.drop_first()[k] == ss[k + 1]);
        }
        lemma_normalize_count(t.drop_first(), ss.drop_first(), l);
        lemma_normalize_level_facts(ss[0], ss[0], l, Seq::empty());
        assert(t[0] == spec_normalize_level(ss[0], l));
    }
}

impl ChangeLog {
    /// Like `from_markdown`, but with every release headline forced to the
    /// depth of the first headline in the document, so that inconsistent
    /// hand-authored nesting does not fragment the sorted output. The plain
    /// `from_markdown` keeps each headline's own depth instead; this
    /// variant is for callers that want the normalized layout.
    pub fn from_markdown_normalized(input: &str) -> (r: ChangeLog)
        ensures
            r.wf(),
            r.sections@.len() >= 1,
            spec_sorted_releases(r.sections@),
            spec_release_layout(r.sections@),
            spec_count_releases(r.sections@) == spec_count_headlines(input@, 0),
            forall|i: int|
                0 <= i < r.sections@.len() ==> spec_section_preserved(
                    #[trigger] r.sections@[i],
                    input@,
                ),
            forall|i: int|
                0 <= i < r.sections@.len() ==> ((#[trigger] r.sections@[i]) matches Section::Release {
                    heading_level,
                    ..
                } ==> Some(heading_level as int) == spec_first_headline_level(input@, 0)),
            !spec_has_headline(input@, 0) ==> {
                &&& r.sections@.len() == 1
                &&& (r.sections@[0] matches Section::Verbatim { text, generated } ==> text@
                    == input@ && !generated)
                &&& r.sections@[0] is Verbatim
            },
    {
        let log = ChangeLog::from_markdown(input);
        let chars = text::str_to_chars(input);
        let n = chars.len();
        let mut lvl: Option<usize> = None;
        let mut i: usize = 0;
        while i < n
            invariant
                chars@ == input@,
                i <= n == chars@.len(),
                lvl matches Some(l) ==> l < usize::MAX,
                spec_first_headline_level(chars@, 0) == (match lvl {
                    Some(l) => Some(l as int),
                    None => spec_first_headline_level(chars@, i as int),
                }),
            decreases n - i,
        {
            let le = text::line_end(&chars, i, n);
            match lvl {
                Some(_) => {},
                None => {
                    match parse_headline(&chars, input, i, le) {
                        Some(h) => {
                            lvl = Some(h.level);
                        },
                        None => {},
                    }
                },
            }
            proof {
                assert(spec_first_headline_level(chars@, i as int) == (match spec_headline(
                    chars@,
                    i as int,
                    le as int,
                ) {
                    Some(h) => Some(h.level),
                    None => spec_first_headline_level(chars@, le as int),
                }));
            }
            i = le;
        }
        let l = match lvl {
            Some(l) => l,
            None => {
                proof {
                    lemma_first_headline_level_some(chars@, 0);
                    lemma_no_headline_count(chars@, 0);
                    lemma_count_zero_no_release(log.sections@);
                }
                return log;
            },
        };
        proof {
            lemma_first_headline_level_some(chars@, 0);
        }
        let ghost orig = log.sections@;
        let mut rest = log.sections;
        let mut out: Vec<Section> = Vec::new();
        while rest.len() > 0
            invariant
                l < usize::MAX,
                out@.len() + rest@.len() == orig.len(),
                rest@ == orig.subrange(out@.len() as int, orig.len() as int),
                forall|k: int|
                    0 <= k < out@.len() ==> #[trigger] out@[k] == spec_normalize_level(orig[k], l),
            decreases rest@.len(),
        {
            let ghost rest0 = rest@;
            let ghost out0 = out@;
            let sec = rest.remove(0);
            proof {
                assert(rest0.remove(0) =~= rest@);
                assert(sec == orig[out0.len() as int]);
            }
            match sec {
                Section::Release {
                    name,
                    removed_messages,
                    date,
                    heading_level: _,
                    version_prefix,
                    segments,
                    unknown,
                } => {
                    out.push(
                        Section::Release {
                            name,
                            removed_messages,
                            date,
                            heading_level: l,
                            version_prefix,
                            segments,
                            unknown,
                        },
                    );
                },
                Section::Verbatim { text, generated } => {
                    out.push(Section::Verbatim { text, generated });
                },
            }
            proof {
                assert(rest@ =~= orig.subrange(out@.len() as int, orig.len() as int));
                assert forall|k: int|
                    0 <= k < out@.len() implies #[trigger] out@[k] == spec_normalize_level(
                    orig[k],
                    l,
                ) by {
                    if k < out0.len() {
                        assert(out@[k] == out0[k]);
                    }
                }
            }
        }
        proof {
            assert(out@.len() == orig.len());
            assert forall|a: int|
                0 <= a < out@.len() - 1 implies spec_release_le(
                #[trigger] out@[a],
                out@[a + 1],
            ) by {
                lemma_normalize_level_facts(orig[a], orig[a + 1], l, input@);
            }
            assert forall|k: int|
                0 <= k < out@.len() implies (#[trigger] out@[k]).wf() && spec_section_preserved(
                out@[k],
                input@,
            ) by {
                lemma_normalize_level_facts(orig[k], orig[k], l, input@);
            }
            lemma_normalize_count(out@, orig, l);
            let (a, b) = choose|a: int, b: int|
                0 <= a <= b <= orig.len() && a <= 1 && #[trigger] spec_release_block(orig, a, b);
            assert(spec_release_block(out@, a, b)) by {
                assert forall|idx: int| 0 <= idx < a implies !((#[trigger] out@[idx]) is Release) by {
                    lemma_normalize_level_facts(orig[idx], orig[idx], l, input@);
                }
                assert forall|idx: int| a <= idx < b implies (#[trigger] out@[idx]) is Release by {
                    lemma_normalize_level_facts(orig[idx], orig[idx], l, input@);
                }
                assert forall|idx: int|
                    b <= idx < out@.len() implies !((#[trigger] out@[idx]) is Release) by {
                    lemma_normalize_level_facts(orig[idx], orig[idx], l, input@);
                }
            }
        }
        ChangeLog { sections: out }
    }
}

} // verus!
