//! The round-trip laws of the headline: reading back what the writer emits
//! recovers the release fields.
//!
//! For the unreleased entry the round trip is proved whole. For a semantic
//! version the headline structure (depth, prefix, date, and the version
//! token itself) round-trips exactly, and the version value goes through
//! whatever the version parser returns for the canonical version text.

use vstd::prelude::*;

use crate::changelog::parse::{
    spec_headline, spec_skip_hashes, spec_skip_non_ws, spec_all_digits, spec_date_at,
    spec_digits_val, spec_gen_marker_at, spec_removed_at, spec_unreleased_at, SpecHeadline,
};
use crate::id::{lemma_hex_len, lemma_hex_round_trip, spec_hex_of, spec_id_of, ObjectId};
use crate::changelog::write::{spec_hashes, spec_headline_str};
use crate::changelog::Version;
use crate::text;
use crate::version::{semver_of, spec_date_str, spec_semver_str, Date, SemVer};

verus! {

/// Characterization of the hash run: on a text whose first characters up to
/// `h` are hashes and whose character at `h` is not, the scan stops at `h`.
proof fn lemma_skip_hashes_run(s: Seq<char>, i: int, h: int, end: int)
    requires
        0 <= i <= h < end <= s.len(),
        forall|k: int| i <= k < h ==> s[k] == '#',
        s[h] != '#',
    ensures
        spec_skip_hashes(s, i, end) == h,
    decreases h - i,
{
    if i < h {
        lemma_skip_hashes_run(s, i + 1, h, end);
    }
}

/// Characterization of the whitespace run: the scan stops at the first
/// non-whitespace character.
proof fn lemma_skip_ws_run(s: Seq<char>, i: int, j: int, end: int)
    requires
        0 <= i <= j < end <= s.len(),
        text::spec_all_ws(s, i, j),
        !text::spec_is_ws(s[j]),
    ensures
        text::spec_skip_ws(s, i, end) == j,
    decreases j - i,
{
    if i < j {
        lemma_skip_ws_run(s, i + 1, j, end);
    }
}

/// A whitespace run to the very end is skipped whole.
proof fn lemma_skip_ws_all(s: Seq<char>, i: int, end: int)
    requires
        0 <= i <= end <= s.len(),
        text::spec_all_ws(s, i, end),
    ensures
        text::spec_skip_ws(s, i, end) == end,
    decreases end - i,
{
    if i < end {
        lemma_skip_ws_all(s, i + 1, end);
    }
}

/// Characterization of the token scan: it stops at the first whitespace.
proof fn lemma_skip_non_ws_run(s: Seq<char>, i: int, j: int, end: int)
    requires
        0 <= i <= j < end <= s.len(),
        forall|k: int| i <= k < j ==> !text::spec_is_ws(#[trigger] s[k]),
        text::spec_is_ws(s[j]),
    ensures
        spec_skip_non_ws(s, i, end) == j,
    decreases j - i,
{
    if i < j {
        lemma_skip_non_ws_run(s, i + 1, j, end);
    }
}

/// No decimal digit character is whitespace, and each one reads back as its
/// value.
proof fn lemma_digit_char_facts(d: int)
    requires
        0 <= d <= 9,
    ensures
        text::spec_is_digit(text::spec_digit_char(d)),
        !text::spec_is_ws(text::spec_digit_char(d)),
        text::spec_digit_val(text::spec_digit_char(d)) == d,
{
}

/// Ten to the `w`.
spec fn pow10(w: int) -> int
    decreases w,
{
    if w <= 0 {
        1
    } else {
        10 * pow10(w - 1)
    }
}

/// The zero-padded form has exactly `w` characters, all digits.
proof fn lemma_dec_pad_shape(n: int, w: int)
    requires
        0 <= n,
        1 <= w,
    ensures
        text::spec_dec_pad(n, w).len() == w,
        forall|j: int|
            0 <= j < w ==> text::spec_is_digit(#[trigger] text::spec_dec_pad(n, w)[j])
                && !text::spec_is_ws(text::spec_dec_pad(n, w)[j]),
    decreases w,
{
    lemma_digit_char_facts(n % 10);
    if w > 1 {
        lemma_dec_pad_shape(n / 10, w - 1);
        assert forall|j: int|
            0 <= j < w implies text::spec_is_digit(#[trigger] text::spec_dec_pad(n, w)[j])
            && !text::spec_is_ws(text::spec_dec_pad(n, w)[j]) by {
            if j < w - 1 {
                assert(text::spec_dec_pad(n, w)[j] == text::spec_dec_pad(n / 10, w - 1)[j]);
            }
        }
    }
}

/// Digits written zero-padded read back as the original value, as long as
/// the value fits the width.
proof fn lemma_dec_pad_val(s: Seq<char>, i: int, n: int, w: int)
    requires
        0 <= n < pow10(w),
        1 <= w,
        0 <= i,
        i + w <= s.len(),
        s.subrange(i, i + w) == text::spec_dec_pad(n, w),
    ensures
        spec_all_digits(s, i, w),
        spec_digits_val(s, i, w) == n,
    decreases w,
{
    lemma_dec_pad_shape(n, w);
    assert forall|j: int| i <= j < i + w implies text::spec_is_digit(#[trigger] s[j]) by {
        assert(s[j] == s.subrange(i, i + w)[j - i]);
    }
    lemma_digit_char_facts(n % 10);
    assert(s[i + w - 1] == s.subrange(i, i + w)[w - 1]);
    if w == 1 {
        assert(pow10(0) == 1);
        assert(pow10(1) == 10);
        assert(spec_digits_val(s, i, 0) == 0);
        assert(spec_digits_val(s, i, 1) == text::spec_digit_val(s[i]));
        assert(n < 10);
        assert(text::spec_dec_pad(n, 1) == seq![text::spec_digit_char(n % 10)]);
    } else {
        assert(s.subrange(i, i + w - 1) =~= text::spec_dec_pad(n / 10, w - 1)) by {
            lemma_dec_pad_shape(n / 10, w - 1);
            assert forall|j: int|
                0 <= j < w - 1 implies #[trigger] s.subrange(i, i + w - 1)[j] == text::spec_dec_pad(
                n / 10,
                w - 1,
            )[j] by {
                assert(s.subrange(i, i + w - 1)[j] == s[i + j]);
                assert(s[i + j] == s.subrange(i, i + w)[j]);
                assert(text::spec_dec_pad(n, w)[j] == text::spec_dec_pad(n / 10, w - 1)[j]);
            }
        }
        lemma_dec_pad_val(s, i, n / 10, w - 1);
        assert(text::spec_dec_pad(n, w)[w - 1] == text::spec_digit_char(n % 10));
        assert(text::spec_digit_val(s[i + w - 1]) == n % 10);
        assert(spec_digits_val(s, i, w) == spec_digits_val(s, i, w - 1) * 10
            + text::spec_digit_val(s[i + w - 1]));
    }
}

/// The date text reads back as the date it was written from.
proof fn lemma_date_read_back(s: Seq<char>, i: int, d: Date, end: int)
    requires
        d.spec_valid(),
        d.year <= 9999,
        0 <= i,
        i + 11 <= end <= s.len(),
        s.subrange(i, i + 10) == spec_date_str(d),
        s[i + 10] == ')',
    ensures
        spec_date_at(s, i, end) == Some(d),
{
    let ds = spec_date_str(d);
    lemma_dec_pad_shape(d.year as int, 4);
    lemma_dec_pad_shape(d.month as int, 2);
    lemma_dec_pad_shape(d.day as int, 2);
    assert(ds.len() == 10);
    assert(s.subrange(i, i + 4) =~= text::spec_dec_pad(d.year as int, 4)) by {
        assert forall|j: int|
            0 <= j < 4 implies s.subrange(i, i + 4)[j] == text::spec_dec_pad(d.year as int, 4)[j] by {
            assert(s.subrange(i, i + 4)[j] == s.subrange(i, i + 10)[j]);
        }
    }
    assert(s[i + 4] == ds[4]);
    assert(ds[4] == '-');
    assert(s.subrange(i + 5, i + 7) =~= text::spec_dec_pad(d.month as int, 2)) by {
        assert forall|j: int|
            0 <= j < 2 implies s.subrange(i + 5, i + 7)[j] == text::spec_dec_pad(
            d.month as int,
            2,
        )[j] by {
            assert(s.subrange(i + 5, i + 7)[j] == s.subrange(i, i + 10)[j + 5]);
        }
    }
    assert(s[i + 7] == ds[7]);
    assert(ds[7] == '-');
    assert(s.subrange(i + 8, i + 10) =~= text::spec_dec_pad(d.day as int, 2)) by {
        assert forall|j: int|
            0 <= j < 2 implies s.subrange(i + 8, i + 10)[j] == text::spec_dec_pad(
            d.day as int,
            2,
        )[j] by {
            assert(s.subrange(i + 8, i + 10)[j] == s.subrange(i, i + 10)[j + 8]);
        }
    }
    assert(pow10(0) == 1);
    assert(pow10(1) == 10);
    assert(pow10(2) == 100);
    assert(pow10(3) == 1000);
    assert(pow10(4) == 10000);
    lemma_dec_pad_val(s, i, d.year as int, 4);
    lemma_dec_pad_val(s, i + 5, d.month as int, 2);
    lemma_dec_pad_val(s, i + 8, d.day as int, 2);
}

/// The decimal form of a number is made of digits only.
proof fn lemma_dec_shape(n: int)
    ensures
        text::spec_dec(n).len() >= 1,
        forall|j: int|
            0 <= j < text::spec_dec(n).len() ==> text::spec_is_digit(#[trigger] text::spec_dec(n)[j])
                && !text::spec_is_ws(text::spec_dec(n)[j]),
    decreases n,
{
    if n <= 9 {
        lemma_digit_char_facts(if n < 0 { 0 } else { n });
    } else {
        lemma_dec_shape(n / 10);
        lemma_digit_char_facts(n % 10);
        assert forall|j: int|
            0 <= j < text::spec_dec(n).len() implies text::spec_is_digit(
            #[trigger] text::spec_dec(n)[j],
        ) && !text::spec_is_ws(text::spec_dec(n)[j]) by {
            if j < text::spec_dec(n).len() - 1 {
                assert(text::spec_dec(n)[j] == text::spec_dec(n / 10)[j]);
            }
        }
    }
}

/// The canonical version text starts with a digit and holds no whitespace,
/// as long as the pre-release and build fields hold none.
proof fn lemma_semver_str_shape(v: SemVer)
    requires
        forall|j: int| 0 <= j < v.pre@.len() ==> !text::spec_is_ws(#[trigger] v.pre@[j]),
        forall|j: int| 0 <= j < v.build@.len() ==> !text::spec_is_ws(#[trigger] v.build@[j]),
    ensures
        spec_semver_str(v).len() >= 1,
        text::spec_is_digit(spec_semver_str(v)[0]),
        forall|j: int|
            0 <= j < spec_semver_str(v).len() ==> !text::spec_is_ws(
                #[trigger] spec_semver_str(v)[j],
            ),
{
    let t = spec_semver_str(v);
    lemma_dec_shape(v.major as int);
    lemma_dec_shape(v.minor as int);
    lemma_dec_shape(v.patch as int);
    assert(t[0] == text::spec_dec(v.major as int)[0]);
    assert forall|j: int| 0 <= j < t.len() implies !text::spec_is_ws(#[trigger] t[j]) by {
        let a = text::spec_dec(v.major as int);
        let b = text::spec_dec(v.minor as int);
        let c = text::spec_dec(v.patch as int);
        let core = a + seq!['.'] + b + seq!['.'] + c;
        let pre_part = if v.pre@.len() > 0 {
            seq!['-'] + v.pre@
        } else {
            Seq::<char>::empty()
        };
        if j < core.len() {
        } else if j < core.len() + pre_part.len() {
        } else {
        }
    }
}

/// Every character of the hexadecimal form of a hash is a hexadecimal
/// digit, and none is whitespace.
proof fn lemma_hex_of_chars(b: Seq<u8>)
    ensures
        forall|j: int|
            0 <= j < spec_hex_of(b).len() ==> text::spec_is_hex(#[trigger] spec_hex_of(b)[j])
                && !text::spec_is_ws(spec_hex_of(b)[j]),
    decreases b.len(),
{
    if b.len() > 0 {
        lemma_hex_of_chars(b.drop_last());
        lemma_hex_char_facts((b.last() / 16) as int);
        lemma_hex_char_facts((b.last() % 16) as int);
        assert forall|j: int|
            0 <= j < spec_hex_of(b).len() implies text::spec_is_hex(#[trigger] spec_hex_of(b)[j])
            && !text::spec_is_ws(spec_hex_of(b)[j]) by {
            lemma_hex_len(b);
            lemma_hex_len(b.drop_last());
            if j < spec_hex_of(b).len() - 2 {
                assert(spec_hex_of(b)[j] == spec_hex_of(b.drop_last())[j]);
            }
        }
    }
}

/// No hexadecimal digit character is whitespace, and each one is a
/// hexadecimal digit.
proof fn lemma_hex_char_facts(d: int)
    requires
        0 <= d <= 15,
    ensures
        text::spec_is_hex(text::spec_hex_char(d)),
        !text::spec_is_ws(text::spec_hex_char(d)),
{
}

/// Writing a removed-id marker line and reading it back recovers the same
/// hash.
pub proof fn lemma_removed_marker_round_trip(id: ObjectId)
    requires
        id.wf(),
    ensures
        ({
            let line = "<csr-removed-"@ + spec_hex_of(id.view()) + "/>\n"@;
            &&& spec_removed_at(line, 0, line.len() as int)
            &&& spec_id_of(line.subrange(13, 53)) == id.view()
        }),
{
    reveal_strlit("<csr-removed-");
    reveal_strlit("/>\n");
    let h = spec_hex_of(id.view());
    let line = "<csr-removed-"@ + h + "/>\n"@;
    id.lemma_wf_len();
    lemma_hex_len(id.view());
    lemma_hex_of_chars(id.view());
    lemma_hex_round_trip(id.view());
    assert(line.len() == 56);
    assert(line.subrange(0, 13) =~= "<csr-removed-"@);
    assert forall|k: int| 13 <= k < 53 implies text::spec_is_hex(#[trigger] line[k]) by {
        assert(line[k] == h[k - 13]);
    }
    assert(line[53] == "/>\n"@[0]);
    assert(line[54] == "/>\n"@[1]);
    assert(line[55] == "/>\n"@[2]);
    assert(text::spec_all_ws(line, 55, 56));
    assert(line.subrange(13, 53) =~= h);
}

/// Writing a generated-message marker and reading it back recovers the
/// same hash.
pub proof fn lemma_gen_marker_round_trip(id: ObjectId)
    requires
        id.wf(),
    ensures
        ({
            let m = "<csr-id-"@ + spec_hex_of(id.view()) + "/>"@;
            &&& spec_gen_marker_at(m, 0, m.len() as int)
            &&& spec_id_of(m.subrange(8, 48)) == id.view()
        }),
{
    reveal_strlit("<csr-id-");
    reveal_strlit("/>");
    let h = spec_hex_of(id.view());
    let m = "<csr-id-"@ + h + "/>"@;
    id.lemma_wf_len();
    lemma_hex_len(id.view());
    lemma_hex_of_chars(id.view());
    lemma_hex_round_trip(id.view());
    assert(m.len() == 50);
    assert(m.subrange(0, 8) =~= "<csr-id-"@);
    assert forall|k: int| 8 <= k < 48 implies text::spec_is_hex(#[trigger] m[k]) by {
        assert(m[k] == h[k - 8]);
    }
    assert(m[48] == "/>"@[0]);
    assert(m[49] == "/>"@[1]);
    assert(m.subrange(8, 48) =~= h);
}

/// Writing the unreleased headline and parsing the result gives back
/// exactly the written fields: depth, no version, and the date.
#[verifier::rlimit(100)]
#[verifier::spinoff_prover]
pub proof fn lemma_headline_round_trip_unreleased(date: Option<Date>, level: int)
    requires
        level >= 0,
        date matches Some(d) ==> d.spec_valid() && d.year <= 9999,
    ensures
        ({
            let s = spec_headline_str(Version::Unreleased, date, level, Seq::empty());
            spec_headline(s, 0, s.len() as int) == Some(
                SpecHeadline { level, prefix_v: false, version: None, date },
            )
        }),
{
    reveal_strlit(" ");
    reveal_strlit("Unreleased");
    reveal_strlit("unreleased");
    reveal_strlit(" (");
    reveal_strlit(")");
    reveal_strlit("\n\n");
    let s = spec_headline_str(Version::Unreleased, date, level, Seq::empty());
    let hs = spec_hashes(level);
    let u = "Unreleased"@;
    let dp: Seq<char> = match date {
        Some(d) => " ("@ + spec_date_str(d) + ")"@,
        None => Seq::empty(),
    };
    let n = s.len() as int;
    assert(s =~= hs + " "@ + u + dp + "\n\n"@);
    match date {
        Some(d) => {
            lemma_dec_pad_shape(d.year as int, 4);
            lemma_dec_pad_shape(d.month as int, 2);
            lemma_dec_pad_shape(d.day as int, 2);
            assert(dp.len() == 13);
        },
        None => {},
    }
    assert(n == level + 13 + dp.len());
    assert forall|k: int| 0 <= k < level implies s[k] == '#' by {
        assert(s[k] == hs[k]);
    }
    assert(s[level] == ' ');
    assert forall|k: int| 0 <= k < 10 implies s[level + 1 + k] == u[k] by {}
    assert(s[level + 1] == 'U');
    lemma_skip_hashes_run(s, 0, level, n);
    assert(text::spec_all_ws(s, level, level + 1));
    assert(!text::spec_is_ws('U'));
    lemma_skip_ws_run(s, level, level + 1, n);
    let i1 = level + 1;
    assert(s[i1] != 'v');
    assert(!text::spec_is_digit('U'));
    assert(spec_unreleased_at(s, i1, n)) by {
        assert forall|k: int|
            0 <= k < 10 implies text::spec_ci_eq(#[trigger] s[i1 + k], "unreleased"@[k]) by {
            assert(s[i1 + k] == u[k]);
        }
    }
    let pos = i1 + 10;
    match date {
        Some(d) => {
            assert(s[pos] == dp[0]);
            assert(dp[0] == ' ');
            assert(s[pos + 1] == dp[1]);
            assert(dp[1] == '(');
            assert(!text::spec_is_ws('('));
            assert(text::spec_all_ws(s, pos, pos + 1));
            lemma_skip_ws_run(s, pos, pos + 1, n);
            let j = pos + 1;
            assert(s.subrange(j + 1, j + 11) =~= spec_date_str(d)) by {
                assert forall|k: int|
                    0 <= k < 10 implies s.subrange(j + 1, j + 11)[k] == spec_date_str(d)[k] by {
                    assert(s.subrange(j + 1, j + 11)[k] == s[j + 1 + k]);
                    assert(s[j + 1 + k] == dp[2 + k]);
                    assert(dp[2 + k] == (" ("@ + spec_date_str(d))[2 + k]);
                }
            }
            assert(s[j + 11] == dp[12]);
            assert(dp[12] == ')');
            lemma_date_read_back(s, j + 1, d, n);
            assert(text::spec_all_ws(s, j + 12, n)) by {
                assert forall|k: int| j + 12 <= k < n implies text::spec_is_ws(#[trigger] s[k]) by {
                    assert(s[k] == "\n\n"@[k - (j + 12)]);
                }
            }
            lemma_skip_ws_all(s, j + 12, n);
        },
        None => {
            assert(text::spec_all_ws(s, pos, n)) by {
                assert forall|k: int| pos <= k < n implies text::spec_is_ws(#[trigger] s[k]) by {
                    assert(s[k] == "\n\n"@[k - pos]);
                }
            }
            lemma_skip_ws_all(s, pos, n);
        },
    }
}

/// Writing a semantic-version headline and parsing the result gives back
/// exactly the written depth, prefix and date, and hands the version token
/// itself to the version parser: the headline round-trips to whatever that
/// parser returns for the canonical version text.
#[verifier::rlimit(100)]
#[verifier::spinoff_prover]
pub proof fn lemma_headline_round_trip_semantic(v: SemVer, date: Option<Date>, level: int)
    requires
        level >= 0,
        date matches Some(d) ==> d.spec_valid() && d.year <= 9999,
        forall|j: int| 0 <= j < v.pre@.len() ==> !text::spec_is_ws(#[trigger] v.pre@[j]),
        forall|j: int| 0 <= j < v.build@.len() ==> !text::spec_is_ws(#[trigger] v.build@[j]),
    ensures
        ({
            let s = spec_headline_str(Version::Semantic(v), date, level, "v"@);
            spec_headline(s, 0, s.len() as int) == match semver_of(spec_semver_str(v)) {
                Some(p) => Some(SpecHeadline { level, prefix_v: true, version: Some(p), date }),
                None => None,
            }
        }),
{
    reveal_strlit(" ");
    reveal_strlit("v");
    reveal_strlit("unreleased");
    reveal_strlit(" (");
    reveal_strlit(")");
    reveal_strlit("\n\n");
    let s = spec_headline_str(Version::Semantic(v), date, level, "v"@);
    let hs = spec_hashes(level);
    let t = spec_semver_str(v);
    let dp: Seq<char> = match date {
        Some(d) => " ("@ + spec_date_str(d) + ")"@,
        None => Seq::empty(),
    };
    let n = s.len() as int;
    assert(s =~= hs + " "@ + seq!['v'] + t + dp + "\n\n"@);
    lemma_semver_str_shape(v);
    match date {
        Some(d) => {
            lemma_dec_pad_shape(d.year as int, 4);
            lemma_dec_pad_shape(d.month as int, 2);
            lemma_dec_pad_shape(d.day as int, 2);
            assert(dp.len() == 13);
        },
        None => {},
    }
    assert(n == level + 2 + t.len() + dp.len() + 2);
    assert forall|k: int| 0 <= k < level implies s[k] == '#' by {
        assert(s[k] == hs[k]);
    }
    assert(s[level] == ' ');
    assert(s[level + 1] == 'v');
    assert forall|k: int| 0 <= k < t.len() implies s[level + 2 + k] == t[k] by {}
    lemma_skip_hashes_run(s, 0, level, n);
    assert(text::spec_all_ws(s, level, level + 1));
    assert(!text::spec_is_ws('v'));
    lemma_skip_ws_run(s, level, level + 1, n);
    let i1 = level + 1;
    assert(text::spec_is_digit(s[i1 + 1])) by {
        assert(s[i1 + 1] == t[0]);
    }
    let tok_end = i1 + 1 + t.len();
    assert(text::spec_is_ws(s[tok_end])) by {
        match date {
            Some(d) => {
                assert(s[tok_end] == dp[0]);
                assert(dp[0] == ' ');
            },
            None => {
                assert(s[tok_end] == "\n\n"@[0]);
            },
        }
    }
    assert forall|k: int| i1 + 1 <= k < tok_end implies !text::spec_is_ws(#[trigger] s[k]) by {
        assert(s[k] == t[k - (i1 + 1)]);
    }
    lemma_skip_non_ws_run(s, i1 + 1, tok_end, n);
    assert(s.subrange(i1 + 1, tok_end) =~= t);
    match semver_of(t) {
        Some(p) => {
            let pos = tok_end;
            match date {
                Some(d) => {
                    assert(s[pos] == dp[0]);
                    assert(dp[0] == ' ');
                    assert(s[pos + 1] == dp[1]);
                    assert(dp[1] == '(');
                    assert(!text::spec_is_ws('('));
                    assert(text::spec_all_ws(s, pos, pos + 1));
                    lemma_skip_ws_run(s, pos, pos + 1, n);
                    let j = pos + 1;
                    assert(s.subrange(j + 1, j + 11) =~= spec_date_str(d)) by {
                        assert forall|k: int|
                            0 <= k < 10 implies s.subrange(j + 1, j + 11)[k] == spec_date_str(
                            d,
                        )[k] by {
                            assert(s.subrange(j + 1, j + 11)[k] == s[j + 1 + k]);
                            assert(s[j + 1 + k] == dp[2 + k]);
                            assert(dp[2 + k] == (" ("@ + spec_date_str(d))[2 + k]);
                        }
                    }
                    assert(s[j + 11] == dp[12]);
                    assert(dp[12] == ')');
                    lemma_date_read_back(s, j + 1, d, n);
                    assert(text::spec_all_ws(s, j + 12, n)) by {
                        assert forall|k: int|
                            j + 12 <= k < n implies text::spec_is_ws(#[trigger] s[k]) by {
                            assert(s[k] == "\n\n"@[k - (j + 12)]);
                        }
                    }
                    lemma_skip_ws_all(s, j + 12, n);
                },
                None => {
                    assert(text::spec_all_ws(s, pos, n)) by {
                        assert forall|k: int|
                            pos <= k < n implies text::spec_is_ws(#[trigger] s[k]) by {
                            assert(s[k] == "\n\n"@[k - pos]);
                        }
                    }
                    lemma_skip_ws_all(s, pos, n);
                },
            }
        },
        None => {
            assert(!text::spec_is_digit('v'));
            assert(!spec_unreleased_at(s, i1, n)) by {
                if spec_unreleased_at(s, i1, n) {
                    assert(text::spec_ci_eq(s[i1], "unreleased"@[0]));
                    assert(s[i1] == 'v');
                    assert("unreleased"@[0] == 'u');
                }
            }
        },
    }
}

} // verus!
