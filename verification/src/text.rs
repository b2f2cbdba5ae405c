//! Character- and string-level helpers shared by the parser and the writer.
//!
//! The whole engine works over `Seq<char>` views: scanning happens on a
//! `Vec<char>` copy of the input (so indexing is cheap), while substrings are
//! sliced out of the original `&str` by character range.

use vstd::prelude::*;

verus! {

/// The code points with the Unicode `White_Space` property, the set that
/// `char::is_whitespace` tests for.
pub open spec fn spec_is_ws(c: char) -> bool {
    let u = c as u32;
    ||| u == 0x09
    ||| u == 0x0A
    ||| u == 0x0B
    ||| u == 0x0C
    ||| u == 0x0D
    ||| u == 0x20
    ||| u == 0x85
    ||| u == 0xA0
    ||| u == 0x1680
    ||| (0x2000 <= u && u <= 0x200A)
    ||| u == 0x2028
    ||| u == 0x2029
    ||| u == 0x202F
    ||| u == 0x205F
    ||| u == 0x3000
}

pub fn is_ws(c: char) -> (r: bool)
    ensures
        r == spec_is_ws(c),
{
    let u = c as u32;
    u == 0x09 || u == 0x0A || u == 0x0B || u == 0x0C || u == 0x0D || u == 0x20 || u == 0x85
        || u == 0xA0 || u == 0x1680 || (0x2000 <= u && u <= 0x200A) || u == 0x2028 || u == 0x2029
        || u == 0x202F || u == 0x205F || u == 0x3000
}

pub open spec fn spec_is_digit(c: char) -> bool {
    0x30 <= c as u32 && c as u32 <= 0x39
}

pub fn is_digit(c: char) -> (r: bool)
    ensures
        r == spec_is_digit(c),
{
    let u = c as u32;
    0x30 <= u && u <= 0x39
}

/// The numeric value of a decimal digit character.
pub open spec fn spec_digit_val(c: char) -> u32 {
    (c as u32 - 0x30) as u32
}

pub fn digit_val(c: char) -> (r: u32)
    requires
        spec_is_digit(c),
    ensures
        r == spec_digit_val(c),
        r <= 9,
{
    c as u32 - 0x30
}

/// Case folding for ASCII letters only, used for the case-insensitive
/// comparisons of the headline grammar and of section titles.
pub open spec fn spec_ascii_lower(u: u32) -> u32 {
    if 0x41 <= u && u <= 0x5A {
        (u + 0x20) as u32
    } else {
        u
    }
}

/// Two characters are equal up to ASCII case.
pub open spec fn spec_ci_eq(a: char, b: char) -> bool {
    spec_ascii_lower(a as u32) == spec_ascii_lower(b as u32)
}

pub fn ci_eq(a: char, b: char) -> (r: bool)
    ensures
        r == spec_ci_eq(a, b),
{
    let ua = a as u32;
    let ub = b as u32;
    let la = if 0x41 <= ua && ua <= 0x5A {
        ua + 0x20
    } else {
        ua
    };
    let lb = if 0x41 <= ub && ub <= 0x5A {
        ub + 0x20
    } else {
        ub
    };
    la == lb
}

/// Relies on `String::push`: it appends the given character to the end of
/// the string.
pub assume_specification[ String::push ](s: &mut String, c: char)
    ensures
        final(s)@ == old(s)@.push(c),
;

/// Copies a string into a vector of its characters.
pub fn str_to_chars(s: &str) -> (r: Vec<char>)
    ensures
        r@ == s@,
{
    let n = s.unicode_len();
    let mut r: Vec<char> = Vec::new();
    let mut i: usize = 0;
    while i < n
        invariant
            i <= n,
            n == s@.len(),
            r@ == s@.subrange(0, i as int),
        decreases n - i,
    {
        r.push(s.get_char(i));
        i += 1;
        proof {
            assert(r@ =~= s@.subrange(0, i as int));
        }
    }
    proof {
        assert(r@ =~= s@);
    }
    r
}

/// Slices the character range `[from, to)` out of `s` as an owned string.
pub fn slice_string(s: &str, from: usize, to: usize) -> (r: String)
    requires
        from <= to <= s@.len(),
    ensures
        r@ == s@.subrange(from as int, to as int),
{
    s.substring_char(from, to).to_owned()
}

/// `p` occurs in `s` at position `i`, inside the window ending at `end`.
pub open spec fn spec_match_at(s: Seq<char>, i: int, end: int, p: Seq<char>) -> bool {
    &&& 0 <= i
    &&& i + p.len() <= end <= s.len()
    &&& s.subrange(i, i + p.len()) == p
}

/// Does the window `[i, end)` of `chars` start with the literal `p`?
pub fn match_at(chars: &Vec<char>, i: usize, end: usize, p: &str) -> (r: bool)
    requires
        i <= end <= chars@.len(),
    ensures
        r == spec_match_at(chars@, i as int, end as int, p@),
{
    let n = p.unicode_len();
    if n > end - i {
        proof {
            assert(!spec_match_at(chars@, i as int, end as int, p@));
        }
        return false;
    }
    let mut k: usize = 0;
    while k < n
        invariant
            k <= n,
            n == p@.len(),
            i + n <= end <= chars@.len(),
            chars@.subrange(i as int, i + k) == p@.subrange(0, k as int),
        decreases n - k,
    {
        if chars[i + k] != p.get_char(k) {
            proof {
                assert(chars@.subrange(i as int, i + p@.len())[k as int] == chars@[i + k]);
            }
            return false;
        }
        k += 1;
        proof {
            assert(chars@.subrange(i as int, i + k) =~= p@.subrange(0, k as int));
        }
    }
    proof {
        assert(chars@.subrange(i as int, i + n) =~= p@);
    }
    true
}

/// Every character in `[i, j)` is whitespace.
pub open spec fn spec_all_ws(s: Seq<char>, i: int, j: int) -> bool {
    forall|k: int| i <= k < j ==> spec_is_ws(#[trigger] s[k])
}

pub fn all_ws(chars: &Vec<char>, i: usize, j: usize) -> (r: bool)
    requires
        i <= j <= chars@.len(),
    ensures
        r == spec_all_ws(chars@, i as int, j as int),
{
    let mut k: usize = i;
    while k < j
        invariant
            i <= k <= j <= chars@.len(),
            spec_all_ws(chars@, i as int, k as int),
        decreases j - k,
    {
        if !is_ws(chars[k]) {
            return false;
        }
        k += 1;
    }
    true
}

/// The end of the whitespace run starting at `i` (first non-whitespace
/// position in `[i, end)`, or `end`).
pub open spec fn spec_skip_ws(s: Seq<char>, i: int, end: int) -> int
    decreases end - i,
{
    if i < end && spec_is_ws(s[i]) {
        spec_skip_ws(s, i + 1, end)
    } else {
        i
    }
}

pub proof fn lemma_skip_ws_bounds(s: Seq<char>, i: int, end: int)
    requires
        0 <= i <= end <= s.len(),
    ensures
        i <= spec_skip_ws(s, i, end) <= end,
        spec_all_ws(s, i, spec_skip_ws(s, i, end)),
        spec_skip_ws(s, i, end) < end ==> !spec_is_ws(s[spec_skip_ws(s, i, end)]),
    decreases end - i,
{
    if i < end && spec_is_ws(s[i]) {
        lemma_skip_ws_bounds(s, i + 1, end);
    }
}

pub fn skip_ws(chars: &Vec<char>, i: usize, end: usize) -> (r: usize)
    requires
        i <= end <= chars@.len(),
    ensures
        r == spec_skip_ws(chars@, i as int, end as int),
        i <= r <= end,
{
    proof {
        lemma_skip_ws_bounds(chars@, i as int, end as int);
    }
    let mut k: usize = i;
    while k < end && is_ws(chars[k])
        invariant
            i <= k <= end <= chars@.len(),
            spec_skip_ws(chars@, i as int, end as int) == spec_skip_ws(chars@, k as int, end as int),
        decreases end - k,
    {
        k += 1;
    }
    k
}

/// The start of the whitespace run ending at `j` (characters in `[r, j)` are
/// whitespace, and either `r == i` or `s[r-1]` is not whitespace).
pub open spec fn spec_trim_end(s: Seq<char>, i: int, j: int) -> int
    decreases j - i,
{
    if i < j && spec_is_ws(s[j - 1]) {
        spec_trim_end(s, i, j - 1)
    } else {
        j
    }
}

pub proof fn lemma_trim_end_bounds(s: Seq<char>, i: int, j: int)
    requires
        0 <= i <= j <= s.len(),
    ensures
        i <= spec_trim_end(s, i, j) <= j,
        spec_all_ws(s, spec_trim_end(s, i, j), j),
        spec_trim_end(s, i, j) > i ==> !spec_is_ws(s[spec_trim_end(s, i, j) - 1]),
    decreases j - i,
{
    if i < j && spec_is_ws(s[j - 1]) {
        lemma_trim_end_bounds(s, i, j - 1);
    }
}

pub fn trim_end(chars: &Vec<char>, i: usize, j: usize) -> (r: usize)
    requires
        i <= j <= chars@.len(),
    ensures
        r == spec_trim_end(chars@, i as int, j as int),
        i <= r <= j,
{
    proof {
        lemma_trim_end_bounds(chars@, i as int, j as int);
    }
    let mut k: usize = j;
    while k > i && is_ws(chars[k - 1])
        invariant
            i <= k <= j <= chars@.len(),
            spec_trim_end(chars@, i as int, j as int) == spec_trim_end(chars@, i as int, k as int),
        decreases k,
    {
        k -= 1;
    }
    k
}

/// The end of the current line: the position just after the first `'\n'` at
/// or past `i`, or `end` when the line is unterminated.
pub open spec fn spec_line_end(s: Seq<char>, i: int, end: int) -> int
    decreases end - i,
{
    if i < end {
        if s[i] == '\n' {
            i + 1
        } else {
            spec_line_end(s, i + 1, end)
        }
    } else {
        end
    }
}

pub proof fn lemma_line_end_bounds(s: Seq<char>, i: int, end: int)
    requires
        0 <= i <= end <= s.len(),
    ensures
        i <= spec_line_end(s, i, end) <= end,
        i < end ==> i < spec_line_end(s, i, end),
    decreases end - i,
{
    if i < end && s[i] != '\n' {
        lemma_line_end_bounds(s, i + 1, end);
    }
}

pub fn line_end(chars: &Vec<char>, i: usize, end: usize) -> (r: usize)
    requires
        i <= end <= chars@.len(),
    ensures
        r == spec_line_end(chars@, i as int, end as int),
        i <= r <= end,
        i < end ==> i < r,
{
    proof {
        lemma_line_end_bounds(chars@, i as int, end as int);
    }
    let mut k: usize = i;
    while k < end && chars[k] != '\n'
        invariant
            i <= k <= end <= chars@.len(),
            spec_line_end(chars@, i as int, end as int) == spec_line_end(
                chars@,
                k as int,
                end as int,
            ),
        decreases end - k,
    {
        k += 1;
    }
    if k < end {
        k + 1
    } else {
        k
    }
}

/// `p` occurs at `i` up to ASCII case, inside the window ending at `end`.
pub open spec fn spec_ci_match_at(s: Seq<char>, i: int, end: int, p: Seq<char>) -> bool {
    &&& 0 <= i
    &&& i + p.len() <= end <= s.len()
    &&& forall|k: int| 0 <= k < p.len() ==> spec_ci_eq(s[i + k], #[trigger] p[k])
}

/// Does the window `[i, end)` of `chars` start with the literal `p`, up to
/// ASCII case?
pub fn ci_match_at(chars: &Vec<char>, i: usize, end: usize, p: &str) -> (r: bool)
    requires
        i <= end <= chars@.len(),
    ensures
        r == spec_ci_match_at(chars@, i as int, end as int, p@),
{
    let n = p.unicode_len();
    if n > end - i {
        return false;
    }
    let mut k: usize = 0;
    while k < n
        invariant
            k <= n,
            n == p@.len(),
            i + n <= end <= chars@.len(),
            forall|j: int| 0 <= j < k ==> spec_ci_eq(chars@[i + j], #[trigger] p@[j]),
        decreases n - k,
    {
        if !ci_eq(chars[i + k], p.get_char(k)) {
            return false;
        }
        k += 1;
    }
    true
}

/// Removes trailing whitespace from a string.
pub fn trim_end_string(s: &str) -> (r: String)
    ensures
        r@ == s@.subrange(0, spec_trim_end(s@, 0, s@.len() as int)),
{
    let chars = str_to_chars(s);
    let n = chars.len();
    let e = trim_end(&chars, 0, n);
    slice_string(s, 0, e)
}

/// The decimal digit character for a value below ten.
pub open spec fn spec_digit_char(d: int) -> char {
    if d == 0 {
        '0'
    } else if d == 1 {
        '1'
    } else if d == 2 {
        '2'
    } else if d == 3 {
        '3'
    } else if d == 4 {
        '4'
    } else if d == 5 {
        '5'
    } else if d == 6 {
        '6'
    } else if d == 7 {
        '7'
    } else if d == 8 {
        '8'
    } else {
        '9'
    }
}

/// A one-character string for a decimal digit.
pub fn digit_str(d: u64) -> (r: &'static str)
    requires
        d <= 9,
    ensures
        r@ =~= seq![spec_digit_char(d as int)],
{
    proof {
        reveal_strlit("0");
        reveal_strlit("1");
        reveal_strlit("2");
        reveal_strlit("3");
        reveal_strlit("4");
        reveal_strlit("5");
        reveal_strlit("6");
        reveal_strlit("7");
        reveal_strlit("8");
        reveal_strlit("9");
    }
    if d == 0 {
        "0"
    } else if d == 1 {
        "1"
    } else if d == 2 {
        "2"
    } else if d == 3 {
        "3"
    } else if d == 4 {
        "4"
    } else if d == 5 {
        "5"
    } else if d == 6 {
        "6"
    } else if d == 7 {
        "7"
    } else if d == 8 {
        "8"
    } else {
        "9"
    }
}

/// The decimal representation of `n`, without leading zeros.
pub open spec fn spec_dec(n: int) -> Seq<char>
    decreases n,
{
    if n <= 9 {
        seq![spec_digit_char(if n < 0 { 0 } else { n })]
    } else {
        spec_dec(n / 10).push(spec_digit_char(n % 10))
    }
}

/// Appends the decimal representation of `n` to `out`.
pub fn append_dec(out: &mut String, n: u64)
    ensures
        final(out)@ == old(out)@ + spec_dec(n as int),
    decreases n,
{
    if n <= 9 {
        out.append(digit_str(n));
    } else {
        append_dec(out, n / 10);
        out.append(digit_str(n % 10));
        proof {
            assert(final(out)@ =~= old(out)@ + spec_dec(n as int));
        }
    }
}

/// The decimal representation of `n` padded with zeros to exactly `w` digits
/// (the low `w` digits of `n`).
pub open spec fn spec_dec_pad(n: int, w: int) -> Seq<char>
    decreases w,
{
    if w <= 1 {
        seq![spec_digit_char(n % 10)]
    } else {
        spec_dec_pad(n / 10, w - 1).push(spec_digit_char(n % 10))
    }
}

/// Appends exactly `w` decimal digits of `n`, zero padded.
pub fn append_dec_pad(out: &mut String, n: u64, w: u64)
    requires
        1 <= w,
    ensures
        final(out)@ == old(out)@ + spec_dec_pad(n as int, w as int),
    decreases w,
{
    if w <= 1 {
        out.append(digit_str(n % 10));
    } else {
        append_dec_pad(out, n / 10, w - 1);
        out.append(digit_str(n % 10));
        proof {
            assert(final(out)@ =~= old(out)@ + spec_dec_pad(n as int, w as int));
        }
    }
}

/// The lowercase hexadecimal digit character for a value below sixteen.
pub open spec fn spec_hex_char(d: int) -> char {
    if d <= 9 {
        spec_digit_char(d)
    } else if d == 10 {
        'a'
    } else if d == 11 {
        'b'
    } else if d == 12 {
        'c'
    } else if d == 13 {
        'd'
    } else if d == 14 {
        'e'
    } else {
        'f'
    }
}

/// A one-character string for a lowercase hexadecimal digit.
pub fn hex_str(d: u8) -> (r: &'static str)
    requires
        d <= 15,
    ensures
        r@ =~= seq![spec_hex_char(d as int)],
{
    proof {
        reveal_strlit("a");
        reveal_strlit("b");
        reveal_strlit("c");
        reveal_strlit("d");
        reveal_strlit("e");
        reveal_strlit("f");
    }
    if d <= 9 {
        digit_str(d as u64)
    } else if d == 10 {
        "a"
    } else if d == 11 {
        "b"
    } else if d == 12 {
        "c"
    } else if d == 13 {
        "d"
    } else if d == 14 {
        "e"
    } else {
        "f"
    }
}

/// Is `c` a hexadecimal digit (either case)?
pub open spec fn spec_is_hex(c: char) -> bool {
    let u = c as u32;
    (0x30 <= u && u <= 0x39) || (0x61 <= u && u <= 0x66) || (0x41 <= u && u <= 0x46)
}

/// The value of a hexadecimal digit character.
pub open spec fn spec_hex_val(c: char) -> u32 {
    let u = c as u32;
    if 0x30 <= u && u <= 0x39 {
        (u - 0x30) as u32
    } else if 0x61 <= u && u <= 0x66 {
        (u - 0x61 + 10) as u32
    } else {
        (u - 0x41 + 10) as u32
    }
}

pub fn is_hex(c: char) -> (r: bool)
    ensures
        r == spec_is_hex(c),
{
    let u = c as u32;
    (0x30 <= u && u <= 0x39) || (0x61 <= u && u <= 0x66) || (0x41 <= u && u <= 0x46)
}

pub fn hex_val(c: char) -> (r: u32)
    requires
        spec_is_hex(c),
    ensures
        r == spec_hex_val(c),
        r <= 15,
{
    let u = c as u32;
    if 0x30 <= u && u <= 0x39 {
        u - 0x30
    } else if 0x61 <= u && u <= 0x66 {
        u - 0x61 + 10
    } else {
        u - 0x41 + 10
    }
}

} // verus!
