//! Normalizing one raw commit message into a structured message.
//!
//! Conventional-commit parsing and git message splitting are delegated to
//! outside crates behind trusted wrappers; the title clean-up (issue
//! references, emoji) and the fixed commit-type set are implemented and
//! verified here.

use vstd::prelude::*;

use crate::changelog::write::str_eq;
use crate::commit::Message;
use crate::text;
use gix_object::bstr::ByteSlice;
use unicode_properties::emoji::EmojiStatus;
use unicode_properties::UnicodeEmoji;

verus! {

/// A piece of information stripped out of a commit title.
#[derive(Debug, Clone, PartialEq, Eq)]
pub enum Addition {
    /// The plain issue ID, like "123".
    IssueId(String),
}

/// First position at or after `i` where the issue-reference opener `(#`
/// starts; `s.len()` when there is none.
pub open spec fn spec_find_open(s: Seq<char>, i: int) -> int
    decreases s.len() - i,
{
    if i + 2 <= s.len() && 0 <= i {
        if s[i] == '(' && s[i + 1] == '#' {
            i
        } else {
            spec_find_open(s, i + 1)
        }
    } else {
        s.len() as int
    }
}

/// First position at or after `i` holding a closing parenthesis; `s.len()`
/// when there is none.
pub open spec fn spec_find_close(s: Seq<char>, i: int) -> int
    decreases s.len() - i,
{
    if 0 <= i < s.len() {
        if s[i] == ')' {
            i
        } else {
            spec_find_close(s, i + 1)
        }
    } else {
        s.len() as int
    }
}

/// Removing the range `[start, end)` from the title, eating the whitespace
/// around it: the cut extends left over the whitespace just before it
/// (unless everything before is whitespace) and right over the whitespace
/// just after it; one space is put back when text remains on both sides.
pub open spec fn spec_cut(s: Seq<char>, start: int, end: int) -> Seq<char> {
    let ns = if text::spec_all_ws(s, 0, start) {
        start
    } else {
        text::spec_trim_end(s, 0, start)
    };
    let ne = if text::spec_all_ws(s, end, s.len() as int) {
        end
    } else {
        text::spec_skip_ws(s, end, s.len() as int)
    };
    s.subrange(0, ns) + (if ne != end && ns != start {
        seq![' ']
    } else {
        Seq::empty()
    }) + s.subrange(ne, s.len() as int)
}

/// The cut result is shorter than the input by at least one character less
/// than the removed range.
pub proof fn lemma_cut_len(s: Seq<char>, start: int, end: int)
    requires
        0 <= start <= end <= s.len(),
    ensures
        spec_cut(s, start, end).len() <= s.len() - (end - start) + 1,
{
    text::lemma_trim_end_bounds(s, 0, start);
    text::lemma_skip_ws_bounds(s, end, s.len() as int);
}

/// Removes issue references shaped `(#id)` from a title, one after the
/// other, left to right: each one's id is recorded and the reference is cut
/// out together with the whitespace around it. An opener without a closing
/// parenthesis stops the process.
pub open spec fn spec_strip(s: Seq<char>) -> (Seq<char>, Seq<Seq<char>>)
    decreases s.len(),
    via spec_strip_dec
{
    let p = spec_find_open(s, 0);
    if p < s.len() {
        let q = spec_find_close(s, p + 2);
        if q < s.len() {
            let id = s.subrange(p + 2, q);
            let rest = spec_cut(s, p, q + 1);
            let t2 = spec_strip(rest).0;
            let ids2 = spec_strip(rest).1;
            (t2, seq![id] + ids2)
        } else {
            (s, Seq::empty())
        }
    } else {
        (s, Seq::empty())
    }
}

#[via_fn]
proof fn spec_strip_dec(s: Seq<char>) {
    let p = spec_find_open(s, 0);
    if p < s.len() {
        lemma_find_open_bounds(s, 0);
        let q = spec_find_close(s, p + 2);
        if q < s.len() {
            lemma_find_close_bounds(s, p + 2);
            lemma_cut_len(s, p, q + 1);
        }
    }
}

pub proof fn lemma_find_open_bounds(s: Seq<char>, i: int)
    requires
        0 <= i,
    ensures
        i <= spec_find_open(s, i) || spec_find_open(s, i) == s.len(),
        spec_find_open(s, i) <= s.len(),
        spec_find_open(s, i) + 2 <= s.len() || spec_find_open(s, i) == s.len(),
        spec_find_open(s, i) < s.len() ==> s[spec_find_open(s, i)] == '(' && s[spec_find_open(
            s,
            i,
        ) + 1] == '#',
        forall|j: int|
            i <= j < spec_find_open(s, i) && j + 2 <= s.len() ==> !(s[j] == '(' && #[trigger] s[j
                + 1] == '#'),
    decreases s.len() - i,
{
    if i + 2 <= s.len() {
        if !(s[i] == '(' && s[i + 1] == '#') {
            lemma_find_open_bounds(s, i + 1);
        }
    }
}

pub proof fn lemma_find_close_bounds(s: Seq<char>, i: int)
    requires
        0 <= i,
    ensures
        i <= spec_find_close(s, i) || spec_find_close(s, i) == s.len(),
        spec_find_close(s, i) <= s.len(),
        spec_find_close(s, i) < s.len() ==> s[spec_find_close(s, i)] == ')',
        forall|j: int| i <= j < spec_find_close(s, i) && j < s.len() ==> #[trigger] s[j] != ')',
    decreases s.len() - i,
{
    if 0 <= i < s.len() {
        if s[i] != ')' {
            lemma_find_close_bounds(s, i + 1);
        }
    }
}

fn find_open(chars: &Vec<char>, i: usize) -> (r: usize)
    requires
        i <= chars@.len(),
    ensures
        r == spec_find_open(chars@, i as int),
        r <= chars@.len(),
    decreases chars@.len() - i,
{
    if i < chars.len() && i + 1 < chars.len() {
        if chars[i] == '(' && chars[i + 1] == '#' {
            i
        } else {
            find_open(chars, i + 1)
        }
    } else {
        chars.len()
    }
}

fn find_close(chars: &Vec<char>, i: usize) -> (r: usize)
    requires
        i <= chars@.len(),
    ensures
        r == spec_find_close(chars@, i as int),
        r <= chars@.len(),
    decreases chars@.len() - i,
{
    if i < chars.len() {
        if chars[i] == ')' {
            i
        } else {
            find_close(chars, i + 1)
        }
    } else {
        chars.len()
    }
}

/// Removes the range `[start, end)` from the title together with the
/// whitespace around it, putting one space back when text remains on both
/// sides.
pub fn cut(s: String, start: usize, end: usize) -> (r: String)
    requires
        start <= end <= s@.len(),
    ensures
        r@ == spec_cut(s@, start as int, end as int),
{
    proof {
        reveal_strlit(" ");
    }
    let chars = text::str_to_chars(s.as_str());
    let n = chars.len();
    let ns = if text::all_ws(&chars, 0, start) {
        start
    } else {
        text::trim_end(&chars, 0, start)
    };
    let ne = if text::all_ws(&chars, end, n) {
        end
    } else {
        text::skip_ws(&chars, end, n)
    };
    let mut r = text::slice_string(s.as_str(), 0, ns);
    if ne != end && ns != start {
        r.append(" ");
    }
    let tail = text::slice_string(s.as_str(), ne, n);
    r.append(tail.as_str());
    proof {
        assert(r@ =~= spec_cut(s@, start as int, end as int));
    }
    r
}

/// The ids the strip recorded, in order.
pub open spec fn spec_addition_ids(adds: Seq<Addition>) -> Seq<Seq<char>> {
    adds.map_values(
        |a: Addition|
            match a {
                Addition::IssueId(s) => s@,
            },
    )
}

/// Strips all issue references shaped `(#id)` out of the title and records
/// their ids, in the order found.
pub fn strip(title: String) -> (r: (String, Vec<Addition>))
    ensures
        r.0@ == spec_strip(title@).0,
        spec_addition_ids(r.1@) == spec_strip(title@).1,
{
    let ghost orig = title@;
    let mut t = title;
    let mut additions: Vec<Addition> = Vec::new();
    proof {
        assert(spec_addition_ids(Seq::empty()) =~= Seq::<Seq<char>>::empty());
        assert(spec_strip(orig).1 =~= spec_addition_ids(additions@) + spec_strip(t@).1);
    }
    loop
        invariant
            orig == title@,
            spec_strip(orig).0 == spec_strip(t@).0,
            spec_strip(orig).1 == spec_addition_ids(additions@) + spec_strip(t@).1,
        decreases t@.len(),
    {
        let chars = text::str_to_chars(t.as_str());
        let n = chars.len();
        let p = find_open(&chars, 0);
        if p >= n {
            proof {
                assert(spec_strip(t@).1 =~= Seq::<Seq<char>>::empty());
                assert(spec_strip(orig).1 =~= spec_addition_ids(additions@));
            }
            return (t, additions);
        }
        proof {
            lemma_find_open_bounds(t@, 0);
        }
        let q = find_close(&chars, p + 2);
        if q >= n {
            proof {
                assert(spec_strip(t@).1 =~= Seq::<Seq<char>>::empty());
                assert(spec_strip(orig).1 =~= spec_addition_ids(additions@));
            }
            return (t, additions);
        }
        proof {
            lemma_find_close_bounds(t@, p + 2);
            lemma_cut_len(t@, p as int, q + 1);
        }
        let id = text::slice_string(t.as_str(), p + 2, q);
        let ghost adds0 = additions@;
        let ghost t0 = t@;
        additions.push(Addition::IssueId(id));
        t = cut(t, p, q + 1);
        proof {
            assert(spec_addition_ids(additions@) =~= spec_addition_ids(adds0) + seq![
                t0.subrange(p + 2, q as int),
            ]);
            assert(spec_strip(orig).1 =~= spec_addition_ids(additions@) + spec_strip(t@).1);
        }
    }
}

/// What `git_conventional::Commit::parse` extracts from a message: `None`
/// when the message is not a conventional commit, otherwise the type, the
/// description, the body, the breaking flag, and the breaking-change
/// description taken from the footers or, with a bare `!` marker, from the
/// description itself.
pub uninterp spec fn conventional_of(s: Seq<char>) -> Option<
    (Seq<char>, Seq<char>, Option<Seq<char>>, bool, Option<Seq<char>>),
>;

/// The fields of a successfully parsed conventional commit.
#[derive(Debug, Clone)]
pub struct ConventionalParts {
    /// The commit type, as written.
    pub kind: String,
    /// The description after the colon.
    pub description: String,
    /// The body, if any.
    pub body: Option<String>,
    /// Whether the commit declares a breaking change.
    pub breaking: bool,
    /// The breaking-change description, if any.
    pub breaking_description: Option<String>,
}

impl ConventionalParts {
    /// The parts equal the given parsed fields.
    pub open spec fn matches(
        self,
        p: (Seq<char>, Seq<char>, Option<Seq<char>>, bool, Option<Seq<char>>),
    ) -> bool {
        &&& self.kind@ == p.0
        &&& self.description@ == p.1
        &&& (self.body is Some <==> p.2 is Some)
        &&& self.body is Some ==> self.body->Some_0@ == p.2->Some_0
        &&& self.breaking == p.3
        &&& (self.breaking_description is Some <==> p.4 is Some)
        &&& self.breaking_description is Some ==> self.breaking_description->Some_0@
            == p.4->Some_0
    }
}

/// Relies on `git_conventional::Commit::parse`: whether a message is a
/// conventional commit, and the fields parsed out of it, depend on the
/// message alone.
#[verifier::external_body]
fn conventional_parse(m: &str) -> (r: Option<ConventionalParts>)
    ensures
        r is Some <==> conventional_of(m@) is Some,
        r is Some ==> r->Some_0.matches(conventional_of(m@)->Some_0),
{
    git_conventional::Commit::parse(m).ok().map(
        |c|
            ConventionalParts {
                kind: c.type_().as_str().to_owned(),
                description: c.description().to_owned(),
                body: c.body().map(ToOwned::to_owned),
                breaking: c.breaking(),
                breaking_description: c.breaking_description().map(ToOwned::to_owned),
            },
    )
}

/// What `gix_object::commit::MessageRef::summary` folds the title of a
/// message into: the subject line up to the first blank line, with runs of
/// whitespace before each newline folded into single spaces.
pub uninterp spec fn summary_of(s: Seq<char>) -> Seq<char>;

/// Relies on `gix_object::commit::MessageRef::summary`: the folded subject
/// line depends on the message alone.
#[verifier::external_body]
fn message_summary(m: &str) -> (r: String)
    ensures
        r@ == summary_of(m@),
{
    gix_object::commit::MessageRef::from_bytes(m.as_bytes()).summary().to_string()
}

/// What `gix_object::commit::MessageRef::body` leaves of a message after the
/// title and the blank line, with the trailing trailer paragraph stripped by
/// `without_trailer`: `None` when the message has no body.
pub uninterp spec fn body_of(s: Seq<char>) -> Option<Seq<char>>;

/// Relies on `gix_object::commit::MessageRef::body` and
/// `BodyRef::without_trailer`: the body with its trailers stripped depends
/// on the message alone.
#[verifier::external_body]
fn message_body(m: &str) -> (r: Option<String>)
    ensures
        r is Some <==> body_of(m@) is Some,
        r is Some ==> r->Some_0@ == body_of(m@)->Some_0,
{
    gix_object::commit::MessageRef::from_bytes(m.as_bytes()).body().map(
        |b| b.without_trailer().to_str_lossy().into_owned(),
    )
}

/// The emoji property of one character, mirroring the classification of the
/// `unicode_properties` tables.
#[derive(Debug, Clone, Copy, PartialEq, Eq, Structural)]
pub enum EmojiClass {
    /// Not an emoji and not an emoji component.
    NonEmoji,
    /// Not an emoji, but an emoji component.
    NonEmojiButEmojiComponent,
    /// An emoji with default emoji presentation.
    EmojiPresentation,
    /// An emoji that can carry a skin-tone modifier.
    EmojiModifierBase,
    /// An emoji with default presentation that can carry a modifier.
    EmojiPresentationAndModifierBase,
    /// An emoji without default emoji presentation.
    EmojiOther,
    /// An emoji component with default emoji presentation.
    EmojiPresentationAndEmojiComponent,
    /// A modifier that is itself presented as emoji.
    EmojiPresentationAndModifierAndEmojiComponent,
    /// An emoji component without default emoji presentation.
    EmojiOtherAndEmojiComponent,
}

/// What `unicode_properties::UnicodeEmoji::emoji_status` classifies one
/// character as: a fixed table lookup on the character alone.
pub uninterp spec fn emoji_class_of(c: char) -> EmojiClass;

/// Relies on `unicode_properties::UnicodeEmoji::emoji_status`: the status is
/// a fixed per-character table lookup.
#[verifier::external_body]
fn emoji_class(c: char) -> (r: EmojiClass)
    ensures
        r == emoji_class_of(c),
{
    match UnicodeEmoji::emoji_status(c) {
        EmojiStatus::NonEmoji => EmojiClass::NonEmoji,
        EmojiStatus::NonEmojiButEmojiComponent => EmojiClass::NonEmojiButEmojiComponent,
        EmojiStatus::EmojiPresentation => EmojiClass::EmojiPresentation,
        EmojiStatus::EmojiModifierBase => EmojiClass::EmojiModifierBase,
        EmojiStatus::EmojiPresentationAndModifierBase => EmojiClass::EmojiPresentationAndModifierBase,
        EmojiStatus::EmojiOther => EmojiClass::EmojiOther,
        EmojiStatus::EmojiPresentationAndEmojiComponent => EmojiClass::EmojiPresentationAndEmojiComponent,
        EmojiStatus::EmojiPresentationAndModifierAndEmojiComponent => EmojiClass::EmojiPresentationAndModifierAndEmojiComponent,
        EmojiStatus::EmojiOtherAndEmojiComponent => EmojiClass::EmojiOtherAndEmojiComponent,
        _ => EmojiClass::NonEmoji,
    }
}

/// Characters of these classes stay in a title; all other emoji are blanked
/// out before the message is parsed.
pub open spec fn spec_keeps_char(c: EmojiClass) -> bool {
    ||| c is EmojiOther
    ||| c is NonEmoji
    ||| c is EmojiOtherAndEmojiComponent
}

/// The message with disruptive emoji blanked to spaces and leading
/// whitespace removed: the text the normalizer actually parses.
pub open spec fn spec_title_input(m: Seq<char>) -> Seq<char> {
    let filtered = Seq::new(
        m.len(),
        |i: int|
            if spec_keeps_char(emoji_class_of(m[i])) {
                m[i]
            } else {
                ' '
            },
    );
    filtered.subrange(text::spec_skip_ws(filtered, 0, filtered.len() as int), filtered.len() as int)
}

/// Blanks disruptive emoji to spaces and trims leading whitespace.
fn filter_title(m: &str) -> (r: String)
    ensures
        r@ == spec_title_input(m@),
{
    let chars = text::str_to_chars(m);
    let n = chars.len();
    let ghost filtered_spec = Seq::new(
        m@.len(),
        |i: int|
            if spec_keeps_char(emoji_class_of(m@[i])) {
                m@[i]
            } else {
                ' '
            },
    );
    let mut filtered: Vec<char> = Vec::new();
    let mut i: usize = 0;
    while i < n
        invariant
            i <= n == chars@.len(),
            chars@ == m@,
            filtered_spec == Seq::new(
                m@.len(),
                |k: int|
                    if spec_keeps_char(emoji_class_of(m@[k])) {
                        m@[k]
                    } else {
                        ' '
                    },
            ),
            filtered@ == filtered_spec.subrange(0, i as int),
        decreases n - i,
    {
        let c = chars[i];
        if keeps_char(emoji_class(c)) {
            filtered.push(c);
        } else {
            filtered.push(' ');
        }
        i += 1;
        proof {
            assert(filtered@ =~= filtered_spec.subrange(0, i as int));
        }
    }
    proof {
        assert(filtered@ =~= filtered_spec);
    }
    let start = text::skip_ws(&filtered, 0, n);
    let mut r = String::new();
    let mut k: usize = start;
    while k < n
        invariant
            start <= k <= n == filtered@.len(),
            filtered@ == filtered_spec,
            r@ == filtered_spec.subrange(start as int, k as int),
        decreases n - k,
    {
        r.push(filtered[k]);
        k += 1;
        proof {
            assert(r@ =~= filtered_spec.subrange(start as int, k as int));
        }
    }
    proof {
        assert(r@ =~= spec_title_input(m@));
    }
    r
}

fn keeps_char(c: EmojiClass) -> (r: bool)
    ensures
        r == spec_keeps_char(c),
{
    match c {
        EmojiClass::EmojiOther => true,
        EmojiClass::NonEmoji => true,
        EmojiClass::EmojiOtherAndEmojiComponent => true,
        _ => false,
    }
}

/// The normalized commit type for a conventional type tag, mapped onto the
/// fixed set the changelog knows.
pub open spec fn spec_kind_tag(k: Seq<char>) -> Seq<char> {
    if k == "feat"@ || k == "add"@ || k == "added"@ {
        "feat"@
    } else if k == "fix"@ {
        "fix"@
    } else if k == "revert"@ || k == "remove"@ {
        "revert"@
    } else if k == "docs"@ {
        "docs"@
    } else if k == "style"@ {
        "style"@
    } else if k == "refactor"@ {
        "refactor"@
    } else if k == "change"@ {
        "change"@
    } else if k == "perf"@ {
        "perf"@
    } else if k == "test"@ {
        "test"@
    } else if k == "chore"@ {
        "chore"@
    } else {
        "other"@
    }
}

/// Note that the returned tags must stay in step with the group titles the
/// changelog writer and parser use.
fn as_static_str(kind: Option<&str>) -> (r: Option<&'static str>)
    ensures
        r is Some <==> kind is Some,
        kind is Some ==> r->Some_0@ == spec_kind_tag(kind->Some_0@),
{
    proof {
        reveal_strlit("feat");
        reveal_strlit("add");
        reveal_strlit("added");
        reveal_strlit("fix");
        reveal_strlit("revert");
        reveal_strlit("remove");
        reveal_strlit("docs");
        reveal_strlit("style");
        reveal_strlit("refactor");
        reveal_strlit("change");
        reveal_strlit("perf");
        reveal_strlit("test");
        reveal_strlit("chore");
    }
    match kind {
        None => None,
        Some(k) => {
            if str_eq(k, "feat") || str_eq(k, "add") || str_eq(k, "added") {
                Some("feat")
            } else if str_eq(k, "fix") {
                Some("fix")
            } else if str_eq(k, "revert") || str_eq(k, "remove") {
                Some("revert")
            } else if str_eq(k, "docs") {
                Some("docs")
            } else if str_eq(k, "style") {
                Some("style")
            } else if str_eq(k, "refactor") {
                Some("refactor")
            } else if str_eq(k, "change") {
                Some("change")
            } else if str_eq(k, "perf") {
                Some("perf")
            } else if str_eq(k, "test") {
                Some("test")
            } else if str_eq(k, "chore") {
                Some("chore")
            } else {
                Some("other")
            }
        },
    }
}

/// An optional string equals an optional specified text.
pub open spec fn spec_opt_str(r: Option<String>, p: Option<Seq<char>>) -> bool {
    &&& (r is Some <==> p is Some)
    &&& r is Some ==> r->Some_0@ == p->Some_0
}

/// The normalized message for the given text, as `get_message` builds it:
/// a conventional commit contributes its type, description, body and
/// breaking-change information (the explanation is dropped when it merely
/// repeats the description); any other message falls back to the folded
/// summary as title and the trailer-free body. In both cases the issue
/// references are stripped from the title into the additions.
pub open spec fn spec_message_matches(r: Message, m: Seq<char>) -> bool {
    match conventional_of(m) {
        Some(p) => {
            &&& r.title@ == spec_strip(p.1).0
            &&& spec_addition_ids(r.additions@) == spec_strip(p.1).1
            &&& (r.kind matches Some(k) && k@ == spec_kind_tag(p.0))
            &&& spec_opt_str(r.body, p.2)
            &&& r.breaking == p.3
            &&& (match p.4 {
                Some(d) => {
                    if d == p.1 {
                        r.breaking_description is None
                    } else {
                        r.breaking_description matches Some(x) && x@ == d
                    }
                },
                None => r.breaking_description is None,
            })
        },
        None => {
            &&& r.title@ == spec_strip(summary_of(m)).0
            &&& spec_addition_ids(r.additions@) == spec_strip(summary_of(m)).1
            &&& r.kind is None
            &&& spec_opt_str(r.body, body_of(m))
            &&& !r.breaking
            &&& r.breaking_description is None
        },
    }
}

/// Normalizes one raw message: parse it as a conventional commit when
/// possible, otherwise fall back to the folded summary and trailer-free
/// body; then strip issue references from the title.
fn get_message(m: &str) -> (r: Message)
    ensures
        spec_message_matches(r, m@),
{
    match conventional_parse(m) {
        Some(parts) => {
            let breaking_description = match &parts.breaking_description {
                Some(d) => {
                    if str_eq(d.as_str(), parts.description.as_str()) {
                        None
                    } else {
                        Some(d.clone())
                    }
                },
                None => None,
            };
            let kind = as_static_str(Some(parts.kind.as_str()));
            let (title, additions) = strip(parts.description);
            Message {
                title,
                kind,
                body: parts.body,
                breaking: parts.breaking,
                breaking_description,
                additions,
            }
        },
        None => {
            let summary = message_summary(m);
            let body = message_body(m);
            let (title, additions) = strip(summary);
            Message {
                title,
                kind: None,
                body,
                breaking: false,
                breaking_description: None,
                additions,
            }
        },
    }
}

impl Message {
    /// Normalizes one raw commit message: emoji that would defeat the
    /// conventional-commit grammar are blanked out and leading whitespace
    /// is trimmed before the message is parsed.
    pub fn from(m: &str) -> (r: Message)
        ensures
            spec_message_matches(r, spec_title_input(m@)),
    {
        let cleaned = filter_title(m);
        get_message(cleaned.as_str())
    }
}

} // verus!
