//! Writing the changelog model back to markdown, symmetric with the
//! parser's conventions: what the parser recognizes, the writer emits in the
//! exact shape the parser accepts, and verbatim content is written unchanged.

use vstd::prelude::*;

use crate::changelog::section::Section;
use crate::changelog::segment::{
    Category, CategoryMessages, CommitStatistics, Conventional, Data, Details, DetailsMessage,
    Message, Segment, ThanksClippy,
};
use crate::changelog::{ChangeLog, Version};
use crate::id::{spec_hex_of, ObjectId};
use crate::text;
use crate::version::{spec_date_str, spec_semver_str, Date, SemVer};

verus! {

/// How commit ids and issue numbers are rendered: as plain text, or as
/// markdown links into the given repository.
#[derive(Debug, Clone)]
pub enum Linkables {
    /// Plain text, no links.
    AsText,
    /// Links into the repository at this base address.
    AsLinks {
        /// The address links are built on.
        repository_url: String,
    },
}

/// Which auto-generated report blocks the writer includes.
#[derive(Debug, Clone, Copy, PartialEq, Eq, Structural)]
pub struct Components {
    /// Include the commit statistics block.
    pub statistics: bool,
    /// Include the lint-fix block.
    pub clippy: bool,
    /// Include the per-commit details block.
    pub details: bool,
}

impl Components {
    /// Every report block included.
    pub fn all() -> (r: Components)
        ensures
            r.statistics && r.clippy && r.details,
    {
        Components { statistics: true, clippy: true, details: true }
    }

    /// No report block included.
    pub fn empty() -> (r: Components)
        ensures
            !r.statistics && !r.clippy && !r.details,
    {
        Components { statistics: false, clippy: false, details: false }
    }

    /// Only the per-commit details block included.
    pub fn detail_tags() -> (r: Components)
        ensures
            !r.statistics && !r.clippy && r.details,
    {
        Components { statistics: false, clippy: false, details: true }
    }
}

/// Writing was refused: in strict mode, a section's unclassified content
/// holds the closing marker of an unknown-content block, so the written
/// block would close early and the content would not survive a round trip.
#[derive(Debug, Clone, Copy, PartialEq, Eq, Structural)]
pub struct WriteError;

/// `p` occurs somewhere in `s`.
pub open spec fn spec_contains(s: Seq<char>, p: Seq<char>) -> bool {
    exists|a: int| 0 <= a && a + p.len() <= s.len() && #[trigger] s.subrange(a, a + p.len()) == p
}

/// The section's unclassified content would break the unknown-content
/// framing on output.
pub open spec fn spec_unclosed(s: Section) -> bool {
    match s {
        Section::Release { unknown, .. } => spec_contains(unknown@, "</csr-unknown>"@),
        Section::Verbatim { .. } => false,
    }
}

/// Some section of the document would break the unknown-content framing.
pub open spec fn spec_any_unclosed(log: ChangeLog) -> bool {
    exists|i: int| 0 <= i < log.sections@.len() && spec_unclosed(#[trigger] log.sections@[i])
}

/// A run of `n` heading hashes.
pub open spec fn spec_hashes(n: int) -> Seq<char> {
    Seq::new(n as nat, |i: int| '#')
}

/// The group title the writer puts over each commit-type tag; the parser
/// matches these titles back to the tags case-insensitively by prefix.
pub open spec fn spec_title_of(k: Seq<char>) -> Seq<char> {
    if k == "fix"@ {
        "Fixed"@
    } else if k == "add"@ {
        "Added"@
    } else if k == "feat"@ {
        "New Features"@
    } else if k == "revert"@ {
        "Reverted"@
    } else if k == "remove"@ {
        "Removed"@
    } else if k == "change"@ {
        "Changed"@
    } else if k == "docs"@ {
        "Documentation"@
    } else if k == "perf"@ {
        "Performance"@
    } else if k == "refactor"@ {
        "Refactor"@
    } else if k == "style"@ {
        "Style"@
    } else {
        "Other"@
    }
}

fn append_title_of(out: &mut String, k: &str)
    ensures
        final(out)@ == old(out)@ + spec_title_of(k@),
{
    proof {
        reveal_strlit("fix");
        reveal_strlit("add");
        reveal_strlit("feat");
        reveal_strlit("revert");
        reveal_strlit("remove");
        reveal_strlit("change");
        reveal_strlit("docs");
        reveal_strlit("perf");
        reveal_strlit("refactor");
        reveal_strlit("style");
    }
    if str_eq(k, "fix") {
        out.append("Fixed");
    } else if str_eq(k, "add") {
        out.append("Added");
    } else if str_eq(k, "feat") {
        out.append("New Features");
    } else if str_eq(k, "revert") {
        out.append("Reverted");
    } else if str_eq(k, "remove") {
        out.append("Removed");
    } else if str_eq(k, "change") {
        out.append("Changed");
    } else if str_eq(k, "docs") {
        out.append("Documentation");
    } else if str_eq(k, "perf") {
        out.append("Performance");
    } else if str_eq(k, "refactor") {
        out.append("Refactor");
    } else if str_eq(k, "style") {
        out.append("Style");
    } else {
        out.append("Other");
    }
}

/// Compares two strings character by character.
pub fn str_eq(a: &str, b: &str) -> (r: bool)
    ensures
        r == (a@ == b@),
{
    let na = a.unicode_len();
    let nb = b.unicode_len();
    if na != nb {
        return false;
    }
    let mut k: usize = 0;
    while k < na
        invariant
            k <= na,
            na == a@.len() == b@.len(),
            forall|j: int| 0 <= j < k ==> a@[j] == b@[j],
        decreases na - k,
    {
        if a.get_char(k) != b.get_char(k) {
            return false;
        }
        k += 1;
    }
    proof {
        assert(a@ =~= b@);
    }
    true
}

fn append_hashes(out: &mut String, n: usize)
    ensures
        final(out)@ == old(out)@ + spec_hashes(n as int),
{
    let mut k: usize = 0;
    while k < n
        invariant
            k <= n,
            out@ == old(out)@ + spec_hashes(k as int),
        decreases n - k,
    {
        out.append("#");
        k += 1;
        proof {
            reveal_strlit("#");
            assert(out@ =~= old(out)@ + spec_hashes(k as int));
        }
    }
}

/// The marker lines for a list of removed ids, one per id.
pub open spec fn spec_removed_lines(ids: Seq<ObjectId>) -> Seq<char>
    decreases ids.len(),
{
    if ids.len() == 0 {
        Seq::empty()
    } else {
        spec_removed_lines(ids.drop_last()) + "<csr-removed-"@ + spec_hex_of(ids.last().view())
            + "/>\n"@
    }
}

fn append_removed_lines(out: &mut String, ids: &Vec<ObjectId>)
    requires
        forall|k: int| 0 <= k < ids@.len() ==> (#[trigger] ids@[k]).wf(),
    ensures
        final(out)@ == old(out)@ + spec_removed_lines(ids@),
{
    let n = ids.len();
    let mut k: usize = 0;
    while k < n
        invariant
            k <= n,
            n == ids@.len(),
            forall|j: int| 0 <= j < ids@.len() ==> (#[trigger] ids@[j]).wf(),
            out@ == old(out)@ + spec_removed_lines(ids@.subrange(0, k as int)),
        decreases n - k,
    {
        out.append("<csr-removed-");
        ids[k].append_hex(out);
        out.append("/>\n");
        k += 1;
        proof {
            let pre = ids@.subrange(0, k as int);
            assert(pre.drop_last() =~= ids@.subrange(0, k - 1));
            assert(pre.last() == ids@[k - 1]);
            assert(out@ =~= old(out)@ + spec_removed_lines(pre));
        }
    }
    proof {
        assert(ids@.subrange(0, n as int) =~= ids@);
    }
}

/// The text of one issue reference or of the uncategorized marker.
pub open spec fn spec_category_str(c: Category, lm: Linkables) -> Seq<char> {
    match c {
        Category::Uncategorized => "Uncategorized"@,
        Category::Issue(s) => {
            match lm {
                Linkables::AsText => "#"@ + s@,
                Linkables::AsLinks { repository_url } => {
                    "[#"@ + s@ + "]("@ + repository_url@ + "/issues/"@ + s@ + ")"@
                },
            }
        },
    }
}

fn append_category(out: &mut String, c: &Category, lm: &Linkables)
    ensures
        final(out)@ == old(out)@ + spec_category_str(*c, *lm),
{
    match c {
        Category::Uncategorized => {
            out.append("Uncategorized");
        },
        Category::Issue(s) => {
            match lm {
                Linkables::AsText => {
                    out.append("#");
                    out.append(s.as_str());
                    proof {
                        assert(out@ =~= old(out)@ + spec_category_str(*c, *lm));
                    }
                },
                Linkables::AsLinks { repository_url } => {
                    out.append("[#");
                    out.append(s.as_str());
                    out.append("](");
                    out.append(repository_url.as_str());
                    out.append("/issues/");
                    out.append(s.as_str());
                    out.append(")");
                    proof {
                        assert(out@ =~= old(out)@ + spec_category_str(*c, *lm));
                    }
                },
            }
        },
    }
}

/// The rendering of one commit id: the short hash as text, or a link to the
/// commit carrying the short hash.
pub open spec fn spec_id_str(id: ObjectId, lm: Linkables) -> Seq<char> {
    let h = spec_hex_of(id.view());
    match lm {
        Linkables::AsText => h.subrange(0, 7),
        Linkables::AsLinks { repository_url } => {
            "[`"@ + h.subrange(0, 7) + "`]("@ + repository_url@ + "/commit/"@ + h + ")"@
        },
    }
}

fn append_id_str(out: &mut String, id: &ObjectId, lm: &Linkables)
    requires
        id.wf(),
    ensures
        final(out)@ == old(out)@ + spec_id_str(*id, *lm),
{
    let mut h = String::new();
    id.append_hex(&mut h);
    proof {
        id.lemma_wf_len();
        crate::id::lemma_hex_len(id.view());
    }
    let short = h.as_str().substring_char(0, 7);
    match lm {
        Linkables::AsText => {
            out.append(short);
        },
        Linkables::AsLinks { repository_url } => {
            out.append("[`");
            out.append(short);
            out.append("`](");
            out.append(repository_url.as_str());
            out.append("/commit/");
            out.append(h.as_str());
            out.append(")");
            proof {
                assert(out@ =~= old(out)@ + spec_id_str(*id, *lm));
            }
        },
    }
}

/// A generated message body re-indented for its list item: each line gets
/// three spaces of indent, blank lines stay blank, and every line is
/// terminated.
pub open spec fn spec_indent_body(b: Seq<char>, i: int) -> Seq<char>
    decreases b.len() - i,
    via spec_indent_body_dec
{
    if 0 <= i < b.len() {
        let le = text::spec_line_end(b, i, b.len() as int);
        let ce = if le > i && b[le - 1] == '\n' {
            le - 1
        } else {
            le
        };
        (if ce == i {
            Seq::<char>::empty()
        } else {
            "   "@ + b.subrange(i, ce)
        }) + "\n"@ + spec_indent_body(b, le)
    } else {
        Seq::empty()
    }
}

#[via_fn]
proof fn spec_indent_body_dec(b: Seq<char>, i: int) {
    if 0 <= i < b.len() {
        text::lemma_line_end_bounds(b, i, b.len() as int);
    }
}

fn append_indent_body(out: &mut String, b: &str)
    ensures
        final(out)@ == old(out)@ + spec_indent_body(b@, 0),
{
    let chars = text::str_to_chars(b);
    let n = chars.len();
    let mut i: usize = 0;
    while i < n
        invariant
            chars@ == b@,
            i <= n == chars@.len(),
            old(out)@ + spec_indent_body(b@, 0) == out@ + spec_indent_body(b@, i as int),
        decreases n - i,
    {
        let le = text::line_end(&chars, i, n);
        let ce = if le > i && chars[le - 1] == '\n' {
            le - 1
        } else {
            le
        };
        if ce > i {
            out.append("   ");
            let part = text::slice_string(b, i, ce);
            out.append(part.as_str());
        }
        out.append("\n");
        proof {
            assert(old(out)@ + spec_indent_body(b@, 0) =~= out@ + spec_indent_body(b@, le as int));
        }
        i = le;
    }
    proof {
        assert(final(out)@ =~= old(out)@ + spec_indent_body(b@, 0));
    }
}

/// The text of one group entry: a generated entry becomes a list item led by
/// its id marker with the body re-indented underneath; a hand-authored entry
/// is written unchanged on its own line.
pub open spec fn spec_message_str(m: Message) -> Seq<char> {
    match m {
        Message::Generated { id, title, body } => {
            " - <csr-id-"@ + spec_hex_of(id.view()) + "/> "@ + title@ + "\n"@ + (match body {
                Some(b) => spec_indent_body(b@, 0),
                None => Seq::empty(),
            })
        },
        Message::User { markdown } => markdown@ + "\n"@,
    }
}

fn append_message(out: &mut String, m: &Message)
    requires
        m.wf(),
    ensures
        final(out)@ == old(out)@ + spec_message_str(*m),
{
    match m {
        Message::Generated { id, title, body } => {
            out.append(" - <csr-id-");
            id.append_hex(out);
            out.append("/> ");
            out.append(title.as_str());
            out.append("\n");
            match body {
                Some(b) => {
                    append_indent_body(out, b.as_str());
                },
                None => {},
            }
            proof {
                assert(out@ =~= old(out)@ + spec_message_str(*m));
            }
        },
        Message::User { markdown } => {
            out.append(markdown.as_str());
            out.append("\n");
            proof {
                assert(out@ =~= old(out)@ + spec_message_str(*m));
            }
        },
    }
}

/// The concatenated text of a group's entries, in order.
pub open spec fn spec_messages_str(ms: Seq<Message>) -> Seq<char>
    decreases ms.len(),
{
    if ms.len() == 0 {
        Seq::empty()
    } else {
        spec_messages_str(ms.drop_last()) + spec_message_str(ms.last())
    }
}

fn append_messages(out: &mut String, ms: &Vec<Message>)
    requires
        forall|k: int| 0 <= k < ms@.len() ==> (#[trigger] ms@[k]).wf(),
    ensures
        final(out)@ == old(out)@ + spec_messages_str(ms@),
{
    let n = ms.len();
    let mut k: usize = 0;
    while k < n
        invariant
            k <= n,
            n == ms@.len(),
            forall|j: int| 0 <= j < ms@.len() ==> (#[trigger] ms@[j]).wf(),
            out@ == old(out)@ + spec_messages_str(ms@.subrange(0, k as int)),
        decreases n - k,
    {
        append_message(out, &ms[k]);
        k += 1;
        proof {
            let pre = ms@.subrange(0, k as int);
            assert(pre.drop_last() =~= ms@.subrange(0, k - 1));
            assert(pre.last() == ms@[k - 1]);
            assert(out@ =~= old(out)@ + spec_messages_str(pre));
        }
    }
    proof {
        assert(ms@.subrange(0, n as int) =~= ms@);
    }
}

/// The text of one commit-type group: its heading (with the breaking-change
/// marker when set), its removed-id markers, and its entries.
pub open spec fn spec_conventional_str(c: Conventional, hl: int) -> Seq<char> {
    spec_hashes(hl + 1) + " "@ + spec_title_of(c.kind@) + (if c.is_breaking {
        " (BREAKING)"@
    } else {
        Seq::empty()
    }) + "\n\n"@ + spec_removed_lines(c.removed@) + (if c.removed@.len() > 0 {
        "\n"@
    } else {
        Seq::empty()
    }) + spec_messages_str(c.messages@) + "\n"@
}

fn append_conventional(out: &mut String, c: &Conventional, hl: usize)
    requires
        hl < usize::MAX,
        forall|k: int| 0 <= k < c.removed@.len() ==> (#[trigger] c.removed@[k]).wf(),
        forall|k: int| 0 <= k < c.messages@.len() ==> (#[trigger] c.messages@[k]).wf(),
    ensures
        final(out)@ == old(out)@ + spec_conventional_str(*c, hl as int),
{
    append_hashes(out, hl + 1);
    out.append(" ");
    append_title_of(out, c.kind);
    if c.is_breaking {
        out.append(" (BREAKING)");
    }
    out.append("\n\n");
    append_removed_lines(out, &c.removed);
    if c.removed.len() > 0 {
        out.append("\n");
    }
    append_messages(out, &c.messages);
    out.append("\n");
    proof {
        assert(out@ =~= old(out)@ + spec_conventional_str(*c, hl as int));
    }
}

/// The lint-fix report block.
pub open spec fn spec_clippy_str(t: ThanksClippy, hl: int) -> Seq<char> {
    spec_hashes(hl + 1) + " Thanks Clippy\n\n[Clippy](https://github.com/rust-lang/rust-clippy) helped "@
        + text::spec_dec(t.count as int) + " times to make code idiomatic.\n\n"@
}

fn append_clippy(out: &mut String, t: &ThanksClippy, hl: usize)
    requires
        hl < usize::MAX,
    ensures
        final(out)@ == old(out)@ + spec_clippy_str(*t, hl as int),
{
    append_hashes(out, hl + 1);
    out.append(" Thanks Clippy\n\n[Clippy](https://github.com/rust-lang/rust-clippy) helped ");
    text::append_dec(out, t.count as u64);
    out.append(" times to make code idiomatic.\n\n");
    proof {
        assert(out@ =~= old(out)@ + spec_clippy_str(*t, hl as int));
    }
}

/// The comma-separated list of issues worked on.
pub open spec fn spec_issues_str(cs: Seq<Category>, lm: Linkables) -> Seq<char>
    decreases cs.len(),
{
    if cs.len() == 0 {
        Seq::empty()
    } else {
        spec_issues_str(cs.drop_last(), lm) + (if cs.len() > 1 {
            ", "@
        } else {
            Seq::empty()
        }) + spec_category_str(cs.last(), lm)
    }
}

fn append_issues(out: &mut String, cs: &Vec<Category>, lm: &Linkables)
    ensures
        final(out)@ == old(out)@ + spec_issues_str(cs@, *lm),
{
    let n = cs.len();
    let mut k: usize = 0;
    while k < n
        invariant
            k <= n,
            n == cs@.len(),
            out@ == old(out)@ + spec_issues_str(cs@.subrange(0, k as int), *lm),
        decreases n - k,
    {
        if k > 0 {
            out.append(", ");
        }
        append_category(out, &cs[k], lm);
        k += 1;
        proof {
            let pre = cs@.subrange(0, k as int);
            assert(pre.drop_last() =~= cs@.subrange(0, k - 1));
            assert(pre.last() == cs@[k - 1]);
            assert(out@ =~= old(out)@ + spec_issues_str(pre, *lm));
        }
    }
    proof {
        assert(cs@.subrange(0, n as int) =~= cs@);
    }
}

/// The commit statistics report block.
pub open spec fn spec_statistics_str(st: CommitStatistics, hl: int, lm: Linkables) -> Seq<char> {
    spec_hashes(hl + 1) + " Commit Statistics\n\n - "@ + text::spec_dec(st.count as int)
        + " commits contributed to the release.\n"@ + (match st.duration {
        Some(d) => " - "@ + text::spec_dec(d as int)
            + " calendar days passed between the first and the last commit.\n"@,
        None => Seq::empty(),
    }) + (match st.time_passed_since_last_release {
        Some(d) => " - "@ + text::spec_dec(d as int) + " days passed between releases.\n"@,
        None => Seq::empty(),
    }) + " - "@ + text::spec_dec(st.conventional_count as int)
        + " commits were understood as conventional.\n - "@ + text::spec_dec(
        st.unique_issues@.len() as int,
    ) + " unique issues were worked on"@ + (if st.unique_issues@.len() == 0 {
        ".\n"@
    } else {
        ": "@ + spec_issues_str(st.unique_issues@, lm) + "\n"@
    }) + "\n"@
}

#[verifier::rlimit(100)]
#[verifier::spinoff_prover]
fn append_statistics(out: &mut String, st: &CommitStatistics, hl: usize, lm: &Linkables)
    requires
        hl < usize::MAX,
    ensures
        final(out)@ == old(out)@ + spec_statistics_str(*st, hl as int, *lm),
{
    append_hashes(out, hl + 1);
    out.append(" Commit Statistics\n\n - ");
    text::append_dec(out, st.count as u64);
    out.append(" commits contributed to the release.\n");
    let ghost p1 = old(out)@ + spec_hashes(hl + 1) + " Commit Statistics\n\n - "@ + text::spec_dec(
        st.count as int,
    ) + " commits contributed to the release.\n"@;
    proof {
        assert(out@ =~= p1);
    }
    match &st.duration {
        Some(d) => {
            out.append(" - ");
            text::append_dec(out, *d);
            out.append(" calendar days passed between the first and the last commit.\n");
        },
        None => {},
    }
    let ghost p2 = p1 + (match st.duration {
        Some(d) => " - "@ + text::spec_dec(d as int)
            + " calendar days passed between the first and the last commit.\n"@,
        None => Seq::<char>::empty(),
    });
    proof {
        assert(out@ =~= p2);
    }
    match &st.time_passed_since_last_release {
        Some(d) => {
            out.append(" - ");
            text::append_dec(out, *d);
            out.append(" days passed between releases.\n");
        },
        None => {},
    }
    let ghost p3 = p2 + (match st.time_passed_since_last_release {
        Some(d) => " - "@ + text::spec_dec(d as int) + " days passed between releases.\n"@,
        None => Seq::<char>::empty(),
    });
    proof {
        assert(out@ =~= p3);
    }
    out.append(" - ");
    text::append_dec(out, st.conventional_count as u64);
    out.append(" commits were understood as conventional.\n - ");
    text::append_dec(out, st.unique_issues.len() as u64);
    out.append(" unique issues were worked on");
    let ghost p4 = p3 + " - "@ + text::spec_dec(st.conventional_count as int)
        + " commits were understood as conventional.\n - "@ + text::spec_dec(
        st.unique_issues@.len() as int,
    ) + " unique issues were worked on"@;
    proof {
        assert(out@ =~= p4);
    }
    if st.unique_issues.len() == 0 {
        out.append(".\n");
    } else {
        out.append(": ");
        append_issues(out, &st.unique_issues, lm);
        out.append("\n");
    }
    out.append("\n");
    let ghost p5 = p4 + (if st.unique_issues@.len() == 0 {
        ".\n"@
    } else {
        ": "@ + spec_issues_str(st.unique_issues@, *lm) + "\n"@
    }) + "\n"@;
    proof {
        assert(out@ =~= p5);
        assert(out@ =~= old(out)@ + spec_statistics_str(*st, hl as int, *lm));
    }
}

/// The lines of one detail entry.
pub open spec fn spec_details_msgs_str(ms: Seq<DetailsMessage>, lm: Linkables) -> Seq<char>
    decreases ms.len(),
{
    if ms.len() == 0 {
        Seq::empty()
    } else {
        spec_details_msgs_str(ms.drop_last(), lm) + "    - "@ + ms.last().title@ + " ("@
            + spec_id_str(ms.last().id, lm) + ")\n"@
    }
}

fn append_details_msgs(out: &mut String, ms: &Vec<DetailsMessage>, lm: &Linkables)
    requires
        forall|k: int| 0 <= k < ms@.len() ==> (#[trigger] ms@[k]).id.wf(),
    ensures
        final(out)@ == old(out)@ + spec_details_msgs_str(ms@, *lm),
{
    let n = ms.len();
    let mut k: usize = 0;
    while k < n
        invariant
            k <= n,
            n == ms@.len(),
            forall|j: int| 0 <= j < ms@.len() ==> (#[trigger] ms@[j]).id.wf(),
            out@ == old(out)@ + spec_details_msgs_str(ms@.subrange(0, k as int), *lm),
        decreases n - k,
    {
        out.append("    - ");
        out.append(ms[k].title.as_str());
        out.append(" (");
        append_id_str(out, &ms[k].id, lm);
        out.append(")\n");
        k += 1;
        proof {
            let pre = ms@.subrange(0, k as int);
            assert(pre.drop_last() =~= ms@.subrange(0, k - 1));
            assert(pre.last() == ms@[k - 1]);
            assert(out@ =~= old(out)@ + spec_details_msgs_str(pre, *lm));
        }
    }
    proof {
        assert(ms@.subrange(0, n as int) =~= ms@);
    }
}

/// The categories of the details block, each with its commits.
pub open spec fn spec_details_cats_str(cs: Seq<CategoryMessages>, lm: Linkables) -> Seq<char>
    decreases cs.len(),
{
    if cs.len() == 0 {
        Seq::empty()
    } else {
        spec_details_cats_str(cs.drop_last(), lm) + " * **"@ + spec_category_str(
            cs.last().category,
            lm,
        ) + "**\n"@ + spec_details_msgs_str(cs.last().messages@, lm)
    }
}

fn append_details_cats(out: &mut String, cs: &Vec<CategoryMessages>, lm: &Linkables)
    requires
        forall|k: int, j: int|
            0 <= k < cs@.len() && 0 <= j < cs@[k].messages@.len() ==> (#[trigger] cs@[k].messages@[j]).id.wf(),
    ensures
        final(out)@ == old(out)@ + spec_details_cats_str(cs@, *lm),
{
    let n = cs.len();
    let mut k: usize = 0;
    while k < n
        invariant
            k <= n,
            n == cs@.len(),
            forall|k2: int, j: int|
                0 <= k2 < cs@.len() && 0 <= j < cs@[k2].messages@.len() ==> (
                #[trigger] cs@[k2].messages@[j]).id.wf(),
            out@ == old(out)@ + spec_details_cats_str(cs@.subrange(0, k as int), *lm),
        decreases n - k,
    {
        out.append(" * **");
        append_category(out, &cs[k].category, lm);
        out.append("**\n");
        append_details_msgs(out, &cs[k].messages, lm);
        k += 1;
        proof {
            let pre = cs@.subrange(0, k as int);
            assert(pre.drop_last() =~= cs@.subrange(0, k - 1));
            assert(pre.last() == cs@[k - 1]);
            assert(out@ =~= old(out)@ + spec_details_cats_str(pre, *lm));
        }
    }
    proof {
        assert(cs@.subrange(0, n as int) =~= cs@);
    }
}

/// The per-commit details report block.
pub open spec fn spec_details_str(d: Details, hl: int, lm: Linkables) -> Seq<char> {
    spec_hashes(hl + 1) + " Details\n\n<details><summary>view details</summary>\n\n"@
        + spec_details_cats_str(d.commits_by_category@, lm) + "</details>\n\n"@
}

fn append_details(out: &mut String, d: &Details, hl: usize, lm: &Linkables)
    requires
        hl < usize::MAX,
        forall|k: int, j: int|
            0 <= k < d.commits_by_category@.len() && 0 <= j
                < d.commits_by_category@[k].messages@.len() ==> (
            #[trigger] d.commits_by_category@[k].messages@[j]).id.wf(),
    ensures
        final(out)@ == old(out)@ + spec_details_str(*d, hl as int, *lm),
{
    append_hashes(out, hl + 1);
    out.append(" Details\n\n<details><summary>view details</summary>\n\n");
    append_details_cats(out, &d.commits_by_category, lm);
    out.append("</details>\n\n");
    proof {
        assert(out@ =~= old(out)@ + spec_details_str(*d, hl as int, *lm));
    }
}

/// The text of one segment: verbatim content unchanged, a commit-type group
/// in its full shape, a report block only when freshly generated and its
/// component is switched on.
pub open spec fn spec_segment_str(g: Segment, hl: int, lm: Linkables, comps: Components) -> Seq<
    char,
> {
    match g {
        Segment::User { markdown } => markdown@,
        Segment::Conventional(c) => spec_conventional_str(c, hl),
        Segment::Clippy(d) => {
            match d {
                Data::Generated(t) => if comps.clippy {
                    spec_clippy_str(t, hl)
                } else {
                    Seq::empty()
                },
                Data::Parsed => Seq::empty(),
            }
        },
        Segment::Statistics(d) => {
            match d {
                Data::Generated(t) => if comps.statistics {
                    spec_statistics_str(t, hl, lm)
                } else {
                    Seq::empty()
                },
                Data::Parsed => Seq::empty(),
            }
        },
        Segment::Details(d) => {
            match d {
                Data::Generated(t) => if comps.details {
                    spec_details_str(t, hl, lm)
                } else {
                    Seq::empty()
                },
                Data::Parsed => Seq::empty(),
            }
        },
    }
}

/// What must hold of a segment before it can be written: all ids are real
/// hashes.
pub open spec fn spec_seg_writable(g: Segment) -> bool {
    match g {
        Segment::Conventional(c) => {
            &&& forall|k: int| 0 <= k < c.removed@.len() ==> (#[trigger] c.removed@[k]).wf()
            &&& forall|k: int| 0 <= k < c.messages@.len() ==> (#[trigger] c.messages@[k]).wf()
        },
        Segment::Details(Data::Generated(d)) => {
            forall|k: int, j: int|
                0 <= k < d.commits_by_category@.len() && 0 <= j
                    < d.commits_by_category@[k].messages@.len() ==> (
                #[trigger] d.commits_by_category@[k].messages@[j]).id.wf()
        },
        _ => true,
    }
}

fn append_segment(out: &mut String, g: &Segment, hl: usize, lm: &Linkables, comps: Components)
    requires
        hl < usize::MAX,
        spec_seg_writable(*g),
    ensures
        final(out)@ == old(out)@ + spec_segment_str(*g, hl as int, *lm, comps),
{
    match g {
        Segment::User { markdown } => {
            out.append(markdown.as_str());
        },
        Segment::Conventional(c) => {
            append_conventional(out, c, hl);
        },
        Segment::Clippy(d) => {
            match d {
                Data::Generated(t) => {
                    if comps.clippy {
                        append_clippy(out, t, hl);
                    }
                },
                Data::Parsed => {},
            }
        },
        Segment::Statistics(d) => {
            match d {
                Data::Generated(t) => {
                    if comps.statistics {
                        append_statistics(out, t, hl, lm);
                    }
                },
                Data::Parsed => {},
            }
        },
        Segment::Details(d) => {
            match d {
                Data::Generated(t) => {
                    if comps.details {
                        append_details(out, t, hl, lm);
                    }
                },
                Data::Parsed => {},
            }
        },
    }
}

/// The concatenated text of a section's segments, in order.
pub open spec fn spec_segments_str(
    gs: Seq<Segment>,
    hl: int,
    lm: Linkables,
    comps: Components,
) -> Seq<char>
    decreases gs.len(),
{
    if gs.len() == 0 {
        Seq::empty()
    } else {
        spec_segments_str(gs.drop_last(), hl, lm, comps) + spec_segment_str(
            gs.last(),
            hl,
            lm,
            comps,
        )
    }
}

fn append_segments(out: &mut String, gs: &Vec<Segment>, hl: usize, lm: &Linkables, comps: Components)
    requires
        hl < usize::MAX,
        forall|k: int| 0 <= k < gs@.len() ==> spec_seg_writable(#[trigger] gs@[k]),
    ensures
        final(out)@ == old(out)@ + spec_segments_str(gs@, hl as int, *lm, comps),
{
    let n = gs.len();
    let mut k: usize = 0;
    while k < n
        invariant
            k <= n,
            n == gs@.len(),
            hl < usize::MAX,
            forall|j: int| 0 <= j < gs@.len() ==> spec_seg_writable(#[trigger] gs@[j]),
            out@ == old(out)@ + spec_segments_str(gs@.subrange(0, k as int), hl as int, *lm, comps),
        decreases n - k,
    {
        append_segment(out, &gs[k], hl, lm, comps);
        k += 1;
        proof {
            let pre = gs@.subrange(0, k as int);
            assert(pre.drop_last() =~= gs@.subrange(0, k - 1));
            assert(pre.last() == gs@[k - 1]);
            assert(out@ =~= old(out)@ + spec_segments_str(pre, hl as int, *lm, comps));
        }
    }
    proof {
        assert(gs@.subrange(0, n as int) =~= gs@);
    }
}

/// The text of one section: verbatim text unchanged; a release as its
/// headline (exactly in the shape the headline grammar accepts), its
/// removed-id markers, its carried-over unknown content inside the
/// unknown-content tags, and its segments.
/// The headline of a release section, exactly in the shape the headline
/// grammar accepts, followed by a blank line.
pub open spec fn spec_headline_str(
    name: Version,
    date: Option<Date>,
    heading_level: int,
    version_prefix: Seq<char>,
) -> Seq<char> {
    spec_hashes(heading_level) + " "@ + version_prefix + (match name {
        Version::Unreleased => "Unreleased"@,
        Version::Semantic(v) => spec_semver_str(v),
    }) + (match date {
        Some(d) => " ("@ + spec_date_str(d) + ")"@,
        None => Seq::empty(),
    }) + "\n\n"@
}

pub open spec fn spec_section_str(s: Section, lm: Linkables, comps: Components) -> Seq<char> {
    match s {
        Section::Verbatim { text, .. } => text@,
        Section::Release {
            name,
            removed_messages,
            date,
            heading_level,
            version_prefix,
            segments,
            unknown,
        } => {
            spec_headline_str(name, date, heading_level as int, version_prefix@)
                + spec_removed_lines(removed_messages@) + (if removed_messages@.len() > 0 {
                "\n"@
            } else {
                Seq::empty()
            }) + (if unknown@.len() > 0 {
                "<csr-unknown>\n"@ + unknown@ + "</csr-unknown>\n\n"@
            } else {
                Seq::empty()
            }) + spec_segments_str(segments@, heading_level as int, lm, comps)
        },
    }
}

/// Every segment of the section can be written: its ids are real hashes.
pub open spec fn spec_section_writable(s: Section) -> bool {
    match s {
        Section::Verbatim { .. } => true,
        Section::Release { removed_messages, heading_level, segments, .. } => {
            &&& heading_level < usize::MAX
            &&& forall|k: int|
                0 <= k < removed_messages@.len() ==> (#[trigger] removed_messages@[k]).wf()
            &&& forall|k: int| 0 <= k < segments@.len() ==> spec_seg_writable(#[trigger] segments@[k])
        },
    }
}

fn append_release(
    out: &mut String,
    name: &Version,
    removed_messages: &Vec<ObjectId>,
    date: &Option<Date>,
    heading_level: usize,
    version_prefix: &String,
    segments: &Vec<Segment>,
    unknown: &String,
    lm: &Linkables,
    comps: Components,
)
    requires
        heading_level < usize::MAX,
        forall|k: int|
            0 <= k < removed_messages@.len() ==> (#[trigger] removed_messages@[k]).wf(),
        forall|k: int| 0 <= k < segments@.len() ==> spec_seg_writable(#[trigger] segments@[k]),
    ensures
        final(out)@ == old(out)@ + spec_headline_str(
            *name,
            *date,
            heading_level as int,
            version_prefix@,
        ) + spec_removed_lines(removed_messages@) + (if removed_messages@.len() > 0 {
            "\n"@
        } else {
            Seq::<char>::empty()
        }) + (if unknown@.len() > 0 {
            "<csr-unknown>\n"@ + unknown@ + "</csr-unknown>\n\n"@
        } else {
            Seq::<char>::empty()
        }) + spec_segments_str(segments@, heading_level as int, *lm, comps),
{
    append_hashes(out, heading_level);
    out.append(" ");
    out.append(version_prefix.as_str());
    match name {
        Version::Unreleased => {
            out.append("Unreleased");
        },
        Version::Semantic(v) => {
            crate::version::append_semver(out, v);
        },
    }
    match date {
        Some(d) => {
            out.append(" (");
            crate::version::append_date(out, d);
            out.append(")");
        },
        None => {},
    }
    out.append("\n\n");
    let ghost p1 = old(out)@ + spec_headline_str(
        *name,
        *date,
        heading_level as int,
        version_prefix@,
    );
    proof {
        assert(out@ =~= p1);
    }
    append_removed_lines(out, removed_messages);
    let ghost p2 = p1 + spec_removed_lines(removed_messages@);
    if removed_messages.len() > 0 {
        out.append("\n");
    }
    let ghost p3 = p2 + (if removed_messages@.len() > 0 {
        "\n"@
    } else {
        Seq::<char>::empty()
    });
    proof {
        assert(out@ =~= p3);
    }
    if unknown.as_str().unicode_len() > 0 {
        out.append("<csr-unknown>\n");
        out.append(unknown.as_str());
        out.append("</csr-unknown>\n\n");
    }
    let ghost p4 = p3 + (if unknown@.len() > 0 {
        "<csr-unknown>\n"@ + unknown@ + "</csr-unknown>\n\n"@
    } else {
        Seq::<char>::empty()
    });
    proof {
        assert(out@ =~= p4);
    }
    append_segments(out, segments, heading_level, lm, comps);
    proof {
        assert(out@ =~= p4 + spec_segments_str(segments@, heading_level as int, *lm, comps));
    }
}

fn append_section(out: &mut String, s: &Section, lm: &Linkables, comps: Components)
    requires
        spec_section_writable(*s),
    ensures
        final(out)@ == old(out)@ + spec_section_str(*s, *lm, comps),
{
    match s {
        Section::Verbatim { text, .. } => {
            out.append(text.as_str());
        },
        Section::Release {
            name,
            removed_messages,
            date,
            heading_level,
            version_prefix,
            segments,
            unknown,
        } => {
            append_release(
                out,
                name,
                removed_messages,
                date,
                *heading_level,
                version_prefix,
                segments,
                unknown,
                lm,
                comps,
            );
            proof {
                lemma_section_parts(*s, *lm, comps);
                assert(out@ =~= old(out)@ + spec_section_str(*s, *lm, comps));
            }
        },
    }
}

/// A release section's text decomposes into its headline, removed-id
/// lines, carried-over unknown block and segments.
proof fn lemma_section_parts(sec: Section, lm: Linkables, comps: Components)
    requires
        sec is Release,
    ensures
        sec matches Section::Release {
            name,
            removed_messages,
            date,
            heading_level,
            version_prefix,
            segments,
            unknown,
        } ==> spec_section_str(sec, lm, comps) == spec_headline_str(
            name,
            date,
            heading_level as int,
            version_prefix@,
        ) + spec_removed_lines(removed_messages@) + (if removed_messages@.len() > 0 {
            "\n"@
        } else {
            Seq::<char>::empty()
        }) + (if unknown@.len() > 0 {
            "<csr-unknown>\n"@ + unknown@ + "</csr-unknown>\n\n"@
        } else {
            Seq::<char>::empty()
        }) + spec_segments_str(segments@, heading_level as int, lm, comps),
{
}

/// The text of the whole document: its sections in order.
pub open spec fn spec_changelog_str(ss: Seq<Section>, lm: Linkables, comps: Components) -> Seq<
    char,
>
    decreases ss.len(),
{
    if ss.len() == 0 {
        Seq::empty()
    } else {
        spec_changelog_str(ss.drop_last(), lm, comps) + spec_section_str(ss.last(), lm, comps)
    }
}

fn section_unclosed(s: &Section) -> (r: bool)
    ensures
        r == spec_unclosed(*s),
{
    proof {
        reveal_strlit("</csr-unknown>");
    }
    match s {
        Section::Verbatim { .. } => false,
        Section::Release { unknown, .. } => {
            let chars = text::str_to_chars(unknown.as_str());
            let n = chars.len();
            let mut q: usize = 0;
            while q < n
                invariant
                    q <= n == chars@.len(),
                    chars@ == unknown@,
                    spec_unclosed(*s) == spec_contains(unknown@, "</csr-unknown>"@),
                    forall|a: int|
                        0 <= a < q ==> !(a + "</csr-unknown>"@.len() <= n && #[trigger] chars@.subrange(
                            a,
                            a + "</csr-unknown>"@.len(),
                        ) == "</csr-unknown>"@),
                decreases n - q,
            {
                if text::match_at(&chars, q, n, "</csr-unknown>") {
                    proof {
                        assert(unknown@.subrange(q as int, q + "</csr-unknown>"@.len())
                            == "</csr-unknown>"@);
                    }
                    return true;
                }
                q += 1;
            }
            proof {
                let p = "</csr-unknown>"@;
                assert forall|a: int|
                    !(0 <= a && a + p.len() <= unknown@.len() && #[trigger] unknown@.subrange(
                        a,
                        a + p.len(),
                    ) == p) by {
                    if 0 <= a && a + p.len() <= unknown@.len() {
                        assert(a < n);
                        assert(!(a + p.len() <= n && chars@.subrange(a, a + p.len()) == p));
                        assert(unknown@.subrange(a, a + p.len()) == chars@.subrange(a, a + p.len()));
                    }
                }
                assert(!spec_contains(unknown@, p));
            }
            false
        },
    }
}

impl Section {
    /// Writes this one section, as `ChangeLog::write_to` would.
    ///
    /// In strict mode the call is refused, and nothing is written, when the
    /// section's unclassified content holds the closing unknown-content
    /// marker.
    pub fn write_to(
        &self,
        out: &mut String,
        link_mode: &Linkables,
        components: Components,
        strict: bool,
    ) -> (r: Result<(), WriteError>)
        requires
            self.wf(),
        ensures
            r is Ok <==> !(strict && spec_unclosed(*self)),
            r is Ok ==> final(out)@ == old(out)@ + spec_section_str(*self, *link_mode, components),
            r is Err ==> final(out)@ == old(out)@,
    {
        if strict && section_unclosed(self) {
            return Err(WriteError);
        }
        proof {
            lemma_wf_writable(*self);
        }
        append_section(out, self, link_mode, components);
        Ok(())
    }
}

/// A well-formed section can be written.
proof fn lemma_wf_writable(s: Section)
    requires
        s.wf(),
    ensures
        spec_section_writable(s),
{
    match s {
        Section::Release { segments, .. } => {
            assert forall|k: int|
                0 <= k < segments@.len() implies spec_seg_writable(#[trigger] segments@[k]) by {
                assert(segments@[k].wf());
                match segments@[k] {
                    Segment::Conventional(c) => {
                        assert forall|j: int|
                            0 <= j < c.messages@.len() implies (#[trigger] c.messages@[j]).wf() by {
                            assert(c.wf());
                        }
                    },
                    _ => {},
                }
            }
        },
        _ => {},
    }
}

impl ChangeLog {
    /// Serializes the document back to markdown text, appending to `out`.
    ///
    /// The headline, marker and indentation conventions are exactly those
    /// the parser accepts, so recognized structure survives a round trip;
    /// verbatim sections, unclassified content and hand-authored entries
    /// are written unchanged. Report blocks that were only parsed back are
    /// dropped (they are regenerated fresh by the caller); freshly generated
    /// ones are included as the component flags direct. In strict mode the
    /// call is refused, and nothing is written, when some section's
    /// unclassified content holds the closing unknown-content marker.
    pub fn write_to(
        &self,
        out: &mut String,
        link_mode: &Linkables,
        components: Components,
        strict: bool,
    ) -> (r: Result<(), WriteError>)
        requires
            self.wf(),
        ensures
            r is Ok <==> !(strict && spec_any_unclosed(*self)),
            r is Ok ==> final(out)@ == old(out)@ + spec_changelog_str(
                self.sections@,
                *link_mode,
                components,
            ),
            r is Err ==> final(out)@ == old(out)@,
    {
        if strict {
            let n = self.sections.len();
            let mut k: usize = 0;
            while k < n
                invariant
                    strict,
                    k <= n == self.sections@.len(),
                    out@ == old(out)@,
                    forall|j: int| 0 <= j < k ==> !spec_unclosed(#[trigger] self.sections@[j]),
                decreases n - k,
            {
                if section_unclosed(&self.sections[k]) {
                    return Err(WriteError);
                }
                k += 1;
            }
        }
        let n = self.sections.len();
        let mut k: usize = 0;
        while k < n
            invariant
                k <= n == self.sections@.len(),
                self.wf(),
                out@ == old(out)@ + spec_changelog_str(
                    self.sections@.subrange(0, k as int),
                    *link_mode,
                    components,
                ),
            decreases n - k,
        {
            proof {
                assert(self.sections@[k as int].wf());
                lemma_wf_writable(self.sections@[k as int]);
            }
            append_section(out, &self.sections[k], link_mode, components);
            k += 1;
            proof {
                let pre = self.sections@.subrange(0, k as int);
                assert(pre.drop_last() =~= self.sections@.subrange(0, k - 1));
                assert(pre.last() == self.sections@[k - 1]);
                assert(out@ =~= old(out)@ + spec_changelog_str(pre, *link_mode, components));
            }
        }
        proof {
            assert(self.sections@.subrange(0, n as int) =~= self.sections@);
        }
        Ok(())
    }
}

} // verus!
