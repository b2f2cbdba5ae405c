//! The classified pieces inside one release section.

use vstd::prelude::*;

use crate::id::ObjectId;

verus! {

/// A payload that is either carried as a marker after parsing, or fully
/// structured when freshly generated.
///
/// Report blocks are regenerated on every write, so equality deliberately
/// ignores the payload: a parsed-back marker equals any generated payload.
#[derive(Debug, Clone)]
pub enum Data<T> {
    /// Recognized in the document but not parsed back into structure.
    Parsed,
    /// Freshly generated, with the full payload.
    Generated(T),
}

impl<T> PartialEq for Data<T> {
    fn eq(&self, other: &Data<T>) -> (r: bool)
        ensures
            r,
    {
        true
    }
}

impl<T> vstd::std_specs::cmp::PartialEqSpecImpl for Data<T> {
    open spec fn obeys_eq_spec() -> bool {
        true
    }

    open spec fn eq_spec(&self, other: &Data<T>) -> bool {
        true
    }
}

/// One classified piece of a release section, in document order.
#[derive(Debug, Clone, PartialEq)]
pub enum Segment {
    /// Free-form markdown the engine does not own, preserved verbatim.
    User {
        /// The exact original text.
        markdown: String,
    },
    /// One commit-type group.
    Conventional(Conventional),
    /// The lint-fix report block.
    Clippy(Data<ThanksClippy>),
    /// The commit statistics report block.
    Statistics(Data<CommitStatistics>),
    /// The per-commit details report block.
    Details(Data<Details>),
}

/// A group of changelog entries that share one commit type.
#[derive(Debug, Clone, PartialEq)]
pub struct Conventional {
    /// The commit type tag, one of the fixed set of known kinds.
    pub kind: &'static str,
    /// Whether the group carries the breaking-change marker.
    pub is_breaking: bool,
    /// Ids of messages removed from this group, first occurrence first.
    pub removed: Vec<ObjectId>,
    /// The entries of the group, in document order.
    pub messages: Vec<Message>,
}

/// One entry inside a commit-type group.
#[derive(Debug, Clone, PartialEq)]
pub enum Message {
    /// A machine-authored entry traced to a commit.
    Generated {
        /// The hash of the commit the entry came from.
        id: ObjectId,
        /// The first line of the entry.
        title: String,
        /// The remaining lines, if any.
        body: Option<String>,
    },
    /// A hand-authored entry, preserved verbatim.
    User {
        /// The exact original text of the list item.
        markdown: String,
    },
}

impl Message {
    /// Well-formedness: a generated entry's id is a real 20-byte hash.
    pub open spec fn wf(self) -> bool {
        match self {
            Message::Generated { id, .. } => id.wf(),
            Message::User { .. } => true,
        }
    }
}

/// The payload of the lint-fix report block.
#[derive(Debug, Clone, PartialEq, Eq, Structural)]
pub struct ThanksClippy {
    /// How many commits the lint helped with.
    pub count: usize,
}

/// The payload of the commit statistics report block.
#[derive(Debug, Clone, PartialEq)]
pub struct CommitStatistics {
    /// Commits in the release.
    pub count: usize,
    /// Calendar days the release spans, if known.
    pub duration: Option<u64>,
    /// How many commits were understood as conventional.
    pub conventional_count: usize,
    /// Days since the previous release, if known.
    pub time_passed_since_last_release: Option<u64>,
    /// The issues worked on, in order.
    pub unique_issues: Vec<Category>,
}

/// What a detail entry is filed under.
#[derive(Debug, Clone, PartialEq, Eq)]
pub enum Category {
    /// Not tied to an issue.
    Uncategorized,
    /// Tied to the issue with the given id text.
    Issue(String),
}

/// One commit listed in the details report block.
#[derive(Debug, Clone, PartialEq)]
pub struct DetailsMessage {
    /// The commit title.
    pub title: String,
    /// The commit hash.
    pub id: ObjectId,
}

/// The commits of one category in the details report block.
#[derive(Debug, Clone, PartialEq)]
pub struct CategoryMessages {
    /// The category the commits are filed under.
    pub category: Category,
    /// The commits, in order.
    pub messages: Vec<DetailsMessage>,
}

/// The payload of the per-commit details report block.
#[derive(Debug, Clone, PartialEq)]
pub struct Details {
    /// The categories with their commits, in the order they are written.
    pub commits_by_category: Vec<CategoryMessages>,
}

} // verus!
