//! The typed model of one changelog section.

use vstd::prelude::*;

use crate::changelog::segment::{Conventional, Data, Segment};
use crate::changelog::Version;
use crate::id::ObjectId;
use crate::version::Date;

verus! {

/// One section of the document: either prose the engine does not own, kept
/// verbatim, or the entry of one release.
#[derive(Debug, Clone, PartialEq)]
pub enum Section {
    /// Non-release prose, preserved byte for byte.
    Verbatim {
        /// The exact original text.
        text: String,
        /// Whether the engine itself generated this text.
        generated: bool,
    },
    /// The entry of one version.
    Release {
        /// The release version, or "unreleased".
        name: Version,
        /// Ids of messages removed from this section, first occurrence first.
        removed_messages: Vec<ObjectId>,
        /// The release date shown in the headline, if any.
        date: Option<Date>,
        /// The number of `#` characters of the headline.
        heading_level: usize,
        /// The literal text that preceded the version in the headline.
        version_prefix: String,
        /// The classified content of the section, in document order.
        segments: Vec<Segment>,
        /// Content carried forward that the engine could not classify.
        unknown: String,
    },
}

impl Section {
    /// The prefix the writer puts before a semantic version in a headline.
    pub const DEFAULT_PREFIX: &'static str = "v";

    /// Opening marker of a block that carries unclassified content forward.
    pub const UNKNOWN_TAG_START: &'static str = "<csr-unknown>";

    /// Closing marker of such a block.
    pub const UNKNOWN_TAG_END: &'static str = "</csr-unknown>";

    /// The section is a release entry.
    pub open spec fn is_release(self) -> bool {
        self is Release
    }

    /// Well-formedness: every stored id is a real 20-byte hash, and the
    /// heading depth leaves room for one deeper sub-heading.
    pub open spec fn wf(self) -> bool {
        match self {
            Section::Verbatim { .. } => true,
            Section::Release { removed_messages, heading_level, segments, .. } => {
                &&& heading_level < usize::MAX
                &&& forall|i: int|
                    0 <= i < removed_messages@.len() ==> (#[trigger] removed_messages@[i]).wf()
                &&& forall|i: int| 0 <= i < segments@.len() ==> (#[trigger] segments@[i]).wf()
            },
        }
    }
}

impl Segment {
    /// Well-formedness of one classified segment.
    pub open spec fn wf(self) -> bool {
        match self {
            Segment::Conventional(c) => c.wf(),
            Segment::Details(d) => {
                match d {
                    Data::Generated(t) => forall|k: int, j: int|
                        0 <= k < t.commits_by_category@.len() && 0 <= j
                            < t.commits_by_category@[k].messages@.len() ==> (
                        #[trigger] t.commits_by_category@[k].messages@[j]).id.wf(),
                    Data::Parsed => true,
                }
            },
            _ => true,
        }
    }
}

impl Conventional {
    /// Well-formedness: every stored id is a real 20-byte hash.
    pub open spec fn wf(self) -> bool {
        &&& forall|i: int| 0 <= i < self.removed@.len() ==> (#[trigger] self.removed@[i]).wf()
        &&& forall|i: int| 0 <= i < self.messages@.len() ==> (#[trigger] self.messages@[i]).wf()
    }
}

} // verus!
