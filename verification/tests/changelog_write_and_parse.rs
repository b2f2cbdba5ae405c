use smart_release::changelog::section::Section;
use smart_release::changelog::segment::{
    Category, CategoryMessages, CommitStatistics, Conventional, Data, Details, DetailsMessage,
    Message, Segment, ThanksClippy,
};
use smart_release::changelog::write::{Components, Linkables};
use smart_release::changelog::Version;
use smart_release::id::ObjectId;
use smart_release::version::{Date, SemVer};
use smart_release::ChangeLog;

fn hex_to_id(hex: &str) -> ObjectId {
    ObjectId::from_hex(hex).expect("40 hexadecimal characters")
}

fn epoch() -> Date {
    Date::new(1970, 1, 1).expect("a valid calendar date")
}

#[test]
fn issue_30_body_with_unordered_list_does_not_flatten() {
    let log = ChangeLog {
        sections: vec![Section::Release {
            heading_level: 2,
            version_prefix: Section::DEFAULT_PREFIX.into(),
            date: Some(epoch()),
            name: Version::Semantic(SemVer {
                major: 1,
                minor: 0,
                patch: 0,
                pre: String::new(),
                build: String::new(),
            }),
            removed_messages: vec![],
            segments: vec![Segment::Conventional(Conventional {
                kind: "fix",
                is_breaking: false,
                removed: vec![],
                messages: vec![
                    Message::Generated {
                        id: hex_to_id("0000000000000000000000000000000000000001"),
                        title: "Remove hidden bogosort functionality".into(),
                        body: Some(
                            "If users turn out to be depending on bogosort, we may:\n\n\
                             - Add instructions for using an earlier version.\n\
                             - Add back bogosort and document it properly.\n\n\
                             We defaulted to bogosort on Tuesdays based on these mistaken beliefs:\n\n\
                             - Bogosort runs in O(n log n log log n log log log n) if you have an odd number of RAM sticks.\n\
                             - The software can never be run on Tuesday."
                                .into(),
                        ),
                    },
                    Message::Generated {
                        id: hex_to_id("0000000000000000000000000000000000000002"),
                        title: "Time zones are remembered across sessions".into(),
                        body: None,
                    },
                ],
            })],
            unknown: String::new(),
        }],
    };

    let mut md = String::new();
    log.write_to(&mut md, &Linkables::AsText, Components::all(), false)
        .unwrap();

    let top_level_bullets = md.lines().filter(|line| line.starts_with(" - ")).count();
    assert_eq!(
        top_level_bullets, 2,
        "Expected 2 top-level bullet points (one per message), but got {}.\n\
         The body's list items may have been flattened into separate entries.\n\
         Markdown:\n{}",
        top_level_bullets, md
    );

    let parsed_log = ChangeLog::from_markdown(&md);
    assert_eq!(parsed_log, log, "should round-trip losslessly");
}

#[test]
fn conventional_write_empty_messages() {
    let first_message = hex_to_id("0000000000000000000000000000000000000001");
    let second_message = hex_to_id("0000000000000000000000000000000000000002");

    let log = ChangeLog {
        sections: vec![Section::Release {
            heading_level: 4,
            version_prefix: Section::DEFAULT_PREFIX.into(),
            date: Some(epoch()),
            name: Version::Semantic(SemVer {
                major: 1,
                minor: 0,
                patch: 2,
                pre: "beta.2".into(),
                build: String::new(),
            }),
            removed_messages: vec![second_message],
            segments: vec![Segment::Conventional(Conventional {
                kind: "feat",
                is_breaking: true,
                removed: vec![first_message],
                messages: vec![
                    Message::User {
                        markdown: " - verbatim `whatever` the _user_ writes [hello](world)".into(),
                    },
                    Message::Generated {
                        id: hex_to_id("0000000000000000000000000000000000000003"),
                        title: "this messages comes straight from git conventional and _may_ contain markdown".into(),
                        body: Some("first line\nsecond line\n\nanother paragraph".into()),
                    },
                    Message::Generated {
                        id: hex_to_id("0000000000000000000000000000000000000004"),
                        title: "spelling. Hello".into(),
                        body: None,
                    },
                    Message::User {
                        markdown:
                            " - just another user message, this time\n   with multiple lines\n\n   and a new paragraph"
                                .into(),
                    },
                ],
            })],
            unknown: String::new(),
        }],
    };

    let link_modes = [
        Linkables::AsText,
        Linkables::AsLinks {
            repository_url: "https://github.com/user/repo.git".into(),
        },
    ];
    for link_mode in &link_modes {
        let log = log.clone();
        for _round in 1..=2 {
            let mut md = String::new();
            log.write_to(&mut md, link_mode, Components::all(), false).unwrap();

            let parsed_log = ChangeLog::from_markdown(&md);
            assert_eq!(parsed_log, log, "we can parse this back losslessly");
        }
    }
    for components in &[Components::empty(), Components::all()] {
        for section in &log.sections {
            let mut buf = String::new();
            section
                .write_to(&mut buf, &Linkables::AsText, *components, false)
                .unwrap();
            assert!(!buf.is_empty(), "a release section always writes its headline");
        }
    }
}

#[test]
fn all_section_types_round_trips_lossy() {
    let log = ChangeLog {
        sections: vec![
            Section::Verbatim {
                text: "# Changelog\n\nmy very own header\n\n".into(),
                generated: false,
            },
            Section::Release {
                heading_level: 2,
                removed_messages: vec![],
                date: None,
                name: Version::Unreleased,
                version_prefix: "".into(),
                segments: Vec::new(),
                unknown: "hello\nworld\n".into(),
            },
            Section::Release {
                heading_level: 4,
                version_prefix: "".into(),
                removed_messages: vec![],
                date: Some(epoch()),
                name: Version::Semantic(SemVer {
                    major: 1,
                    minor: 0,
                    patch: 2,
                    pre: "beta.2".into(),
                    build: String::new(),
                }),
                segments: vec![
                    Segment::User {
                        markdown: "* hello world\n\tthis\n\n".into(),
                    },
                    Segment::Clippy(Data::Generated(ThanksClippy { count: 42 })),
                    Segment::Statistics(Data::Generated(CommitStatistics {
                        count: 100,
                        duration: Some(32),
                        conventional_count: 20,
                        time_passed_since_last_release: Some(60),
                        unique_issues: vec![
                            Category::Issue("1".into()),
                            Category::Uncategorized,
                            Category::Issue("42".into()),
                        ],
                    })),
                    Segment::Details(Data::Generated(Details {
                        commits_by_category: vec![
                            CategoryMessages {
                                category: Category::Uncategorized,
                                messages: vec![
                                    DetailsMessage {
                                        title: "Just the title".into(),
                                        id: hex_to_id("e69de29bb2d1d6434b8b29ae775ad8c2e48c5391"),
                                    },
                                    DetailsMessage {
                                        title: "Title and body".into(),
                                        id: hex_to_id("e69de29bb2d1d6434b8b29ae775ad8c2e48c5392"),
                                    },
                                ],
                            },
                            CategoryMessages {
                                category: Category::Issue("42".into()),
                                messages: vec![
                                    DetailsMessage {
                                        title: "Just the title".into(),
                                        id: hex_to_id("e69de29bb2d1d6434b8b29ae775ad8c2e48c5392"),
                                    },
                                    DetailsMessage {
                                        title: "Another title".into(),
                                        id: hex_to_id("e69de29bb2d1d6434b8b29ae775ad8c2e48c5391"),
                                    },
                                ],
                            },
                        ],
                    })),
                ],
                unknown: String::new(),
            },
        ],
    };

    let link_modes = [
        Linkables::AsText,
        Linkables::AsLinks {
            repository_url: "https://github.com/user/repo".into(),
        },
    ];
    for link_mode in &link_modes {
        // NOTE: this cannot run a second time on its own output, as the
        // statistical information is gone after one cycle (it is never
        // parsed back).
        let mut md = String::new();
        log.write_to(&mut md, link_mode, Components::all(), false).unwrap();

        let parsed_log = ChangeLog::from_markdown(&md);
        assert_eq!(parsed_log, log, "we must be able to parse the exact input back");
    }

    for components in &[Components::empty(), Components::all(), Components::detail_tags()] {
        for section in &log.sections {
            let mut buf = String::new();
            section
                .write_to(&mut buf, &Linkables::AsText, *components, false)
                .unwrap();
        }
    }
}
