use smart_release::changelog::section::Section;
use smart_release::changelog::segment::{self, Segment};
use smart_release::changelog::write::{Components, Linkables};
use smart_release::changelog::Version;
use smart_release::version::{Date, SemVer};
use smart_release::ChangeLog;

fn semver(major: u64, minor: u64, patch: u64) -> SemVer {
    SemVer {
        major,
        minor,
        patch,
        pre: String::new(),
        build: String::new(),
    }
}

#[test]
fn all_unknown_in_section() {
    let fixture = "#### v1.0.0\n\nSome free text in a paragraph\nthat won't parse.\n### Unreleased\n\n- hello ~~this is not understood~~\n* this isn't either\n\n";
    let log = ChangeLog::from_markdown(fixture);
    assert_eq!(
        log.sections,
        vec![
            Section::Release {
                name: Version::Unreleased,
                removed_messages: vec![],
                date: None,
                heading_level: 3,
                version_prefix: "".into(),
                segments: vec![Segment::User {
                    markdown: "- hello ~~this is not understood~~\n* this isn't either\n\n".into()
                }],
                unknown: String::new(),
            },
            Section::Release {
                name: Version::Semantic(semver(1, 0, 0)),
                removed_messages: vec![],
                date: None,
                heading_level: 4,
                version_prefix: Section::DEFAULT_PREFIX.into(),
                segments: vec![Segment::User {
                    markdown: "Some free text in a paragraph\nthat won't parse.\n".into()
                }],
                unknown: String::new(),
            }
        ]
    )
}

#[test]
fn unknown_link_and_headline() {
    let fixture = "#### Unreleased\n\n##### Special\n\nHello [there][194] period.\n";
    let log = ChangeLog::from_markdown(fixture);
    assert_eq!(
        log.sections,
        vec![Section::Release {
            name: Version::Unreleased,
            removed_messages: vec![],
            date: None,
            heading_level: 4,
            version_prefix: "".into(),
            segments: vec![Segment::User {
                markdown: "##### Special\n\nHello [there][194] period.\n".into()
            }],
            unknown: String::new(),
        }]
    )
}

#[test]
fn known_and_unknown_sections_are_sorted() {
    let fixture = "Hello, this is a changelog.\n\n### v1.0.0\n\n- initial release\n\n### Something in between\n\nintermezzo\n### Unreleased\n\nTBD\n";
    let log = ChangeLog::from_markdown(fixture);
    assert_eq!(
        log.sections,
        vec![
            Section::Verbatim {
                text: "Hello, this is a changelog.\n\n".into(),
                generated: false
            },
            Section::Release {
                name: Version::Unreleased,
                removed_messages: vec![],
                date: None,
                heading_level: 3,
                version_prefix: "".into(),
                unknown: "".into(),
                segments: vec![Segment::User {
                    markdown: "TBD\n".into()
                }]
            },
            Section::Release {
                name: Version::Semantic(semver(1, 0, 0)),
                removed_messages: vec![],
                date: None,
                heading_level: 3,
                version_prefix: Section::DEFAULT_PREFIX.into(),
                unknown: "".into(),
                segments: vec![
                    Segment::User {
                        markdown: "- initial release\n\n".into()
                    },
                    Segment::User {
                        markdown: "### Something in between\n\nintermezzo\n".into()
                    },
                ]
            },
        ],
    )
}

#[test]
fn releases_are_sorted_by_date() {
    let fixture = "## v0.74.1 (2021-08-17)\n\n- patch things up\n\n## v0.77.0 (2021-09-08)\n\n- newest things\n\n## v0.74.0 (2021-08-13)\n\n- older things\n\n## v0.76.0 (2021-08-27)\n\n- newer things\n\n## v0.75.0 (2021-08-24)\n\n- new things\n";
    let log = ChangeLog::from_markdown(fixture);

    let release_versions: Vec<_> = log
        .sections
        .iter()
        .filter_map(|s| match s {
            Section::Release {
                name: Version::Semantic(v),
                date,
                ..
            } => Some((v.clone(), date.clone())),
            _ => None,
        })
        .collect();

    assert_eq!(release_versions.len(), 5);
    assert_eq!(release_versions[0].0, semver(0, 77, 0));
    assert_eq!(release_versions[1].0, semver(0, 76, 0));
    assert_eq!(release_versions[2].0, semver(0, 75, 0));
    assert_eq!(release_versions[3].0, semver(0, 74, 1));
    assert_eq!(release_versions[4].0, semver(0, 74, 0));
}

#[test]
fn nested_list_items_with_csr_id_round_trips_stably() {
    let input = "## v0.1.2 (2021-08-06)\n\n### Added\n\n - <csr-id-0000000000000000000000000000000000000002/> Added the following methods to `GitConfig`:\n   - `is_empty`\n   - `len`\n   - `from_env`\n   - `open`\n";

    let log = ChangeLog::from_markdown(input);

    assert_eq!(log.sections.len(), 1);
    match &log.sections[0] {
        Section::Release {
            segments, unknown, ..
        } => {
            assert!(unknown.is_empty(), "unknown should be empty, got: {unknown:?}");
            assert_eq!(segments.len(), 1);
            match &segments[0] {
                Segment::Conventional(segment::Conventional { messages, .. }) => {
                    assert_eq!(messages.len(), 1);
                    match &messages[0] {
                        segment::Message::Generated { title, body, .. } => {
                            assert_eq!(title, "Added the following methods to `GitConfig`:");
                            let body = body.as_ref().expect("body should be present");
                            assert!(body.contains("`is_empty`"), "body should contain is_empty");
                            assert!(body.contains("`len`"), "body should contain len");
                            assert!(body.contains("`from_env`"), "body should contain from_env");
                            assert!(body.contains("`open`"), "body should contain open");
                        }
                        _ => panic!("Expected Generated message"),
                    }
                }
                _ => panic!("Expected Conventional segment"),
            }
        }
        _ => panic!("Expected Release section"),
    }

    let mut output1 = String::new();
    log.write_to(&mut output1, &Linkables::AsText, Components::all(), false)
        .unwrap();

    let log2 = ChangeLog::from_markdown(&output1);
    let mut output2 = String::new();
    log2.write_to(&mut output2, &Linkables::AsText, Components::all(), false)
        .unwrap();

    for round in 3..=5 {
        let log_n = ChangeLog::from_markdown(&output2);
        let mut output_n = String::new();
        log_n
            .write_to(&mut output_n, &Linkables::AsText, Components::all(), false)
            .unwrap();
        assert_eq!(
            output2, output_n,
            "Round {round} output differs from previous - nested lists not stable"
        );
    }
}

#[test]
fn user_message_with_nested_list_round_trips_stably() {
    let input = "## v0.1.2 (2021-08-06)\n\n### Added\n\n - Added the following methods to `GitConfig`:\n   - `is_empty`\n   - `len`\n   - `from_env`\n   - `open`\n";

    let log = ChangeLog::from_markdown(input);

    assert_eq!(log.sections.len(), 1);
    match &log.sections[0] {
        Section::Release {
            segments, unknown, ..
        } => {
            assert!(unknown.is_empty(), "unknown should be empty");
            assert_eq!(segments.len(), 1);
            match &segments[0] {
                Segment::Conventional(segment::Conventional { messages, .. }) => {
                    assert_eq!(messages.len(), 1);
                    match &messages[0] {
                        segment::Message::User { markdown } => {
                            assert!(
                                markdown.contains("`is_empty`"),
                                "markdown should contain is_empty"
                            );
                            assert!(markdown.contains("`len`"), "markdown should contain len");
                        }
                        _ => panic!("Expected User message"),
                    }
                }
                _ => panic!("Expected Conventional segment"),
            }
        }
        _ => panic!("Expected Release section"),
    }

    let mut output1 = String::new();
    log.write_to(&mut output1, &Linkables::AsText, Components::all(), false)
        .unwrap();

    let log2 = ChangeLog::from_markdown(&output1);
    let mut output2 = String::new();
    log2.write_to(&mut output2, &Linkables::AsText, Components::all(), false)
        .unwrap();

    assert_eq!(output1, output2, "User message with nested list should round-trip stably");
}

#[test]
fn headline_parses_depth_version_and_date() {
    let log = ChangeLog::from_markdown("## v0.1.2 (2021-08-06)\n");
    assert_eq!(log.sections.len(), 1);
    match &log.sections[0] {
        Section::Release {
            name,
            date,
            heading_level,
            version_prefix,
            ..
        } => {
            assert_eq!(*heading_level, 2);
            assert_eq!(version_prefix, "v");
            assert_eq!(
                *name,
                Version::Semantic(SemVer {
                    major: 0,
                    minor: 1,
                    patch: 2,
                    pre: String::new(),
                    build: String::new(),
                })
            );
            assert_eq!(
                *date,
                Some(Date::new(2021, 8, 6).expect("a valid calendar date"))
            );
        }
        _ => panic!("Expected Release section"),
    }
}

#[test]
fn releases_sort_unreleased_first_then_by_date_descending() {
    let fixture = "## v0.1.0 (2021-07-01)\n\n- older\n\n## Unreleased\n\n- pending\n\n## v0.2.0 (2021-08-06)\n\n- newer\n";
    let log = ChangeLog::from_markdown(fixture);
    let order: Vec<_> = log
        .sections
        .iter()
        .filter_map(|s| match s {
            Section::Release { name, .. } => Some(name.clone()),
            _ => None,
        })
        .collect();
    assert_eq!(
        order,
        vec![
            Version::Unreleased,
            Version::Semantic(semver(0, 2, 0)),
            Version::Semantic(semver(0, 1, 0)),
        ]
    );
}

#[test]
fn duplicate_removed_ids_collapse_to_one_in_first_seen_order() {
    let fixture = "## Unreleased\n\n<csr-removed-000000000000000000000000000000000000000b/>\n<csr-removed-000000000000000000000000000000000000000a/>\n<csr-removed-000000000000000000000000000000000000000b/>\n";
    let log = ChangeLog::from_markdown(fixture);
    assert_eq!(log.sections.len(), 1);
    match &log.sections[0] {
        Section::Release {
            removed_messages, ..
        } => {
            let b = smart_release::id::ObjectId::from_hex(
                "000000000000000000000000000000000000000b",
            )
            .unwrap();
            let a = smart_release::id::ObjectId::from_hex(
                "000000000000000000000000000000000000000a",
            )
            .unwrap();
            assert_eq!(*removed_messages, vec![b, a]);
        }
        _ => panic!("Expected Release section"),
    }
}

#[test]
fn commit_type_heading_without_markers_keeps_user_message() {
    let fixture = "## Unreleased\n\n### Added\n\n - a bullet the user wrote themselves\n";
    let log = ChangeLog::from_markdown(fixture);
    assert_eq!(log.sections.len(), 1);
    match &log.sections[0] {
        Section::Release { segments, .. } => {
            assert_eq!(segments.len(), 1);
            match &segments[0] {
                Segment::Conventional(segment::Conventional { kind, messages, .. }) => {
                    assert_eq!(*kind, "add");
                    assert_eq!(messages.len(), 1);
                    match &messages[0] {
                        segment::Message::User { markdown } => {
                            assert_eq!(markdown, " - a bullet the user wrote themselves");
                        }
                        _ => panic!("Expected User message"),
                    }
                }
                _ => panic!("Expected Conventional segment"),
            }
        }
        _ => panic!("Expected Release section"),
    }
}

#[test]
fn unrecognized_heading_is_preserved_byte_for_byte() {
    let body = "### My own notes\n\nwith *styling* the engine ignores\n\n   even indented lines\n";
    let fixture = format!("## Unreleased\n\n{body}");
    let log = ChangeLog::from_markdown(&fixture);
    match &log.sections[0] {
        Section::Release { segments, .. } => {
            assert_eq!(segments.len(), 1);
            match &segments[0] {
                Segment::User { markdown } => assert_eq!(markdown, body),
                _ => panic!("Expected User segment"),
            }
        }
        _ => panic!("Expected Release section"),
    }
}

#[test]
fn releases_with_equal_dates_keep_their_document_order() {
    let fixture = "## v0.2.0 (2021-08-06)\n\n- b\n\n## v0.1.0 (2021-08-06)\n\n- a\n";
    let log = ChangeLog::from_markdown(fixture);
    let order: Vec<_> = log
        .sections
        .iter()
        .filter_map(|s| match s {
            Section::Release {
                name: Version::Semantic(v),
                ..
            } => Some((v.major, v.minor, v.patch)),
            _ => None,
        })
        .collect();
    assert_eq!(order, vec![(0, 2, 0), (0, 1, 0)]);

    let reversed = "## v0.1.0 (2021-08-06)\n\n- a\n\n## v0.2.0 (2021-08-06)\n\n- b\n";
    let log = ChangeLog::from_markdown(reversed);
    let order: Vec<_> = log
        .sections
        .iter()
        .filter_map(|s| match s {
            Section::Release {
                name: Version::Semantic(v),
                ..
            } => Some((v.major, v.minor, v.patch)),
            _ => None,
        })
        .collect();
    assert_eq!(order, vec![(0, 1, 0), (0, 2, 0)]);
}

#[test]
fn unknown_blocks_are_carried_forward_and_round_trip() {
    let fixture = "## Unreleased\n\n<csr-unknown>\nkeep this\nexactly\n</csr-unknown>\n\n- and a plain bullet\n";
    let log = ChangeLog::from_markdown(fixture);
    assert_eq!(log.sections.len(), 1);
    match &log.sections[0] {
        Section::Release {
            segments, unknown, ..
        } => {
            assert_eq!(unknown, "keep this\nexactly\n");
            assert_eq!(segments.len(), 1);
            match &segments[0] {
                Segment::User { markdown } => assert_eq!(markdown, "- and a plain bullet\n"),
                _ => panic!("Expected User segment"),
            }
        }
        _ => panic!("Expected Release section"),
    }

    let mut out1 = String::new();
    log.write_to(&mut out1, &Linkables::AsText, Components::all(), false)
        .unwrap();
    let log2 = ChangeLog::from_markdown(&out1);
    assert_eq!(log2, log, "unknown content must survive a cycle");
    let mut out2 = String::new();
    log2.write_to(&mut out2, &Linkables::AsText, Components::all(), false)
        .unwrap();
    assert_eq!(out1, out2, "the second cycle must be byte-identical");
}

#[test]
fn strict_write_refuses_unknown_closing_marker_in_unknown_text() {
    let log = ChangeLog {
        sections: vec![Section::Release {
            name: Version::Unreleased,
            removed_messages: vec![],
            date: None,
            heading_level: 2,
            version_prefix: "".into(),
            segments: vec![],
            unknown: "oops </csr-unknown> inside\n".into(),
        }],
    };
    let mut out = String::new();
    assert!(log
        .write_to(&mut out, &Linkables::AsText, Components::all(), true)
        .is_err());
    assert!(out.is_empty(), "a refused write must leave the output untouched");
    assert!(log
        .write_to(&mut out, &Linkables::AsText, Components::all(), false)
        .is_ok());
}

#[test]
fn normalized_parsing_forces_every_release_to_the_first_headline_depth() {
    let fixture = "#### v1.0.0\n\nSome free text in a paragraph\nthat won't parse.\n### Unreleased\n\n- hello ~~this is not understood~~\n* this isn't either\n\n";
    let log = ChangeLog::from_markdown_normalized(fixture);
    let levels: Vec<usize> = log
        .sections
        .iter()
        .filter_map(|s| match s {
            Section::Release { heading_level, .. } => Some(*heading_level),
            _ => None,
        })
        .collect();
    assert_eq!(levels, vec![4, 4], "every release takes the first headline's depth");

    let plain = ChangeLog::from_markdown(fixture);
    let levels: Vec<usize> = plain
        .sections
        .iter()
        .filter_map(|s| match s {
            Section::Release { heading_level, .. } => Some(*heading_level),
            _ => None,
        })
        .collect();
    assert_eq!(levels, vec![3, 4], "the plain parse keeps each headline's own depth");
}
