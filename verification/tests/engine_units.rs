use smart_release::changelog::section::Section;
use smart_release::changelog::Version;
use smart_release::id::ObjectId;
use smart_release::release::{add_args, commit_args, push_args, tag_args, tag_ref_name, version_tag_name, will};
use smart_release::version::Date;
use smart_release::ChangeLog;

#[test]
fn object_ids_survive_a_hex_round_trip() {
    let hex = "e69de29bb2d1d6434b8b29ae775ad8c2e48c5391";
    let id = ObjectId::from_hex(hex).unwrap();
    let mut out = String::new();
    id.append_hex(&mut out);
    assert_eq!(out, hex);
    assert_eq!(ObjectId::from_hex(&out).unwrap(), id);
}

#[test]
fn object_id_rejects_bad_input() {
    assert!(ObjectId::from_hex("abc").is_none());
    assert!(ObjectId::from_hex("z69de29bb2d1d6434b8b29ae775ad8c2e48c5391").is_none());
}

#[test]
fn calendar_dates_are_checked() {
    assert!(Date::new(2021, 2, 29).is_none());
    assert!(Date::new(2020, 2, 29).is_some());
    assert!(Date::new(2021, 13, 1).is_none());
    assert!(Date::new(2021, 4, 31).is_none());
    assert!(Date::new(2021, 12, 31).is_some());
}

#[test]
fn semver_with_prerelease_and_build_parses_in_headlines() {
    let log = ChangeLog::from_markdown("## v1.2.3-rc.1+build5 (2021-08-06)\n");
    match &log.sections[0] {
        Section::Release {
            name: Version::Semantic(v),
            ..
        } => {
            assert_eq!(v.major, 1);
            assert_eq!(v.minor, 2);
            assert_eq!(v.patch, 3);
            assert_eq!(v.pre, "rc.1");
            assert_eq!(v.build, "build5");
        }
        _ => panic!("Expected a semantic release"),
    }
}

#[test]
fn undated_releases_sort_by_version_descending() {
    let fixture = "## v1.0.0-alpha\n\n- a\n\n## v1.0.0\n\n- b\n\n## v0.9.0\n\n- c\n";
    let log = ChangeLog::from_markdown(fixture);
    let versions: Vec<String> = log
        .sections
        .iter()
        .filter_map(|s| match s {
            Section::Release {
                name: Version::Semantic(v),
                ..
            } => Some(format!("{}.{}.{}-{}", v.major, v.minor, v.patch, v.pre)),
            _ => None,
        })
        .collect();
    assert_eq!(versions, vec!["1.0.0-", "1.0.0-alpha", "0.9.0-"]);
}

#[test]
fn malformed_headlines_fall_back_to_plain_text() {
    let log = ChangeLog::from_markdown("## v1.0 (2021-99-99)\nnot a headline after all\n");
    assert_eq!(log.sections.len(), 1);
    match &log.sections[0] {
        Section::Verbatim { text, generated } => {
            assert_eq!(text, "## v1.0 (2021-99-99)\nnot a headline after all\n");
            assert!(!generated);
        }
        _ => panic!("Expected a single verbatim section"),
    }
}

#[test]
fn empty_documents_stay_one_verbatim_section() {
    let log = ChangeLog::from_markdown("");
    assert_eq!(log.sections.len(), 1);
    match &log.sections[0] {
        Section::Verbatim { text, .. } => assert_eq!(text, ""),
        _ => panic!("Expected a verbatim section"),
    }
}

#[test]
fn commit_command_arguments_are_exact() {
    let plain = commit_args("commit message", false, false);
    assert_eq!(plain, vec!["commit", "-am", "commit message"]);
    let signed = commit_args("commit message", false, true);
    assert_eq!(signed, vec!["commit", "-am", "commit message", "--signoff"]);
    let empty_ok = commit_args("m", true, true);
    assert_eq!(empty_ok, vec!["commit", "-am", "m", "--allow-empty", "--signoff"]);
    assert_eq!(will(true), "WOULD");
    assert_eq!(will(false), "Will");
}

#[test]
fn push_command_arguments_are_exact() {
    let tags = vec!["refs/tags/v1.0.0".to_string(), "refs/tags/v1.1.0".to_string()];
    let args = push_args("origin", &tags);
    assert_eq!(
        args,
        vec!["push", "origin", "HEAD", "refs/tags/v1.0.0", "refs/tags/v1.1.0"]
    );
    assert_eq!(tag_ref_name("v1.0.0"), "refs/tags/v1.0.0");
}

#[test]
fn tag_and_staging_arguments_are_exact() {
    assert_eq!(version_tag_name("gix-object", "0.65.0"), "gix-object-v0.65.0");
    assert_eq!(tag_args("pkg-v1.0.0", &None), vec!["tag", "pkg-v1.0.0"]);
    assert_eq!(
        tag_args("pkg-v1.0.0", &Some("notes".to_string())),
        vec!["tag", "-a", "pkg-v1.0.0", "-m", "notes"]
    );
    assert_eq!(
        add_args(&vec!["CHANGELOG.md".to_string(), "crates/a/CHANGELOG.md".to_string()]),
        vec!["add", "--", "CHANGELOG.md", "crates/a/CHANGELOG.md"]
    );
}
