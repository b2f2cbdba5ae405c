use smart_release::commit::message::{strip, Addition};
use smart_release::commit::Message;

#[test]
fn no_addition() {
    let (nt, a) = strip("hello there [abc] (abc)".into());
    assert_eq!(nt, "hello there [abc] (abc)");
    assert_eq!(a, vec![]);
}

#[test]
fn strip_multiple_issue_numbers() {
    let (nt, a) = strip("(#other) foo (#123) hello (#42)".into());
    assert_eq!(nt, "foo hello");
    assert_eq!(
        a,
        vec![
            Addition::IssueId("other".into()),
            Addition::IssueId("123".into()),
            Addition::IssueId("42".into())
        ]
    );
}

#[test]
fn no_conventional_no_additions_no_body() {
    assert_eq!(
        Message::from("hi"),
        Message {
            title: "hi".into(),
            body: None,
            kind: None,
            breaking: false,
            breaking_description: None,
            additions: vec![]
        }
    )
}

#[test]
fn no_conventional_uses_summary() {
    assert_eq!(
        Message::from("hi\nho\nfoo\n\nbody"),
        Message {
            title: "hi ho foo".into(),
            body: Some("body".into()),
            kind: None,
            breaking: false,
            breaking_description: None,
            additions: vec![]
        }
    )
}

#[test]
fn no_conventional_additions() {
    assert_eq!(
        Message::from("hi (#14123)\n\nbody\nother\n\nSigned: bar"),
        Message {
            title: "hi".into(),
            body: Some("body\nother".into()),
            kind: None,
            breaking: false,
            breaking_description: None,
            additions: vec![Addition::IssueId("14123".into())]
        }
    )
}

#[test]
fn conventional_with_additions() {
    assert_eq!(
        Message::from("feat!: hi (#123)\n\nthe body\n\nBREAKING-CHANGE: breaks\n\nSigned: foobar"),
        Message {
            title: "hi".into(),
            body: Some("the body".into()),
            kind: Some("feat"),
            breaking: true,
            breaking_description: Some("breaks".into()),
            additions: vec![Addition::IssueId("123".into())]
        }
    )
}

#[test]
fn conventional_with_scope() {
    assert_eq!(
        Message::from("refactor(workspace)!: restructure Cargo.toml for workspace management\n\n- transition from single package to workspace format\n- update dependencies and remove obsolete sections"),
        Message {
            title: "restructure Cargo.toml for workspace management".into(),
            body: Some("- transition from single package to workspace format\n- update dependencies and remove obsolete sections".into()),
            kind: Some("refactor"),
            breaking: true,
            breaking_description: None,
            additions: vec![]
        }
    )
}

#[test]
fn conventional_with_scope_and_emoji() {
    assert_eq!(
        Message::from("\u{1f527} refactor(workspace)!: restructure Cargo.toml for workspace management\n\n- transition from single package to workspace format\n- update dependencies and remove obsolete sections"),
        Message {
            title: "restructure Cargo.toml for workspace management".into(),
            body: Some("- transition from single package to workspace format\n- update dependencies and remove obsolete sections".into()),
            kind: Some("refactor"),
            breaking: true,
            breaking_description: None,
            additions: vec![]
        }
    )
}
