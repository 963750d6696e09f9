use dldir::manifest::manifest_lines;
use dldir::{
    file_url, generate_manifest, line_action, manifest_url, split_lines, Action, Exclusion,
    UnknownKind, WalkEntry,
};

fn entry(path: &str, is_dir: bool) -> WalkEntry {
    WalkEntry {
        names: path.split('/').map(|s| s.to_string()).collect(),
        is_dir,
    }
}

fn actions(text: &str, ex: &Option<Exclusion>) -> Vec<Result<Action, UnknownKind>> {
    split_lines(text).iter().map(|l| line_action(l, ex)).collect()
}

#[test]
fn directory_line_comes_before_file_line() {
    let got = actions("dsub\nfsub/b.txt\n", &None);
    assert_eq!(
        got,
        vec![
            Ok(Action::MakeDir("sub".to_string())),
            Ok(Action::Fetch("sub/b.txt".to_string())),
        ]
    );
}

#[test]
fn split_lines_cases() {
    assert_eq!(split_lines(""), Vec::<String>::new());
    assert_eq!(split_lines("a"), vec!["a"]);
    assert_eq!(split_lines("a\n"), vec!["a"]);
    assert_eq!(split_lines("\n"), vec![""]);
    assert_eq!(split_lines("a\n\nb"), vec!["a", "", "b"]);
    assert_eq!(split_lines("a\r\nb\r\n"), vec!["a\r", "b\r"]);
}

#[test]
fn line_action_trims_and_tags() {
    assert_eq!(
        line_action("  dsub \r", &None),
        Ok(Action::MakeDir("sub".to_string()))
    );
    assert_eq!(
        line_action("\tfa b.txt  ", &None),
        Ok(Action::Fetch("a b.txt".to_string()))
    );
    assert_eq!(line_action("   ", &None), Ok(Action::Skip));
    assert_eq!(line_action("", &None), Ok(Action::Skip));
}

#[test]
fn unknown_tag_is_an_error() {
    assert_eq!(
        line_action(" xfoo ", &None),
        Err(UnknownKind {
            line: "xfoo".to_string()
        })
    );
}

#[test]
fn excluded_lines_are_skipped() {
    let ex = Some(Exclusion::new("^f.*\\.log$").unwrap());
    assert_eq!(line_action("fa.log", &ex), Ok(Action::Skip));
    assert_eq!(line_action("da.log", &ex), Ok(Action::MakeDir("a.log".to_string())));
    // The pattern sees the tag too, and the line is trimmed first.
    let tag = Some(Exclusion::new("^d").unwrap());
    assert_eq!(line_action("  dsub", &tag), Ok(Action::Skip));
    // An excluded line is skipped even when its tag is unknown.
    let any = Some(Exclusion::new("q").unwrap());
    assert_eq!(line_action("qq", &any), Ok(Action::Skip));
}

#[test]
fn generated_manifest_reads_back() {
    let entries = vec![
        entry("a.txt", false),
        entry("dldir.txt", false),
        entry("sub", true),
        entry("sub/b.txt", false),
    ];
    let text = generate_manifest(&entries, &None);
    assert_eq!(
        actions(&text, &None),
        vec![
            Ok(Action::Fetch("a.txt".to_string())),
            Ok(Action::MakeDir("sub".to_string())),
            Ok(Action::Fetch("sub/b.txt".to_string())),
        ]
    );
    assert_eq!(manifest_lines(&entries, &None).len(), 3);
}

#[test]
fn urls_are_joined_with_a_slash() {
    assert_eq!(
        manifest_url("https://example.com/files"),
        "https://example.com/files/dldir.txt"
    );
    assert_eq!(
        file_url("https://example.com/files", "sub/b.txt"),
        "https://example.com/files/sub/b.txt"
    );
}
