use dldir::manifest::{entry_line, entry_path, is_manifest_name, manifest_lines, manifest_text};
use dldir::{generate_manifest, keep_name, Exclusion, InvalidPattern, WalkEntry};

fn entry(path: &str, is_dir: bool) -> WalkEntry {
    WalkEntry {
        names: path.split('/').map(|s| s.to_string()).collect(),
        is_dir,
    }
}

fn pattern(p: &str) -> Option<Exclusion> {
    Some(Exclusion::new(p).unwrap())
}

#[test]
fn scenario_tree_with_excluded_file() {
    let entries = vec![
        entry("a.txt", false),
        entry("skip.tmp", false),
        entry("sub", true),
        entry("sub/b.txt", false),
    ];
    let text = generate_manifest(&entries, &pattern(r"skip\.tmp"));
    assert_eq!(text, "fa.txt\ndsub\nfsub/b.txt\n");
}

#[test]
fn excluded_directory_takes_its_subtree() {
    let entries = vec![
        entry("keep", true),
        entry("keep/x.txt", false),
        entry("target", true),
        entry("target/debug", true),
        entry("target/debug/out.bin", false),
        entry("z.txt", false),
    ];
    let lines = manifest_lines(&entries, &pattern("^target$"));
    assert_eq!(lines, vec!["dkeep", "fkeep/x.txt", "fz.txt"]);
}

#[test]
fn exclusion_matches_base_names_only() {
    // "keep/x" is a path, never a single name, so nothing is pruned.
    let entries = vec![entry("keep", true), entry("keep/x", false)];
    let lines = manifest_lines(&entries, &pattern("keep/x"));
    assert_eq!(lines, vec!["dkeep", "fkeep/x"]);
}

#[test]
fn root_manifest_is_never_listed() {
    let entries = vec![
        entry("dldir.txt", false),
        entry("sub", true),
        entry("sub/dldir.txt", false),
    ];
    let text = generate_manifest(&entries, &None);
    assert_eq!(text, "dsub\nfsub/dldir.txt\n");
}

#[test]
fn no_entries_give_an_empty_manifest() {
    assert_eq!(generate_manifest(&vec![], &None), "");
}

#[test]
fn entry_lines_and_paths() {
    let e = entry("a/b/c.txt", false);
    assert_eq!(entry_path(&e), "a/b/c.txt");
    assert_eq!(entry_line(&e), "fa/b/c.txt");
    assert_eq!(entry_line(&entry("a/b", true)), "da/b");
}

#[test]
fn manifest_text_ends_every_line() {
    let lines = vec!["dx".to_string(), "fx/y".to_string()];
    assert_eq!(manifest_text(&lines), "dx\nfx/y\n");
}

#[test]
fn manifest_name_is_recognised() {
    assert!(is_manifest_name("dldir.txt"));
    assert!(!is_manifest_name("dldir.txt2"));
    assert!(!is_manifest_name("dldir.tx"));
    assert!(!is_manifest_name(""));
}

#[test]
fn keep_name_follows_the_pattern() {
    let ex = pattern(r"\.tmp$");
    assert!(!keep_name(&ex, "a.tmp"));
    assert!(keep_name(&ex, "a.tmp.txt"));
    assert!(keep_name(&None, "a.tmp"));
}

#[test]
fn invalid_pattern_is_refused() {
    match Exclusion::new("(unclosed") {
        Err(e) => assert_eq!(
            e,
            InvalidPattern {
                pattern: "(unclosed".to_string()
            }
        ),
        Ok(_) => panic!("pattern should not compile"),
    }
    assert!(Exclusion::new("a+").is_ok());
}

#[test]
fn exclusion_matches_unanchored() {
    let ex = Exclusion::new("b.t").unwrap();
    assert!(ex.is_match("xxb.txx"));
    assert!(!ex.is_match("B.T"));
}
