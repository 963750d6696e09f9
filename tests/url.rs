use dldir::{filename, is_space, sanitized_url, trim};

#[test]
fn sanitize_strips_manifest_name() {
    assert_eq!(
        sanitized_url("https://example.com/files/dldir.txt"),
        "https://example.com/files"
    );
}

#[test]
fn sanitize_strips_trailing_slash() {
    assert_eq!(
        sanitized_url("https://example.com/files/"),
        "https://example.com/files"
    );
}

#[test]
fn sanitize_trims_white_space_first() {
    assert_eq!(
        sanitized_url("  https://example.com/files/dldir.txt \n"),
        "https://example.com/files"
    );
    assert_eq!(sanitized_url("\u{3000}http://h//\u{a0}"), "http://h");
}

#[test]
fn sanitize_strips_one_suffix_and_every_slash() {
    assert_eq!(
        sanitized_url("https://example.com/files/dldir.txt/dldir.txt"),
        "https://example.com/files/dldir.txt"
    );
    assert_eq!(sanitized_url("http://h/x/dldir.txt/dldir.txt"), "http://h/x/dldir.txt");
    assert_eq!(sanitized_url("http://h/x/dldir.txt//"), "http://h/x/dldir.txt");
    assert_eq!(sanitized_url("http://h/x/dldir.txt/"), "http://h/x/dldir.txt");
    assert_eq!(sanitized_url("http://h/x///"), "http://h/x");
    assert_eq!(sanitized_url("/dldir.txt"), "");
    assert_eq!(sanitized_url(""), "");
}

#[test]
fn sanitize_keeps_plain_urls() {
    assert_eq!(sanitized_url("http://h/x"), "http://h/x");
    assert_eq!(sanitized_url("http://h/xdldir.txt"), "http://h/xdldir.txt");
}

#[test]
fn filename_takes_the_last_name() {
    assert_eq!(filename("sub/b.txt"), "b.txt");
    assert_eq!(filename("b.txt"), "b.txt");
    assert_eq!(filename("a/b/"), "b");
    assert_eq!(filename("a/b/."), "b");
    assert_eq!(filename("a/./"), "a");
    assert_eq!(filename(".hidden"), ".hidden");
    assert_eq!(filename("a/.."), "");
    assert_eq!(filename(".."), "");
    assert_eq!(filename("."), "");
    assert_eq!(filename("/"), "");
    assert_eq!(filename(""), "");
}

#[test]
fn is_space_matches_std() {
    for c in ['\t', '\n', '\u{b}', '\u{c}', '\r', ' ', '\u{85}', '\u{a0}', '\u{1680}', '\u{2000}', '\u{200a}', '\u{2028}', '\u{2029}', '\u{202f}', '\u{205f}', '\u{3000}'] {
        assert!(is_space(c));
        assert!(c.is_whitespace());
    }
    for c in ['a', '\u{200b}', '\u{180e}', '\u{feff}', '\0', '\u{8}', '\u{e}'] {
        assert!(!is_space(c));
        assert!(!c.is_whitespace());
    }
    for n in 0u32..0x3100 {
        if let Some(c) = char::from_u32(n) {
            assert_eq!(is_space(c), c.is_whitespace());
        }
    }
}

#[test]
fn trim_matches_std() {
    assert_eq!(trim("  a b \t\r\n"), "a b");
    assert_eq!(trim("\u{3000}x\u{a0}"), "x");
    assert_eq!(trim("   "), "");
    assert_eq!(trim(""), "");
    for s in [" \u{85}q\u{2028}", "\u{200b}z\u{200b}", "a"] {
        assert_eq!(trim(s), s.trim());
    }
}
