use service_containers::paths::{expand_tilde, join_path};
use service_containers::text::{chars_of, is_whitespace, str_lt, trim};

#[test]
fn trim_strips_both_ends() {
    assert_eq!(trim("  web server \t\n"), "web server");
    assert_eq!(trim("name"), "name");
    assert_eq!(trim("   "), "");
    assert_eq!(trim(""), "");
    assert_eq!(trim("\u{3000}x\u{a0}"), "x");
}

#[test]
fn trim_is_idempotent() {
    let once = trim(" \u{2003} a b \u{85}");
    assert_eq!(trim(&once), once);
    assert_eq!(once, "a b");
}

#[test]
fn whitespace_matches_std() {
    for c in ['\t', '\n', ' ', '\u{85}', '\u{a0}', '\u{1680}', '\u{2000}', '\u{200a}', '\u{2028}', '\u{2029}', '\u{202f}', '\u{205f}', '\u{3000}', 'a', '_', '\u{200b}', '\u{feff}', 'é'] {
        assert_eq!(is_whitespace(c), c.is_whitespace(), "{:?}", c);
    }
}

#[test]
fn chars_of_copies_characters() {
    assert_eq!(chars_of("aé~"), vec!['a', 'é', '~']);
}

#[test]
fn str_lt_matches_str_ordering() {
    let words = ["", "a", "ab", "b", "B", "é", "z", "Work", "work", "Personal"];
    for a in words {
        for b in words {
            assert_eq!(str_lt(a, b), a < b, "{:?} {:?}", a, b);
        }
    }
}

#[test]
fn join_path_matches_std() {
    let cases = [("a", "b"), ("a/", "b"), ("", "b"), ("a", "/b"), ("a", ""), ("/home/u", ".config/zed/Containers"), ("/", "x")];
    for (base, part) in cases {
        let expected = std::path::Path::new(base).join(part);
        assert_eq!(join_path(base, part), expected.to_str().unwrap(), "{:?} {:?}", base, part);
    }
    assert_eq!(join_path("a", "b"), "a/b");
    assert_eq!(join_path("a", "/etc"), "/etc");
}

#[test]
fn expand_tilde_uses_home() {
    assert_eq!(expand_tilde("~/data", "/home/u"), "/home/u/data");
    assert_eq!(expand_tilde("~/", "/home/u"), "/home/u/");
    assert_eq!(expand_tilde("~", "/home/u"), "/home/u");
    assert_eq!(expand_tilde("~/é/x", "/home/u"), "/home/u/é/x");
}

#[test]
fn expand_tilde_leaves_other_paths() {
    assert_eq!(expand_tilde("/var/data", "/home/u"), "/var/data");
    assert_eq!(expand_tilde("rel/~x", "/home/u"), "rel/~x");
    assert_eq!(expand_tilde("~other/x", "/home/u"), "~other/x");
    assert_eq!(expand_tilde("~é", "/home/u"), "~é");
    assert_eq!(expand_tilde("", "/home/u"), "");
}
