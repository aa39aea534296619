//! Text and path functions, held against the standard library's.

use std::path::Path;

use causeway::paths::{
    ancestor_step, components, file_name, has_parent_dir, is_absolute, join, parent,
    path_starts_with, paths_equal, resolve_below, with_extension, with_file_name, AncestorStep,
    Standing,
};
use causeway::text::{
    contains_str, decimal_text, hex_text, is_ascii_alphanumeric, is_ascii_digit, is_control,
    is_lower_hex, is_whitespace, lines, parse_number, split_once, split_whitespace, starts_with,
    strip_prefix, strip_suffix, to_ascii_lowercase, trim,
};

#[test]
fn character_classes_agree_with_std() {
    for n in 0..=0x10ffffu32 {
        if let Some(c) = char::from_u32(n) {
            assert_eq!(is_whitespace(c), c.is_whitespace(), "{n:x}");
            assert_eq!(is_control(c), c.is_control(), "{n:x}");
            assert_eq!(is_ascii_digit(c), c.is_ascii_digit(), "{n:x}");
            assert_eq!(is_ascii_alphanumeric(c), c.is_ascii_alphanumeric(), "{n:x}");
            assert_eq!(
                is_lower_hex(c),
                c.is_ascii_digit() || ('a'..='f').contains(&c),
                "{n:x}"
            );
        }
    }
}

fn samples() -> Vec<String> {
    let parts = [
        "", " ", "\t", "a", "Ab", "\r\n", "\n", "\r", "é", "\u{2028}", "x y", "=", "0",
    ];
    let mut all = Vec::new();
    for a in parts {
        for b in parts {
            for c in parts {
                all.push(format!("{a}{b}{c}"));
            }
        }
    }
    all
}

#[test]
fn text_functions_agree_with_std() {
    for s in samples() {
        assert_eq!(trim(&s), s.trim());
        assert_eq!(lines(&s), s.lines().collect::<Vec<_>>());
        assert_eq!(
            split_whitespace(&s),
            s.split_whitespace().collect::<Vec<_>>()
        );
        assert_eq!(to_ascii_lowercase(&s), s.to_ascii_lowercase());
        assert_eq!(
            split_once(&s, '='),
            s.split_once('=')
                .map(|(a, b)| (a.to_string(), b.to_string()))
        );
        for p in ["", "a", "Ab", "\n", "éa"] {
            assert_eq!(starts_with(&s, p), s.starts_with(p));
            assert_eq!(contains_str(&s, p), s.contains(p), "{s:?} {p:?}");
            assert_eq!(strip_prefix(&s, p).as_deref(), s.strip_prefix(p));
            assert_eq!(strip_suffix(&s, p).as_deref(), s.strip_suffix(p));
        }
    }
}

#[test]
fn numbers_are_read_and_written_like_std() {
    for s in [
        "", "0", "7", "007", "+7", "-7", "65535", "65536", "18446744073709551615",
        "18446744073709551616", "1x", " 1", "+", "99999999999999999999999",
    ] {
        assert_eq!(
            parse_number(s, 10, u16::MAX as u64),
            s.parse::<u16>().ok().map(u64::from),
            "{s:?}"
        );
        assert_eq!(
            parse_number(s, 10, u64::MAX),
            s.parse::<u64>().ok(),
            "{s:?}"
        );
    }
    for s in ["", "0", "ff", "FF", "0A", "g", "ffffffffffffffff", "1ffffffffffffffff"] {
        assert_eq!(
            parse_number(s, 16, u64::MAX),
            u64::from_str_radix(s, 16).ok(),
            "{s:?}"
        );
    }
    for n in [0, 1, 9, 10, 255, 65_535, u64::MAX] {
        assert_eq!(decimal_text(n), n.to_string());
        assert_eq!(hex_text(n, 16, false), format!("{n:016x}"));
        assert_eq!(hex_text(n, 16, true), format!("{n:016X}"));
    }
}

fn path_samples() -> Vec<String> {
    let parts = ["", "/", "a", "..", ".", "b.c", ".h", "/a/", "x.", "//"];
    let mut all = Vec::new();
    for a in parts {
        for b in parts {
            for c in parts {
                all.push(format!("{a}{b}{c}"));
                all.push(format!("{a}/{b}/{c}"));
            }
        }
    }
    all
}

#[test]
fn path_functions_agree_with_std() {
    let text = |p: &Path| p.to_str().unwrap().to_string();
    for s in path_samples() {
        let p = Path::new(&s);
        assert_eq!(is_absolute(&s), p.is_absolute(), "{s:?}");
        assert_eq!(
            file_name(&s),
            p.file_name().map(|n| n.to_str().unwrap().to_string()),
            "{s:?}"
        );
        assert_eq!(parent(&s), p.parent().map(text), "{s:?}");
        for e in ["yaml", "json.tmp"] {
            let mut q = p.to_path_buf();
            q.set_extension(e);
            if p.file_name().is_some() {
                assert_eq!(with_extension(&s, e), text(&q), "{s:?}");
            } else {
                assert_eq!(with_extension(&s, e), s);
            }
        }
        if file_name(&s).is_some() {
            assert_eq!(
                with_file_name(&s, "n.y"),
                text(&p.with_file_name("n.y")),
                "{s:?}"
            );
        }
        assert_eq!(
            has_parent_dir(&s),
            p.components().any(|c| c.as_os_str() == ".."),
            "{s:?}"
        );
        assert_eq!(components(&s).len(), p.components().count(), "{s:?}");
        for t in ["", "/", "a", "a/b.c", "/a", ".", "./a", "/a/b.c/", "a/."] {
            let q = Path::new(t);
            assert_eq!(join(&s, t), text(&p.join(q)), "{s:?} {t:?}");
            assert_eq!(path_starts_with(&s, t), p.starts_with(q), "{s:?} {t:?}");
            assert_eq!(paths_equal(&s, t), p == q, "{s:?} {t:?}");
        }
    }
}

#[test]
fn missing_suffixes_are_followed_lexically() {
    let go = |path: &str| resolve_below("/real", path, "/home/u");
    assert_eq!(go("/home/u/a/b"), Some("/real/a/b".to_string()));
    assert_eq!(go("/home/u/a/../b"), Some("/real/b".to_string()));
    assert_eq!(go("/home/u/../../../x"), Some("/x".to_string()));
    assert_eq!(go("/home/u"), Some("/real".to_string()));
    assert_eq!(go("/home/v"), None);
    assert_eq!(resolve_below("/real", "/a", ""), None);
}

#[test]
fn the_nearest_existing_ancestor_is_searched_upwards() {
    let mut at = "/a/b/c".to_string();
    let mut seen = vec![at.clone()];
    while let AncestorStep::Up(up) = ancestor_step(&at, Standing::Missing) {
        at = up;
        seen.push(at.clone());
    }
    let wanted: Vec<_> = Path::new("/a/b/c")
        .ancestors()
        .map(|p| p.to_str().unwrap().to_string())
        .collect();
    assert_eq!(seen, wanted);
    assert_eq!(ancestor_step("/", Standing::Missing), AncestorStep::Fail);
    assert_eq!(ancestor_step("/a", Standing::There), AncestorStep::Stop);
    assert_eq!(ancestor_step("/a", Standing::Unreadable), AncestorStep::Fail);
}
