use std::path::Path;

use cashttpd::digits::{
    decimal_of, digit_char, hex_of, parse_number, parse_u16, parse_u64, two_digits_of,
};
use cashttpd::net::{parse_ipv4, parse_ipv6};
use cashttpd::servers::compress::is_positive;
use cashttpd::paths::{
    absolute, components_of, extension_of, file_name_of, is_in_top_dir, is_same_path, is_within, join_path, parent_of, relative_to,
};
use cashttpd::servers::cascade::cascade_dirs;
use cashttpd::sorting::order_of;
use cashttpd::table::Table;
use cashttpd::text::{
    after_char, before_char, chars_of, comes_before, contains_char, contains_str, eq_ignore_case,
    has_prefix, has_suffix, joined, lowered, replaced, replaced_all, rsplit_once_at, same_option,
    split_at_char, split_lines, split_once_at, split_words, string_of, trim_end_of, trim_start_of,
    trimmed, uppered, without_prefix, without_suffix, Class,
};

const TEXTS: [&str; 18] = [
    "",
    " ",
    "a",
    "a:b:c",
    ":",
    "::",
    "  padded  words here ",
    "\ttabs\tand\u{b}vertical\u{c}",
    "\u{a0}no-break\u{2003}em\u{3000}",
    "\u{85}next\u{1680}ogham\u{2028}line\u{2029}",
    "line one\nline two\r\nline three\r\n",
    "\n\n\r\n\r",
    "ends\r",
    "caf\u{e9} \u{df} \u{130} \u{1f600}",
    "MiXeD CaSe",
    "aaaa",
    "key = value = more",
    "\u{200b}zero width\u{feff}",
];

#[test]
fn text_is_cut_as_by_the_standard_library() {
    for s in TEXTS {
        assert_eq!(trimmed(s), s.trim(), "{s:?}");
        assert_eq!(trim_start_of(s, Class::Space), s.trim_start(), "{s:?}");
        assert_eq!(trim_end_of(s, Class::Space), s.trim_end(), "{s:?}");
        assert_eq!(trim_start_of(s, Class::One(':')), s.trim_start_matches(':'));
        assert_eq!(trim_end_of(s, Class::LineEnd), s.trim_end_matches(['\r', '\n']));
        assert_eq!(split_words(s), s.split_whitespace().collect::<Vec<_>>(), "{s:?}");
        assert_eq!(split_lines(s), s.lines().collect::<Vec<_>>(), "{s:?}");
        for c in [':', ' ', '=', '\n', '\u{e9}', 'a'] {
            assert_eq!(split_at_char(s, c), s.split(c).collect::<Vec<_>>(), "{s:?}");
            let own = |o: Option<(&str, &str)>| o.map(|(a, b)| (a.to_string(), b.to_string()));
            assert_eq!(split_once_at(s, c), own(s.split_once(c)), "{s:?}");
            assert_eq!(rsplit_once_at(s, c), own(s.rsplit_once(c)), "{s:?}");
            assert_eq!(before_char(s, c), s.split(c).next().unwrap());
            assert_eq!(after_char(s, c), s.split_once(c).map_or("", |x| x.1));
            assert_eq!(contains_char(s, c), s.contains(c));
            assert_eq!(replaced(s, c, "<>"), s.replace(c, "<>"));
        }
    }
}

#[test]
fn text_is_compared_as_by_the_standard_library() {
    for s in TEXTS {
        assert_eq!(lowered(s), s.to_ascii_lowercase());
        assert_eq!(uppered(s), s.to_ascii_uppercase());
        let chars = chars_of(s);
        assert_eq!(chars, s.chars().collect::<Vec<_>>());
        assert_eq!(string_of(&chars, 0, chars.len()), s);
        for t in TEXTS {
            assert_eq!(eq_ignore_case(s, t), s.eq_ignore_ascii_case(t));
            assert_eq!(contains_str(s, t), s.contains(t), "{s:?} {t:?}");
            assert_eq!(has_prefix(s, t), s.starts_with(t));
            assert_eq!(has_suffix(s, t), s.ends_with(t));
            assert_eq!(without_prefix(s, t).as_deref(), s.strip_prefix(t));
            assert_eq!(without_suffix(s, t).as_deref(), s.strip_suffix(t));
            assert_eq!(comes_before(s, t), s < t, "{s:?} {t:?}");
            if !t.is_empty() {
                assert_eq!(replaced_all(s, t, "+"), s.replace(t, "+"), "{s:?} {t:?}");
            }
        }
    }
    let pieces: Vec<String> = ["a", "b", "c"].iter().map(|s| s.to_string()).collect();
    assert_eq!(joined(&pieces, 0, 3, ", "), "a, b, c");
    assert_eq!(joined(&pieces, 1, 2, ", "), "b");
    assert_eq!(joined(&pieces, 1, 1, ", "), "");
    assert!(same_option(&None, &None));
    assert!(!same_option(&None, &Some(String::new())));
}

#[test]
fn numbers_are_read_and_written_as_by_the_standard_library() {
    let texts = [
        "", "+", "-", "0", "00", "+7", "-7", "65535", "65536", "18446744073709551615",
        "18446744073709551616", "1_0", " 1", "1 ", "0x10", "ff", "FF", "g", "++1", "\u{661}",
    ];
    for s in texts {
        assert_eq!(parse_u16(s), s.parse::<u16>().ok(), "{s:?}");
        assert_eq!(parse_u64(s), s.parse::<u64>().ok(), "{s:?}");
        assert_eq!(parse_number(s, 16, u64::MAX), u64::from_str_radix(s, 16).ok(), "{s:?}");
        assert_eq!(parse_number(s, 10, 255), s.parse::<u8>().ok().map(u64::from), "{s:?}");
    }
    for n in [0, 1, 9, 10, 99, 100, 65535, u64::MAX] {
        assert_eq!(decimal_of(n), n.to_string());
        assert_eq!(hex_of(n), format!("{n:x}"));
        assert_eq!(two_digits_of(n), format!("{n:02}"));
    }
    assert_eq!(digit_char(11), 'b');
}

#[test]
fn addresses_of_both_kinds_are_read() {
    assert_eq!(parse_ipv4("127.0.0.1"), Some(0x7f00_0001));
    for bad in ["", "1.2.3", "1.2.3.4.5", "256.0.0.1", "01.2.3.4", "1.2.3.4 ", "a.b.c.d", "1..2.3"] {
        assert_eq!(parse_ipv4(bad), None, "{bad}");
    }
    assert_eq!(parse_ipv6("::"), Some(0));
    assert_eq!(parse_ipv6("::1"), Some(1));
    assert_eq!(parse_ipv6("fe80::1"), Some(0xfe80_u128 << 112 | 1));
    assert_eq!(parse_ipv6("1:2:3:4:5:6:7:8"), Some(0x0001_0002_0003_0004_0005_0006_0007_0008));
    assert_eq!(parse_ipv6("::ffff:1.2.3.4"), Some(0xffff_0102_0304));
    for bad in ["", ":", ":::", "1:2:3:4:5:6:7", "1::2::3", "12345::", "g::", "1:2:3:4:5:6:7:8:9", "::1%eth0"] {
        assert_eq!(parse_ipv6(bad), None, "{bad}");
    }
}

const PATHS: [&str; 22] = [
    "", "/", "//", ".", "..", "a", "a/", "/a", "/a/b", "/a//b/", "/a/./b", "/a/../b", "./a", "a/.",
    "/a/b.txt", "/a/.hidden", "/a/b.tar.gz", "/a/b.", "/a.b/c", "a/..", "/srv/site", "/srv/site/x/y.html",
];

#[test]
fn paths_are_taken_apart_as_by_the_standard_library() {
    let text = |p: &Path| p.to_str().unwrap().to_string();
    for p in PATHS {
        let q = Path::new(p);
        assert_eq!(absolute(p), q.is_absolute());
        assert_eq!(parent_of(p), q.parent().map(text), "{p:?}");
        assert_eq!(file_name_of(p), q.file_name().map(|n| n.to_str().unwrap().to_string()), "{p:?}");
        assert_eq!(extension_of(p), q.extension().map(|n| n.to_str().unwrap().to_string()), "{p:?}");
        let parts: Vec<&str> = q.components().map(|c| c.as_os_str().to_str().unwrap()).collect();
        assert_eq!(components_of(p), parts, "{p:?}");
        for r in PATHS {
            let s = Path::new(r);
            assert_eq!(join_path(p, r), text(&q.join(s)), "{p:?} {r:?}");
            assert_eq!(is_within(p, r), s.starts_with(q), "{p:?} {r:?}");
            assert_eq!(is_same_path(p, r), q == s, "{p:?} {r:?}");
            let relative = s.strip_prefix(q).unwrap_or(s);
            assert_eq!(
                components_of(&relative_to(p, r)),
                relative.components().map(|c| c.as_os_str().to_str().unwrap()).collect::<Vec<_>>(),
                "{p:?} {r:?}"
            );
        }
    }
    assert!(is_in_top_dir("/srv", "/srv/cgi-bin/x", "cgi-bin"));
    assert!(!is_in_top_dir("/srv", "/srv/a/cgi-bin/x", "cgi-bin"));
}

#[test]
fn keys_are_put_in_order() {
    assert_eq!(order_of(&vec![3, 1, 2, 1]), vec![1, 3, 2, 0]);
    assert_eq!(order_of(&vec![]), Vec::<usize>::new());
}

#[test]
fn tables_hold_one_value_per_key() {
    let mut t: Table<String> = Table::new();
    t.insert("b", "1".to_string());
    t.insert("a", "2".to_string());
    t.insert("b", "3".to_string());
    assert_eq!(t.len(), 2);
    assert_eq!((t.key_at(0).as_str(), t.value_at(0).as_str()), ("a", "2"));
    assert_eq!(t.get("b").map(String::as_str), Some("3"));
    assert_eq!(t.get_or("c", "none"), "none");
    let mut other: Table<String> = Table::new();
    other.insert("c", "4".to_string());
    other.insert("a", "5".to_string());
    t.extend_from(&other);
    assert_eq!(t.len(), 3);
    assert_eq!(t.get("a").map(String::as_str), Some("5"));
    t.remove("a");
    assert!(!t.contains_key("a"));
    assert_eq!(t.copy().len(), 2);
}

/// Texts made of the given pieces, always the same ones.
fn mixed(pieces: &[&str], count: usize) -> Vec<String> {
    let mut state: u64 = 0x2545_f491_4f6c_dd1d;
    let mut next = |n: usize| -> usize {
        state ^= state << 13;
        state ^= state >> 7;
        state ^= state << 17;
        (state % n as u64) as usize
    };
    (0..count)
        .map(|_| {
            let len = next(9);
            (0..len).map(|_| pieces[next(pieces.len())]).collect()
        })
        .collect()
}

#[test]
fn weights_are_read_as_numbers() {
    let pieces = [
        "0", "1", "9", "5", ".", "e", "E", "+", "-", "inf", "infinity", "nan", "-46", "e-45", "e-46",
        "7.006492", "0.00000", "7", " ",
    ];
    for s in mixed(&pieces, 40_000) {
        let expected = s.parse::<f32>().is_ok_and(|w| w > 0.0);
        assert_eq!(is_positive(&s), expected, "{s:?}");
    }
    for s in ["7.006492321624085e-46", "7.0064923216240853e-46", "7.0064923216240854e-46", "1e-400000", "1e400000"] {
        assert_eq!(is_positive(s), s.parse::<f32>().is_ok_and(|w| w > 0.0), "{s}");
    }
}

#[test]
fn mixed_texts_are_cut_as_by_the_standard_library() {
    let pieces = ["a", "b", "/", ".", "..", " ", "\t", "\r", "\n", ":", "\u{a0}", "\u{2003}", "A", "+", "7", "\u{e9}"];
    for s in mixed(&pieces, 20_000) {
        let s = s.as_str();
        assert_eq!(trimmed(s), s.trim(), "{s:?}");
        assert_eq!(split_words(s), s.split_whitespace().collect::<Vec<_>>(), "{s:?}");
        assert_eq!(split_lines(s), s.lines().collect::<Vec<_>>(), "{s:?}");
        assert_eq!(parse_u16(s), s.parse::<u16>().ok(), "{s:?}");
        let q = Path::new(s);
        assert_eq!(parent_of(s).as_deref(), q.parent().map(|p| p.to_str().unwrap()), "{s:?}");
        assert_eq!(file_name_of(s).as_deref(), q.file_name().map(|n| n.to_str().unwrap()), "{s:?}");
        assert_eq!(extension_of(s).as_deref(), q.extension().map(|n| n.to_str().unwrap()), "{s:?}");
        let parts: Vec<&str> = q.components().map(|c| c.as_os_str().to_str().unwrap()).collect();
        assert_eq!(components_of(s), parts, "{s:?}");
        assert_eq!(join_path("/srv/site", s), Path::new("/srv/site").join(s).to_str().unwrap());
        assert_eq!(is_within("/a", s), q.starts_with("/a"), "{s:?}");
    }
}

/// The directories down to `dir`, from the standard library's paths.
fn walked(base: &str, dir: &str) -> Vec<(String, String)> {
    let base = Path::new(base);
    let mut chain = Vec::new();
    let mut at = Path::new(dir);
    loop {
        chain.push(at);
        if at == base {
            break;
        }
        match at.parent() {
            Some(p) if p.starts_with(base) => at = p,
            _ => break,
        }
    }
    chain.reverse();
    let seen = |d: &Path| d.strip_prefix(base).unwrap_or(Path::new("")).to_str().unwrap().replace('\\', "/");
    chain.iter().map(|d| (d.to_str().unwrap().to_string(), seen(d))).collect()
}

#[test]
fn mixed_paths_are_seen_as_by_the_standard_library() {
    let pieces = ["a", "b", "/", "/", "/", ".", "..", "\\", " "];
    let bases = ["", "/", ".", "a", "/a", "/a/b", "./a", "//a/./b/", "..", "a/b"];
    for s in mixed(&pieces, 10_000) {
        let q = Path::new(&s);
        for base in bases {
            let rest = q.strip_prefix(base).ok().map(|p| p.to_str().unwrap());
            assert_eq!(relative_to(base, &s), rest.unwrap_or(&s), "{base:?} {s:?}");
            assert_eq!(is_within(base, &s), rest.is_some(), "{base:?} {s:?}");
            assert_eq!(is_same_path(base, &s), q == Path::new(base), "{base:?} {s:?}");
            assert_eq!(cascade_dirs(base, &s), walked(base, &s), "{base:?} {s:?}");
        }
    }
}

#[test]
fn names_with_backslashes_are_seen_with_slashes() {
    let found = cascade_dirs("/srv", "/srv/a\\b/c");
    let pairs: Vec<(&str, &str)> = found.iter().map(|(d, r)| (d.as_str(), r.as_str())).collect();
    assert_eq!(pairs, [("/srv", ""), ("/srv/a\\b", "a/b"), ("/srv/a\\b/c", "a/b/c")]);
}
