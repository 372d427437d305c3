//! Host names, IP literals and the texts they are made of.

use nono_proxy::host::{is_covered, registered_suffix_hint};
use nono_proxy::ip_literal::is_ip_literal;
use nono_proxy::text;

#[test]
fn suffix_hint_strips_leftmost_label() {
    assert_eq!(registered_suffix_hint("api.example.com"), "example.com");
    assert_eq!(
        registered_suffix_hint("www.deeply.nested.com"),
        "deeply.nested.com"
    );
    assert_eq!(registered_suffix_hint("example.com"), "example.com");
    assert_eq!(registered_suffix_hint("localhost"), "localhost");
}

#[test]
fn suffix_hint_preserves_ip_literal() {
    assert_eq!(registered_suffix_hint("10.0.0.1"), "10.0.0.1");
}

#[test]
fn suffix_hint_reads_names_loosely() {
    assert_eq!(registered_suffix_hint(""), "");
    assert_eq!(registered_suffix_hint(" . "), "");
    assert_eq!(registered_suffix_hint("  .API.Example.COM "), "example.com");
    assert_eq!(registered_suffix_hint("api.example.com."), "example.com");
    assert_eq!(registered_suffix_hint("api..example.com"), "example.com");
    assert_eq!(registered_suffix_hint("2001:DB8::1"), "2001:db8::1");
    assert_eq!(registered_suffix_hint("[::1]"), "::1");
    assert_eq!(registered_suffix_hint("10.0.0.256"), "0.0.256");
    assert_eq!(registered_suffix_hint("::ffff:10.0.0.1"), "::ffff:10.0.0.1");
}

#[test]
fn suffix_covers_itself_and_what_lies_below() {
    assert!(is_covered("example.com", "example.com"));
    assert!(is_covered("example.com", "a.b.example.com"));
    assert!(!is_covered("example.com", "notexample.com"));
    assert!(!is_covered("example.com", "com"));
    assert!(is_covered("", ""));
    assert!(is_covered("", "dot."));
    assert!(!is_covered("", "a"));
}

#[test]
fn hint_covers_its_host() {
    let hosts = [
        "api.example.com",
        "example.com",
        "localhost",
        "10.0.0.1",
        "www.b\u{fc}cher.example",
        "a[1].example.com",
    ];
    for host in hosts {
        assert!(is_covered(&registered_suffix_hint(host), host));
    }
}

#[test]
fn ipv4_literals() {
    for s in ["0.0.0.0", "255.255.255.255", "10.0.0.1", "1.20.30.4"] {
        assert!(is_ip_literal(s));
    }
    for s in [
        "", "1", "1.2.3", "1.2.3.4.5", "256.0.0.1", "01.2.3.4", "1.2.3.04", "1..2.3", "1.2.3.4.",
        " 1.2.3.4", "1.2.3.x", "-1.2.3.4", "1.2.3.4/8", "0001.2.3.4",
    ] {
        assert!(!is_ip_literal(s));
    }
}

#[test]
fn ipv6_literals() {
    for s in [
        "::",
        "::1",
        "1::",
        "fe80::1",
        "2001:db8::1",
        "1:2:3:4:5:6:7:8",
        "1:2:3:4:5:6:7::",
        "::2:3:4:5:6:7:8",
        "::ffff:1.2.3.4",
        "1:2:3:4:5:6:1.2.3.4",
        "ABCD:ef01::",
        "0001:0::",
    ] {
        assert!(is_ip_literal(s));
    }
    for s in [
        ":",
        ":::",
        "1:2:3:4:5:6:7",
        "1:2:3:4:5:6:7:8:9",
        "1:2:3:4:5:6:7:8::",
        "1::2::3",
        "12345::",
        "g::",
        "[::1]",
        "::1%eth0",
        "1:2:3:4:5:6:7:1.2.3.4",
        "::1.2.3",
        "1.2.3.4::",
        ":1:2:3:4:5:6:7",
        "1:2:3:4:5:6:7:",
    ] {
        assert!(!is_ip_literal(s));
    }
}

#[test]
fn dotted_tails_of_ipv6_literals() {
    for s in ["::1.2.3.4", "1:2:3:4:5::1.2.3.4", "::ffff:0:255.255.255.255", "1::0.0.0.0"] {
        assert!(is_ip_literal(s));
    }
    for s in [
        "1:2:3:4:5:6::1.2.3.4",
        "::ffff:1.2.3.256",
        "::01.2.3.4",
        "::1.2.3.4:5",
        "1.2.3.4:5::",
        "::.1.2.3",
    ] {
        assert!(!is_ip_literal(s));
    }
}

#[test]
fn white_space_is_trimmed() {
    assert_eq!(text::trim(" \t\u{a0}\u{2003}a b\u{3000}\r\n"), "a b");
    assert_eq!(text::trim("\u{200b}a\u{feff}"), "\u{200b}a\u{feff}");
    assert_eq!(text::trim("   "), "");
    for n in 0..0x11_0000u32 {
        if let Some(c) = char::from_u32(n) {
            let s = format!("{}x{}", c, c);
            assert_eq!(text::trim(&s), s.trim());
        }
    }
}

#[test]
fn characters_are_stripped_from_either_end() {
    assert_eq!(text::trim_start_char("..a.", '.'), "a.");
    assert_eq!(text::trim_end_char(".a..", '.'), ".a");
    assert_eq!(text::trim_start_char("...", '.'), "");
    assert_eq!(text::trim_end_char("...", '.'), "");
}

#[test]
fn hosts_are_normalized() {
    assert_eq!(text::normalize("  API.Example.COM\n"), "api.example.com");
    assert_eq!(text::normalize("\u{c4}"), "\u{e4}");
    let once = text::normalize("  API.Example.COM\n");
    assert_eq!(text::normalize(&once), once);
}

#[test]
fn ascii_letters_are_lowered() {
    assert_eq!(text::to_ascii_lower("ALLOW-\u{c4}z9"), "allow-\u{c4}z9");
}

#[test]
fn substrings_and_ends_are_found() {
    assert!(text::contains("a microsoft kernel", "microsoft"));
    assert!(text::contains("wsl", "wsl"));
    assert!(text::contains("abc", ""));
    assert!(!text::contains("ws", "wsl"));
    assert!(text::ends_with("a.b", ".b"));
    assert!(!text::ends_with("b", ".b"));
}

#[test]
fn texts_compare_like_strings() {
    let words = ["", "a", "ab", "b", "ba", "\u{e9}", "z", "Z"];
    for a in words {
        for b in words {
            assert_eq!(text::is_le(a, b), a <= b);
        }
    }
}

#[test]
fn numbers_are_written_in_decimal() {
    for n in 0..=u16::MAX {
        assert_eq!(text::decimal_text(n), n.to_string());
    }
}

#[test]
fn last_lines_are_found() {
    for s in ["", "\n", "a", "a\n", "a\r\n", "a\nb", "a\nb\n", "a\n\n", "a\r", "a\nb\r\n\r\n"] {
        let last = s.lines().last().unwrap_or("");
        assert_eq!(text::trim(&text::last_line_of(s)), last.trim());
    }
}

#[test]
fn names_are_split_into_labels_and_joined() {
    let labels = text::split_labels(".a..bc.d.");
    let words: Vec<String> = labels.iter().map(|l| l.iter().collect()).collect();
    assert_eq!(words, vec!["a", "bc", "d"]);
    assert_eq!(text::join_from(&labels, 1, '.'), "bc.d");
    let pieces = text::split_char(&"a..b".chars().collect(), '.');
    assert_eq!(pieces.len(), 3);
    assert_eq!(text::join_from(&pieces, 0, '.'), "a..b");
}
