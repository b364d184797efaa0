use updet::text::{menu_field, output_line};
use unicode_width::UnicodeWidthStr;
use updet::text::{centered, fit_display, join, pad_to, pad_with_width, parse_choice, str_eq};

#[test]
fn choices() {
    assert_eq!(parse_choice("3\n"), Some(3));
    assert_eq!(parse_choice("  12 \t\n"), Some(12));
    assert_eq!(parse_choice("+7"), Some(7));
    assert_eq!(parse_choice("007"), Some(7));
    assert_eq!(parse_choice("0"), Some(0));
    assert_eq!(parse_choice("4294967295"), Some(4294967295));
    assert_eq!(parse_choice("4294967296"), None);
    assert_eq!(parse_choice("99999999999999999999"), None);
    assert_eq!(parse_choice("-1"), None);
    assert_eq!(parse_choice("+"), None);
    assert_eq!(parse_choice(""), None);
    assert_eq!(parse_choice("\n"), None);
    assert_eq!(parse_choice("1 2"), None);
    assert_eq!(parse_choice("abc"), None);
    assert_eq!(parse_choice("\u{3000}4\u{a0}"), Some(4));
}

#[test]
fn choices_match_std() {
    for s in ["5", " 42\n", "+0", "++1", "1e3", "٣", "4294967295", "4294967296", " \t"] {
        assert_eq!(parse_choice(s), s.trim().parse::<u32>().ok(), "{:?}", s);
    }
}

#[test]
fn fitting() {
    assert_eq!(fit_display("arch", 28), "arch");
    assert_eq!(fit_display("abcdef", 6), "abcdef");
    assert_eq!(fit_display("abcdefg", 6), "abcde~");
    assert_eq!(fit_display("abc", 1), "~");
    assert_eq!(fit_display("abc", 0), "~");
    assert_eq!(fit_display("", 0), "");
    assert_eq!(fit_display("ééééé", 3), "éé~");
}

#[test]
fn padding() {
    assert_eq!(pad_to("ab", 5), "ab   ");
    assert_eq!(pad_to("abcdef", 3), "abcdef");
    assert_eq!(pad_to("日本", 6), "日本  ");
    assert_eq!(pad_with_width("x", 1, 4), "x   ");
    assert_eq!(pad_with_width("x", 9, 4), "x");
}

#[test]
fn centering() {
    assert_eq!(centered("updet", 11), "   updet   ");
    assert_eq!(centered("ab", 5), " ab  ");
    assert_eq!(centered("abc", 3), "abc");
    let title = "updet — universal update";
    let line = centered(title, 40);
    assert_eq!(line.chars().count(), 40);
    assert!(line.starts_with("        updet"));
}

#[test]
fn joining() {
    let v: Vec<String> = vec!["ubuntu".to_string(), "debian".to_string()];
    assert_eq!(join(&v, ", "), "ubuntu, debian");
    assert_eq!(join(&[], ", "), "");
    assert_eq!(join(&v[..1], ", "), "ubuntu");
}

#[test]
fn equality() {
    assert!(str_eq("arch", "arch"));
    assert!(!str_eq("arch", "arc"));
    assert!(!str_eq("", "a"));
    assert!(str_eq("", ""));
}

#[test]
fn whitespace_matches_std_everywhere() {
    for c in (0u32..=0x10FFFF).filter_map(char::from_u32) {
        assert_eq!(updet::text::is_whitespace(c), c.is_whitespace(), "{:?}", c);
    }
}

#[test]
fn padded_width() {
    for (s, w) in [("ab", 5), ("abcdef", 3), ("日本", 6), ("日本", 3), ("", 4), ("é", 2)] {
        let r = pad_to(s, w);
        assert_eq!(UnicodeWidthStr::width(r.as_str()), UnicodeWidthStr::width(s).max(w));
    }
}

#[test]
fn decimal_strings() {
    for n in [0u32, 7, 10, 99, 100, 12345, 4294967295] {
        assert_eq!(updet::text::decimal_string(n), n.to_string());
    }
}

#[test]
fn lowercasing() {
    assert_eq!(updet::text::lowercase_chars(&['A', 'r', 'C', 'h', '-', '1']), "arch-1");
    assert_eq!(updet::text::lowercase_chars(&['É', 'L']), "él");
    assert_eq!(updet::text::lowercase_chars(&[]), "");
}

#[test]
fn menu_fields() {
    let f = menu_field("arch", 28, 29);
    assert_eq!(f.len(), 29);
    assert!(f.starts_with("arch "));
    let long = "a-very-long-distribution-identifier-indeed";
    let f = menu_field(long, 28, 29);
    assert_eq!(f, format!("{}~ ", &long[..27]));
    assert_eq!(UnicodeWidthStr::width(f.as_str()), 29);
    assert_eq!(menu_field("ubuntu, debian", 18, 18), "ubuntu, debian    ");
}

#[test]
fn output_lines() {
    assert_eq!(output_line(Some("6.9.3-arch1-1\n")), "6.9.3-arch1-1");
    assert_eq!(output_line(Some("  x y \t")), "x y");
    assert_eq!(output_line(Some("")), "");
    assert_eq!(output_line(None), "unknown");
}

#[test]
fn printable_ascii_width_is_length() {
    for s in ["", "a", "Distro : arch", " ~!@#$%^&*()_+{}|:<>?"] {
        assert_eq!(UnicodeWidthStr::width(pad_to(s, 0).as_str()), s.len());
    }
}
