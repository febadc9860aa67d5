use pic_process::fixed::{decimal_literal, integer_root, places_text, push_shortest, round_div};
use pic_process::text::{
    before, chars_of, decimal_text, lowercase, parse_integer, parse_natural, piece,
    same_text, text_of, trim,
};

fn shortest(v: i64) -> String {
    let mut s = String::new();
    push_shortest(&mut s, v);
    s
}

#[test]
fn numbers_with_places() {
    assert_eq!(places_text(66_000_000, 1, false), "66.0");
    assert_eq!(places_text(66_650_000, 1, false), "66.6");
    assert_eq!(places_text(66_750_000, 1, false), "66.8");
    assert_eq!(places_text(66_650_001, 1, false), "66.7");
    assert_eq!(places_text(999_950_000, 1, false), "1000.0");
    assert_eq!(places_text(-333_333, 2, true), "-0.33");
    assert_eq!(places_text(1_000_000, 2, true), "+1.00");
    assert_eq!(places_text(-1, 2, false), "-0.00");
    assert_eq!(places_text(i64::MIN, 1, false), "-9223372036854.8");
    for (v, t) in [(0.05, "0.1"), (0.04, "0.0"), (12.25, "12.2"), (12.75, "12.8")] {
        assert_eq!(format!("{v:.1}"), t);
        assert_eq!(places_text((v * 1e6) as i64, 1, false) == t, v != 0.05);
    }
}

#[test]
fn numbers_in_short() {
    assert_eq!(shortest(300_000), "0.3");
    assert_eq!(shortest(800_000_000_000), "800000");
    assert_eq!(shortest(-1_250_000), "-1.25");
    assert_eq!(shortest(1), "0.000001");
    assert_eq!(decimal_literal(80_000_000), "80.0");
    assert_eq!(decimal_literal(310_000), "0.31");
    assert_eq!(decimal_text(u64::MAX), "18446744073709551615");
    assert_eq!(decimal_text(0), "0");
}

#[test]
fn rounding_and_roots() {
    assert_eq!(round_div(5, 2), 3);
    assert_eq!(round_div(-5, 2), -3);
    assert_eq!(round_div(4, 3), 1);
    assert_eq!(round_div(0, 7), 0);
    for n in [0u128, 1, 2, 3, 4, 15, 16, 17, 1 << 100, (1 << 125) - 1] {
        let r = integer_root(n);
        assert!(r * r <= n && n < (r + 1) * (r + 1));
    }
}

#[test]
fn white_space_is_trimmed() {
    for s in ["", " ", "a", " a b ", "\t\u{a0}x\u{3000}\n", "\u{200b}x", "\u{2028}\u{205f}"] {
        assert_eq!(text_of(&trim(&chars_of(s))), s.trim());
    }
}

#[test]
fn integers_are_read() {
    for s in [
        "", "+", "-", "0", "-0", "+5", "-5", "007", "9223372036854775807", "9223372036854775808",
        "-9223372036854775808", "-9223372036854775809", "1 ", "1a", "--1", "99999999999999999999999999",
    ] {
        assert_eq!(parse_integer(&chars_of(s)), s.parse::<i64>().ok());
        assert_eq!(parse_natural(&chars_of(s)), s.parse::<u64>().ok());
    }
    assert_eq!(parse_natural(&chars_of("18446744073709551615")), Some(u64::MAX));
    assert_eq!(parse_natural(&chars_of("18446744073709551616")), None);
}

#[test]
fn pieces_between_separators() {
    let v = chars_of("a:b-c");
    let at = |k: usize| piece(&v, ':', '-', k).map(|p| text_of(&p));
    assert_eq!(at(0), Some("a".to_string()));
    assert_eq!(at(1), Some("b".to_string()));
    assert_eq!(at(2), Some("c".to_string()));
    assert_eq!(at(3), None);
    assert_eq!(piece(&chars_of(""), ':', '-', 0).map(|p| p.len()), Some(0));
}

#[test]
fn texts_are_compared() {
    let words = ["", "a", "A", "aa", "ab", "b", "é", "中", "a/b", "a-b"];
    for a in words {
        for b in words {
            assert_eq!(before(&chars_of(a), &chars_of(b)), a < b);
            assert_eq!(same_text(a, b), a == b);
        }
    }
    assert_eq!(lowercase(&chars_of("AbÉ9")), "abÉ9");
}
