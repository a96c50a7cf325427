use playfusion_cart_ui::name::clean_name;
use playfusion_cart_ui::text::{
    chars_of, parse_usize, push_decimal, push_two_digit_decimal, shorten, split_lines,
    strip_prefix_chars, trim_chars,
};

fn chars(s: &str) -> Vec<char> {
    s.chars().collect()
}

fn text(v: &[char]) -> String {
    v.iter().collect()
}

#[test]
fn clean_name_collapses_spaces_and_drops_other_characters() {
    assert_eq!(clean_name("  Hello   World!! "), "Hello World");
    assert_eq!(clean_name("ab\u{e9}c-d_e"), "abc-d_e");
    assert_eq!(clean_name("\tTab\nName"), "TabName");
    assert_eq!(clean_name(""), "");
    assert_eq!(clean_name("   "), "");
    assert_eq!(clean_name("!!!"), "");
}

#[test]
fn clean_name_keeps_twenty_characters() {
    assert_eq!(clean_name("ABCDEFGHIJKLMNOPQRSTUVWXYZ"), "ABCDEFGHIJKLMNOPQRST");
    // The cut can leave a space at the end; tidying again removes it.
    let once = clean_name("AAAAAAAAAAAAAAAAAAA BBB");
    assert_eq!(once, "AAAAAAAAAAAAAAAAAAA ");
    assert_eq!(clean_name(&once), "AAAAAAAAAAAAAAAAAAA");
}

#[test]
fn clean_name_is_idempotent_on_a_tidy_name() {
    let once = clean_name("  My -- Cool_Profile  99 ");
    assert_eq!(once, "My -- Cool_Profile 9");
    assert_eq!(clean_name(&once), once);
}

#[test]
fn parse_usize_follows_std() {
    for s in ["0", "7", "+5", "007", "18446744073709551615", "", "+", "-1", " 3", "3 ", "12a", "18446744073709551616"] {
        assert_eq!(parse_usize(&chars(s)), s.parse::<usize>().ok(), "input {:?}", s);
    }
}

#[test]
fn split_lines_follows_std() {
    for s in ["", "a", "a\n", "a\nb", "a\r\nb\r\n", "\n\n", "x\ry", "one\n\ntwo\n", "end\r"] {
        let got: Vec<String> = split_lines(&chars(s)).iter().map(|l| text(l)).collect();
        let want: Vec<String> = s.lines().map(|l| l.to_string()).collect();
        assert_eq!(got, want, "input {:?}", s);
    }
    let got: Vec<String> = split_lines(&chars("name=A\r\navatar=2\n")).iter().map(|l| text(l)).collect();
    assert_eq!(got, vec!["name=A".to_string(), "avatar=2".to_string()]);
}

#[test]
fn trim_follows_std() {
    for s in ["", "  a b  ", "\u{3000}x\u{a0}", "\t\n", "abc", " \u{2028}z\u{85}"] {
        assert_eq!(text(&trim_chars(&chars(s))), s.trim(), "input {:?}", s);
    }
}

#[test]
fn strip_prefix_gives_the_rest() {
    assert_eq!(strip_prefix_chars(&chars("name=Bob"), &chars("name=")).map(|v| text(&v)), Some("Bob".to_string()));
    assert_eq!(strip_prefix_chars(&chars("nam"), &chars("name=")), None);
    assert_eq!(strip_prefix_chars(&chars("avatar=1"), &chars("name=")), None);
    assert_eq!(strip_prefix_chars(&chars("name="), &chars("name=")).map(|v| text(&v)), Some(String::new()));
}

#[test]
fn decimal_digits_are_written_like_format() {
    for n in [0usize, 5, 10, 99, 100, 12345, usize::MAX] {
        let mut v = Vec::new();
        push_decimal(n, &mut v);
        assert_eq!(text(&v), format!("{}", n));
        let mut w = chars("x");
        push_two_digit_decimal(n, &mut w);
        assert_eq!(text(&w), format!("x{:02}", n));
        assert_eq!(parse_usize(&v), Some(n));
    }
}

#[test]
fn shorten_marks_a_cut() {
    assert_eq!(text(&shorten(&chars("abcdef"), 6)), "abcdef");
    assert_eq!(text(&shorten(&chars("abcdefg"), 6)), "abcde\u{2026}");
    assert_eq!(text(&chars_of("x")), "x");
}
