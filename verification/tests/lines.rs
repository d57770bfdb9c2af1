use hank::lines::line_ranges;
use hank::text::{chars_of, str_eq};

fn lines_by_ranges(s: &str) -> Vec<String> {
    let v = chars_of(s);
    line_ranges(&v).into_iter().map(|(a, b)| v[a..b].iter().collect()).collect()
}

#[test]
fn line_ranges_agree_with_std_lines() {
    let cases = [
        "", "\n", "\n\n", "a", "a\n", "a\nb", "a\r\nb\r\n", "a\rb", "a\r", "\r\n", "x\n\ny\n", "\u{1f7e9}\n\u{2b1b}",
        "Wordle 1 2/6\r\n\r\n\u{1f7e9}\u{1f7e9}\r\n",
    ];
    for s in cases {
        let expected: Vec<String> = s.lines().map(|l| l.to_string()).collect();
        assert_eq!(lines_by_ranges(s), expected, "input {:?}", s);
    }
}

#[test]
fn chars_and_equality() {
    assert_eq!(chars_of("a\u{1f7e9}b"), vec!['a', '\u{1f7e9}', 'b']);
    assert!(str_eq("abc", "abc"));
    assert!(!str_eq("abc", "abd"));
    assert!(!str_eq("abc", "ab"));
    assert!(str_eq("", ""));
}
