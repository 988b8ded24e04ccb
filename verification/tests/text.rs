use zync::text::{from_chars, split_chars, split_lines, to_chars, u64_to_decimal};

fn lines_of(s: &str) -> Vec<String> {
    split_lines(&to_chars(s)).into_iter().map(|l| from_chars(&l)).collect()
}

#[test]
fn lines_match_str_lines() {
    for s in ["", "a", "a\n", "a\nb", "a\r\nb\r\n", "\n", "\n\n", "a\r", "x\r\r\ny"] {
        let expected: Vec<String> = s.lines().map(String::from).collect();
        assert_eq!(lines_of(s), expected, "input {:?}", s);
    }
}

#[test]
fn split_matches_str_split() {
    for s in ["", "a", "a&b", "&", "a&&b&"] {
        let expected: Vec<String> = s.split('&').map(String::from).collect();
        let got: Vec<String> =
            split_chars(&to_chars(s), '&').into_iter().map(|p| from_chars(&p)).collect();
        assert_eq!(got, expected);
    }
}

#[test]
fn decimal_text() {
    for n in [0u64, 7, 10, 99, 1779235200, u64::MAX] {
        assert_eq!(u64_to_decimal(n), n.to_string());
    }
}
