use orderbook_stream::text::{
    chars_of, comes_before, read_u64, same_text, sort_texts, spells, split_bounds,
};

fn chars(s: &str) -> Vec<char> {
    s.chars().collect()
}

fn pieces(s: &str, sep: char) -> Vec<String> {
    let v = chars(s);
    split_bounds(&v, 0, v.len(), sep)
        .into_iter()
        .map(|(from, to)| v[from..to].iter().collect())
        .collect()
}

fn strings(list: &[&str]) -> Vec<String> {
    list.iter().map(|s| s.to_string()).collect()
}

fn number(s: &str) -> Option<u64> {
    let v = chars(s);
    read_u64(&v, 0, v.len())
}

#[test]
fn split_cuts_at_every_separator() {
    for text in ["", "a", "/", "a/b", "a//b", "/a/b/", "///", "replica_cmds/1/2/3-4", "é/ü"] {
        let expected: Vec<String> = text.split('/').map(|p| p.to_string()).collect();
        assert_eq!(pieces(text, '/'), expected, "{:?}", text);
    }
    assert_eq!(pieces("1-2-3", '-'), vec!["1", "2", "3"]);
    assert_eq!(pieces("1-2-3", '/'), vec!["1-2-3"]);
}

#[test]
fn split_within_bounds() {
    let v = chars("ab/cd-ef/gh");
    assert_eq!(split_bounds(&v, 3, 8, '-'), vec![(3, 5), (6, 8)]);
    assert_eq!(split_bounds(&v, 3, 8, '/'), vec![(3, 8)]);
    assert_eq!(split_bounds(&v, 2, 3, '/'), vec![(2, 2), (3, 3)]);
    assert_eq!(split_bounds(&v, 4, 4, '/'), vec![(4, 4)]);
}

#[test]
fn read_u64_agrees_with_the_standard_library() {
    for text in [
        "0", "7", "42", "007", "+5", "+0", "+", "", "-", "-5", "5-", "1_000", "0x10", "1e3",
        "18446744073709551615", "18446744073709551616", "+18446744073709551615",
        "184467440737095516150", "99999999999999999999", "00000000000000000000000001", " 1", "1 ",
        "٣", "１", "++1", "+-1", "1+",
    ] {
        assert_eq!(number(text), text.parse::<u64>().ok(), "{:?}", text);
    }
}

#[test]
fn read_u64_within_bounds() {
    let v = chars("ab123cd");
    assert_eq!(read_u64(&v, 2, 5), Some(123));
    assert_eq!(read_u64(&v, 2, 3), Some(1));
    assert_eq!(read_u64(&v, 2, 2), None);
    assert_eq!(read_u64(&v, 1, 5), None);
    assert_eq!(read_u64(&v, 2, 6), None);
}

#[test]
fn texts_are_compared_by_their_characters() {
    assert!(same_text("", ""));
    assert!(same_text("TRADES", "TRADES"));
    assert!(same_text("日付", "日付"));
    assert!(!same_text("TRADES", "TRADE"));
    assert!(!same_text("TRADE", "TRADES"));
    assert!(!same_text("TRADES", "TRADEs"));
    assert!(!same_text("", "a"));
    assert_eq!(chars_of("añ日"), vec!['a', 'ñ', '日']);
    assert_eq!(chars_of(""), Vec::<char>::new());
    let v = chars("xxabcxx");
    assert!(spells(&v, 2, 5, &chars("abc")));
    assert!(!spells(&v, 2, 5, &chars("abd")));
    assert!(!spells(&v, 2, 4, &chars("abc")));
    assert!(spells(&v, 3, 3, &chars("")));
}

#[test]
fn sort_agrees_with_the_standard_library() {
    let list = strings(&[
        "b", "a", "", "ab", "aa", "B", "é", "e", "z", "日", "𝄞", "\u{FFFF}", "a", "10", "9", "ab", "~",
    ]);
    let mut expected = list.clone();
    expected.sort();
    assert_eq!(sort_texts(list), expected);
    assert_eq!(sort_texts(Vec::new()), Vec::<String>::new());
    assert_eq!(sort_texts(strings(&["x"])), strings(&["x"]));
}

#[test]
fn order_of_texts_agrees_with_the_standard_library() {
    let list = ["", "a", "b", "ab", "aa", "é", "e", "日", "𝄞", "\u{FFFF}", "\u{E000}", "Z"];
    for a in list {
        for b in list {
            assert_eq!(comes_before(a, b), a <= b, "{:?} {:?}", a, b);
        }
    }
}
