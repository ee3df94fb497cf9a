use sat_tracker::text::{
    chars_le, chars_of, contains, join_from, push_decimal, push_hex, push_signed_decimal,
    push_zero_padded, push_zero_padded_signed, remove_chars, same_text, split_lines,
    strip_suffix_repeated, trim,
};

fn cs(s: &str) -> Vec<char> {
    s.chars().collect()
}

fn text(v: &Vec<char>) -> String {
    v.iter().collect()
}

#[test]
fn chars_of_keeps_every_character() {
    assert_eq!(chars_of("a,b"), vec!['a', ',', 'b']);
    assert_eq!(chars_of(""), Vec::<char>::new());
    assert_eq!(chars_of("₿1"), vec!['₿', '1']);
}

#[test]
fn same_text_compares_characters() {
    assert!(same_text("BTC", "BTC"));
    assert!(!same_text("BTC", "btc"));
    assert!(!same_text("BTC", "BTC "));
}

#[test]
fn contains_finds_substrings_as_str_does() {
    let cases = [
        ("ID,Timestamp", "ID"),
        ("ID,Timestamp", "Timestamp"),
        ("ID,Timestamp", "stamp,"),
        ("abc", ""),
        ("", ""),
        ("", "a"),
        ("aab", "ab"),
        ("aaa", "aaaa"),
        ("Transaction Typ", "Transaction Type"),
    ];
    for (hay, needle) in cases {
        assert_eq!(contains(&cs(hay), &cs(needle)), hay.contains(needle), "{hay:?} {needle:?}");
    }
}

#[test]
fn split_lines_cuts_as_str_lines_does() {
    let cases = [
        "",
        "a",
        "a\n",
        "a\nb",
        "a\r\nb\r\n",
        "a\n\nb",
        "\n",
        "\n\n",
        "a\r",
        "a\r\n",
        "a\rb\nc",
        "\r\n\r\n",
        "x\n\r",
        "last line without feed\r\n\r",
    ];
    for case in cases {
        let got: Vec<String> = split_lines(&cs(case)).iter().map(text).collect();
        let want: Vec<String> = case.lines().map(String::from).collect();
        assert_eq!(got, want, "{case:?}");
    }
}

#[test]
fn join_from_puts_the_separator_between_parts() {
    let parts = vec![cs("a"), cs("b"), cs(""), cs("c")];
    assert_eq!(text(&join_from(&parts, 0, &cs(", "))), "a, b, , c");
    assert_eq!(text(&join_from(&parts, 1, &cs("\n"))), "b\n\nc");
    assert_eq!(text(&join_from(&parts, 3, &cs("\n"))), "c");
    assert_eq!(text(&join_from(&parts, 4, &cs("\n"))), "");
}

#[test]
fn trim_removes_white_space_as_str_trim_does() {
    let cases = ["", " ", "  a b  ", "\t\na\r\n", "\u{a0}x\u{3000}", "x", "\u{200b}x", "\u{1680} \u{2028}y\u{2029}\u{202f}\u{205f}\u{85}"];
    for case in cases {
        assert_eq!(text(&trim(&cs(case))), case.trim(), "{case:?}");
    }
}

#[test]
fn white_space_is_what_char_is_whitespace_says() {
    for code in 0u32..0x3100 {
        if let Some(c) = char::from_u32(code) {
            assert_eq!(sat_tracker::text::char_is_space(c), c.is_whitespace(), "{code:#x}");
        }
    }
}

#[test]
fn strip_suffix_repeated_takes_every_repetition() {
    let cases = [
        ("2025-10-10 21:28:40 UTC", " UTC"),
        ("2025-10-10 21:28:40 UTC UTC", " UTC"),
        ("2025-10-10 21:28:40", " UTC"),
        (" UTC", " UTC"),
        ("UTC", " UTC"),
        ("", " UTC"),
        ("aaa", "a"),
    ];
    for (s, suffix) in cases {
        assert_eq!(text(&strip_suffix_repeated(&cs(s), &cs(suffix))), s.trim_end_matches(suffix));
    }
    assert_eq!(text(&strip_suffix_repeated(&cs("abc"), &cs(""))), "abc");
}

#[test]
fn remove_chars_drops_both_characters_everywhere() {
    assert_eq!(text(&remove_chars(&cs("$1,234,567.89$"), '$', ',')), "1234567.89");
    assert_eq!(text(&remove_chars(&cs(""), '$', ',')), "");
}

#[test]
fn numbers_are_written_as_format_writes_them() {
    for n in [0u64, 1, 9, 10, 15, 16, 99, 100, 255, 256, 12345, u64::MAX] {
        let mut out = Vec::new();
        push_decimal(&mut out, n);
        assert_eq!(text(&out), format!("{}", n));
        let mut out = Vec::new();
        push_hex(&mut out, n);
        assert_eq!(text(&out), format!("{:x}", n));
        for width in [0usize, 1, 2, 4, 25] {
            let mut out = cs("x");
            push_zero_padded(&mut out, n, width);
            assert_eq!(text(&out), format!("x{:0width$}", n, width = width));
        }
    }
    for i in [0i64, 1, -1, 5, -5, 999, -999, 1000, -1000, 2024, 12345, -12345, i64::MAX, i64::MIN] {
        let mut out = Vec::new();
        push_signed_decimal(&mut out, i);
        assert_eq!(text(&out), format!("{}", i));
        for width in [0usize, 1, 2, 4, 25] {
            let mut out = Vec::new();
            push_zero_padded_signed(&mut out, i, width);
            assert_eq!(text(&out), format!("{:0width$}", i, width = width));
        }
    }
}

#[test]
fn chars_le_orders_as_str_does() {
    let words = ["", "a", "A", "ab", "abc", "abd", "b", "Z", "é", "z", "10", "9", "€", "𝄞"];
    for a in words {
        for b in words {
            assert_eq!(chars_le(&cs(a), &cs(b)), a <= b, "{a:?} {b:?}");
        }
    }
}

struct Lcg(u64);

impl Lcg {
    fn next(&mut self) -> u64 {
        self.0 = self.0.wrapping_mul(6364136223846793005).wrapping_add(1442695040888963407);
        self.0 >> 33
    }

    fn text(&mut self, alphabet: &[char], max_len: u64) -> String {
        let len = self.next() % (max_len + 1);
        (0..len).map(|_| alphabet[(self.next() % alphabet.len() as u64) as usize]).collect()
    }
}

#[test]
fn text_functions_agree_with_std_on_many_texts() {
    let alphabet = ['a', 'b', ' ', '\n', '\r', '\t', ',', '$', 'é', '\u{a0}', '.', '5'];
    let mut rng = Lcg(7);
    for _ in 0..3000 {
        let a = rng.text(&alphabet, 12);
        let b = rng.text(&alphabet, 3);
        let got: Vec<String> = split_lines(&cs(&a)).iter().map(text).collect();
        let want: Vec<String> = a.lines().map(String::from).collect();
        assert_eq!(got, want, "{a:?}");
        assert_eq!(text(&trim(&cs(&a))), a.trim(), "{a:?}");
        assert_eq!(contains(&cs(&a), &cs(&b)), a.contains(b.as_str()), "{a:?} {b:?}");
        assert_eq!(chars_le(&cs(&a), &cs(&b)), a <= b, "{a:?} {b:?}");
        assert_eq!(same_text(&a, &b), a == b);
        if !b.is_empty() {
            assert_eq!(
                text(&strip_suffix_repeated(&cs(&a), &cs(&b))),
                a.trim_end_matches(b.as_str()),
                "{a:?} {b:?}"
            );
        }
        assert_eq!(text(&remove_chars(&cs(&a), '$', ',')), a.replace('$', "").replace(',', ""));
    }
}

#[test]
fn sorting_texts_agrees_with_std() {
    let alphabet = ['a', 'b', 'c', 'A', '1', 'é'];
    let mut rng = Lcg(11);
    for _ in 0..300 {
        let count = rng.next() % 9;
        let items: Vec<String> = (0..count).map(|_| rng.text(&alphabet, 4)).collect();
        let mut want = items.clone();
        want.sort();
        let given: Vec<Vec<char>> = items.iter().map(|s| cs(s)).collect();
        let got: Vec<String> = sat_tracker::text_sort::sort_texts(&given).iter().map(text).collect();
        assert_eq!(got, want);
    }
}

#[test]
fn stable_order_agrees_with_std() {
    let mut rng = Lcg(13);
    for _ in 0..300 {
        let count = rng.next() % 12;
        let keys: Vec<i128> = (0..count).map(|_| (rng.next() % 5) as i128 - 2).collect();
        let mut want: Vec<usize> = (0..keys.len()).collect();
        want.sort_by_key(|&i| keys[i]);
        assert_eq!(sat_tracker::order::sort_order(&keys), want);
    }
}

#[test]
fn hash_of_texts_is_fnv_1a_over_code_points() {
    let hash = |items: &[&str]| {
        let given: Vec<Vec<char>> = items.iter().map(|s| cs(s)).collect();
        sat_tracker::hash::hash_list(&given)
    };
    assert_eq!(hash(&[]), 0xcbf29ce484222325);
    assert_eq!(hash(&["a1", "a2", "a3"]), 0xb84339a9848b069e);
    assert_eq!(hash(&["tx-a", "tx-b"]), 0x9b2065b5d991218e);
    assert_ne!(hash(&["a", "b"]), hash(&["b", "a"]));
    assert_ne!(hash(&["ab"]), hash(&["a", "b"]));
    assert_ne!(hash(&[""]), hash(&[]));
}
