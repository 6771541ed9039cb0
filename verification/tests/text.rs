use triax::text::{
    ends_with, is_whitespace, join_with, same_text, split_on, split_once, starts_with, to_chars,
    to_decimal, trim, trim_end_matches, trim_start_matches,
};

const SAMPLES: [&str; 16] = [
    "",
    " ",
    "   ",
    "a",
    "  a  ",
    "\t let x = 1; \r",
    "\u{a0}x\u{3000}",
    "\u{2003}\u{85}mid dle\u{2028}\u{2029}",
    "\u{200b}zero width\u{200b}",
    "func main {",
    "}",
    "console.print(a, b);",
    "a\u{1680}",
    "\u{180e}b",
    "é ü ",
    "\n\n",
];

#[test]
fn whitespace_agrees_with_std_on_every_char() {
    let mut n: u32 = 0;
    while n <= 0x10FFFF {
        if let Some(c) = char::from_u32(n) {
            assert_eq!(is_whitespace(c), c.is_whitespace(), "U+{:04X}", n);
        }
        n += 1;
    }
}

#[test]
fn whitespace_named_cases() {
    assert!(is_whitespace(' '));
    assert!(is_whitespace('\t'));
    assert!(is_whitespace('\n'));
    assert!(is_whitespace('\r'));
    assert!(is_whitespace('\u{a0}'));
    assert!(!is_whitespace('a'));
    assert!(!is_whitespace('\u{200b}'));
    assert!(!is_whitespace('\u{8}'));
    assert!(!is_whitespace('\u{e}'));
}

#[test]
fn to_chars_gives_each_char() {
    assert_eq!(to_chars(""), Vec::<char>::new());
    assert_eq!(to_chars("aé→"), vec!['a', 'é', '→']);
}

#[test]
fn same_text_compares_contents() {
    assert!(same_text("", ""));
    assert!(same_text("main", "main"));
    assert!(!same_text("main", "Main"));
    assert!(!same_text("main", "mai"));
    assert!(!same_text("mai", "main"));
    assert!(!same_text("é", "e"));
}

#[test]
fn trim_agrees_with_std() {
    for s in SAMPLES {
        assert_eq!(trim(s), s.trim(), "{:?}", s);
    }
}

#[test]
fn trim_named_cases() {
    assert_eq!(trim("  let x = 1;  "), "let x = 1;");
    assert_eq!(trim("\t\r\n"), "");
    assert_eq!(trim("a b"), "a b");
    assert_eq!(trim(" é "), "é");
}

#[test]
fn starts_and_ends_agree_with_std() {
    let patterns = ["", "f", "func ", "{", "}", "let ", "console.print", ";", " ", "\u{a0}"];
    for s in SAMPLES {
        for p in patterns {
            assert_eq!(starts_with(s, p), s.starts_with(p), "{:?} {:?}", s, p);
            assert_eq!(ends_with(s, p), s.ends_with(p), "{:?} {:?}", s, p);
        }
    }
}

#[test]
fn starts_with_named_cases() {
    assert!(starts_with("func main {", "func "));
    assert!(!starts_with("func", "func "));
    assert!(!starts_with("xfunc ", "func "));
    assert!(ends_with("func main {", "{"));
    assert!(!ends_with("func main { ", "{"));
    assert!(ends_with("abc", "abc"));
    assert!(!ends_with("bc", "abc"));
}

#[test]
fn strip_repeated_prefix_agrees_with_std() {
    let patterns = ["f", "func ", "let ", "console.print", "(", " ", "ab", "aa"];
    let inputs = [
        "", "func func main {", "let let x", "((a", "console.printconsole.print(x)", "aaa", "abab",
        "ababa", "  x", "func", "é(",
    ];
    for s in inputs {
        for p in patterns {
            assert_eq!(trim_start_matches(s, p), s.trim_start_matches(p), "{:?} {:?}", s, p);
        }
    }
}

#[test]
fn strip_repeated_suffix_agrees_with_std() {
    let patterns = ["{", ";", ");", " ", "ab", "aa"];
    let inputs = ["", "x;;", "f {{", "a););", "a);)", "aaa", "abab", "babab", "x  ", "{", ";é;"];
    for s in inputs {
        for p in patterns {
            assert_eq!(trim_end_matches(s, p), s.trim_end_matches(p), "{:?} {:?}", s, p);
        }
    }
}

#[test]
fn strip_with_empty_pattern_removes_nothing() {
    assert_eq!(trim_start_matches("abc", ""), "abc");
    assert_eq!(trim_end_matches("abc", ""), "abc");
}

#[test]
fn strip_named_cases() {
    assert_eq!(trim_start_matches("func main {", "func "), "main {");
    assert_eq!(trim_start_matches("func func main {", "func "), "main {");
    assert_eq!(trim_end_matches("main {{", "{"), "main ");
    assert_eq!(trim_end_matches("x = 1;;", ";"), "x = 1");
    assert_eq!(trim_end_matches("a, b);", ");"), "a, b");
    assert_eq!(trim_end_matches("a, b)", ");"), "a, b)");
}

#[test]
fn split_once_agrees_with_std() {
    let inputs = ["", "=", "a=b", "a = b = c", "no sign", "=x", "x=", "é=ü"];
    for s in inputs {
        assert_eq!(split_once(s, '='), s.split_once('='), "{:?}", s);
    }
}

#[test]
fn split_on_agrees_with_std() {
    let inputs = ["", ",", "a", "a,b", "a, b ,c", ",,", "a,", ",a", "é,ü"];
    for s in inputs {
        let want: Vec<&str> = s.split(',').collect();
        assert_eq!(split_on(s, ','), want, "{:?}", s);
    }
}

#[test]
fn split_on_keeps_empty_pieces() {
    assert_eq!(split_on("", ','), vec![""]);
    assert_eq!(split_on("a,,b,", ','), vec!["a", "", "b", ""]);
}

#[test]
fn join_with_agrees_with_std() {
    let cases: [Vec<String>; 4] = [
        vec![],
        vec!["a".to_string()],
        vec!["hi".to_string(), "there".to_string()],
        vec!["".to_string(), "x".to_string(), "".to_string()],
    ];
    for parts in cases {
        assert_eq!(join_with(&parts, " "), parts.join(" "));
        assert_eq!(join_with(&parts, ", "), parts.join(", "));
        assert_eq!(join_with(&parts, ""), parts.join(""));
    }
}

#[test]
fn join_with_named_case() {
    assert_eq!(join_with(&vec!["hi".to_string(), "there".to_string()], " "), "hi there");
}

#[test]
fn to_decimal_agrees_with_std() {
    let numbers = [0usize, 1, 9, 10, 11, 99, 100, 101, 12345, 1_000_000, usize::MAX - 1, usize::MAX];
    for n in numbers {
        assert_eq!(to_decimal(n), n.to_string());
    }
}

#[test]
fn to_decimal_named_cases() {
    assert_eq!(to_decimal(0), "0");
    assert_eq!(to_decimal(7), "7");
    assert_eq!(to_decimal(42), "42");
    assert_eq!(to_decimal(1005), "1005");
}
