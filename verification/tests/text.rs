use rorg::number::{decimal_chars, parse_number, zero_padded_chars};
use rorg::text::{
    find_chars, is_space_char, join_chars, last_space_index, same_chars, split_chars, split_lines,
    split_words, trimmed,
};
use rorg::unicode::{chars_of, string_of};

const SAMPLES: [&str; 24] = [
    "",
    " ",
    "a",
    "  a  ",
    "\t a b\u{a0}c \n",
    "one two  three",
    "\u{3000}wide\u{2003}space\u{85}",
    "\u{200b}zero width\u{200b}",
    "a\nb",
    "a\nb\n",
    "a\r\nb\r\n",
    "a\rb",
    "a\r",
    "a\r\r\n",
    "\n",
    "\r\n",
    "\n\n",
    "\r",
    " \n ",
    "x:y::z:",
    ":",
    "2024-01-01",
    "--",
    "mixed \u{e9}\u{4e2d}\u{1f600} text",
];

fn strings(parts: Vec<Vec<char>>) -> Vec<String> {
    parts.iter().map(string_of).collect()
}

#[test]
fn whitespace_is_what_the_standard_library_calls_whitespace() {
    for code in 0..=0x10FFFFu32 {
        if let Some(c) = char::from_u32(code) {
            assert_eq!(is_space_char(c), c.is_whitespace(), "U+{:04X}", code);
        }
    }
}

#[test]
fn characters_and_strings_convert_both_ways() {
    for s in SAMPLES {
        let chars = chars_of(s);
        assert_eq!(chars, s.chars().collect::<Vec<char>>());
        assert_eq!(string_of(&chars), s);
    }
}

#[test]
fn trimming_agrees_with_the_standard_library() {
    for s in SAMPLES {
        assert_eq!(string_of(&trimmed(&chars_of(s))), s.trim(), "{:?}", s);
    }
}

#[test]
fn words_agree_with_the_standard_library() {
    for s in SAMPLES {
        let expected: Vec<String> = s.split_whitespace().map(|w| w.to_string()).collect();
        assert_eq!(strings(split_words(&chars_of(s))), expected, "{:?}", s);
    }
}

#[test]
fn splitting_agrees_with_the_standard_library() {
    for s in SAMPLES {
        for sep in [':', '-', '\n'] {
            let expected: Vec<String> = s.split(sep).map(|w| w.to_string()).collect();
            assert_eq!(strings(split_chars(&chars_of(s), sep)), expected, "{:?}", s);
        }
    }
}

#[test]
fn lines_agree_with_the_standard_library() {
    for s in SAMPLES {
        let expected: Vec<String> = s.lines().map(|w| w.to_string()).collect();
        assert_eq!(strings(split_lines(&chars_of(s))), expected, "{:?}", s);
    }
    assert_eq!(strings(split_lines(&chars_of("a\r\r\nb\r"))), vec!["a\r", "b\r"]);
}

#[test]
fn joining_agrees_with_the_standard_library() {
    let cases: Vec<Vec<&str>> = vec![vec![], vec![""], vec!["a"], vec!["a", "b"], vec!["", "", ""]];
    for parts in cases {
        let chars: Vec<Vec<char>> = parts.iter().map(|p| chars_of(p)).collect();
        assert_eq!(string_of(&join_chars(&chars, ':')), parts.join(":"));
    }
}

#[test]
fn searching_agrees_with_the_standard_library() {
    let texts = ["", "a", "=>", "a => b", "==>", "a--b--c", "SCHEDULED:", "xSCHEDULED: y", "-", "abcab"];
    let patterns = ["", "=>", "--", "SCHEDULED:", "ab", "b", "abc", "abcabc"];
    for text in texts {
        for pattern in patterns {
            assert_eq!(
                find_chars(&chars_of(text), &chars_of(pattern)),
                text.find(pattern),
                "{:?} in {:?}",
                pattern,
                text
            );
        }
        assert_eq!(last_space_index(&chars_of(text)), text.rfind(char::is_whitespace));
    }
    assert_eq!(find_chars(&chars_of("\u{e9}\u{e9}=>"), &chars_of("=>")), Some(2));
    assert_eq!(last_space_index(&chars_of("\u{e9} \u{e9}\u{a0}x")), Some(3));
    assert_eq!(last_space_index(&chars_of("a b c")), Some(3));
}

#[test]
fn equal_characters_are_the_same_text() {
    assert!(same_chars(&chars_of(""), &chars_of("")));
    assert!(same_chars(&chars_of(":END:"), &chars_of(":END:")));
    assert!(!same_chars(&chars_of(":END:"), &chars_of(":END")));
    assert!(!same_chars(&chars_of(":END:"), &chars_of(":END;")));
}

#[test]
fn numbers_are_read_as_the_standard_library_reads_them() {
    let cases = [
        "", "0", "7", "007", "+7", "+", "-", "-7", "++7", "+-7", " 7", "7 ", "1_000", "4294967295",
        "4294967296", "04294967295", "99999999999999999999999999", "0x10", "\u{664}", "1e3", "+0",
    ];
    for s in cases {
        assert_eq!(parse_number(&chars_of(s)), s.parse::<u32>().ok(), "{:?}", s);
    }
}

#[test]
fn numbers_are_written_as_the_standard_library_writes_them() {
    for n in [0u64, 5, 9, 10, 42, 99, 100, 999, 1000, 2024, 9999, 10000, 4294967295, u64::MAX] {
        assert_eq!(string_of(&decimal_chars(n)), format!("{}", n));
        assert_eq!(string_of(&zero_padded_chars(n, 2)), format!("{:02}", n));
        assert_eq!(string_of(&zero_padded_chars(n, 4)), format!("{:04}", n));
        assert_eq!(string_of(&zero_padded_chars(n, 0)), format!("{}", n));
    }
}
