use md0::line::{blank, dashes, fence_end, match_fence, match_heading};
use md0::parser::split_lines;
use md0::text::{
    byte_offsets, chars_of, decimal_string, is_whitespace, join_strings, run_table, skip_run,
    string_of, width_of, CharClass,
};

fn chars(text: &str) -> Vec<char> {
    text.chars().collect()
}

#[test]
fn white_space_is_what_std_says() {
    let mut code: u32 = 0;
    while code <= 0x10FFFF {
        if let Some(c) = char::from_u32(code) {
            assert_eq!(is_whitespace(c), c.is_whitespace(), "U+{:04X}", code);
        }
        code += 1;
    }
}

#[test]
fn width_is_what_std_says() {
    let mut code: u32 = 0;
    while code <= 0x10FFFF {
        if let Some(c) = char::from_u32(code) {
            assert_eq!(width_of(c), c.len_utf8(), "U+{:04X}", code);
        }
        code += 1;
    }
}

#[test]
fn tag_characters() {
    let mut code: u32 = 0;
    while code < 0x300 {
        if let Some(c) = char::from_u32(code) {
            let expected = c.is_ascii_alphanumeric() || c == '+' || c == '-' || c == '_';
            assert_eq!(CharClass::Tag.contains(c), expected, "U+{:04X}", code);
        }
        code += 1;
    }
}

#[test]
fn classes_of_one_character() {
    assert!(CharClass::Only('#').contains('#'));
    assert!(!CharClass::Only('#').contains('-'));
    assert!(!CharClass::Except('#').contains('#'));
    assert!(CharClass::Except('#').contains('-'));
    assert!(CharClass::Space.contains('\t'));
    assert!(!CharClass::Space.contains('x'));
}

#[test]
fn characters_of_a_string() {
    assert_eq!(chars_of(""), Vec::<char>::new());
    assert_eq!(chars_of("a\u{e9}\u{1f600}"), vec!['a', '\u{e9}', '\u{1f600}']);
}

#[test]
fn string_of_a_range() {
    let v = chars("hello world");
    assert_eq!(string_of(&v, 0, 5), "hello");
    assert_eq!(string_of(&v, 6, 11), "world");
    assert_eq!(string_of(&v, 3, 3), "");
}

#[test]
fn runs() {
    let v = chars("###  x");
    assert_eq!(skip_run(&v, 0, CharClass::Only('#')), 3);
    assert_eq!(skip_run(&v, 3, CharClass::Space), 5);
    assert_eq!(skip_run(&v, 5, CharClass::Space), 5);
    assert_eq!(skip_run(&v, 0, CharClass::Except('x')), 5);
    assert_eq!(skip_run(&v, 0, CharClass::Except('y')), 6);
    assert_eq!(skip_run(&v, 6, CharClass::Space), 6);
}

#[test]
fn table_of_runs() {
    let v = chars("a]b]]");
    assert_eq!(run_table(&v, CharClass::Except(']')), vec![1, 1, 3, 3, 4]);
    assert_eq!(run_table(&v, CharClass::Only(']')), vec![0, 2, 2, 5, 5]);
    assert_eq!(run_table(&chars(""), CharClass::Space), Vec::<usize>::new());
}

#[test]
fn offsets_in_bytes() {
    let v = chars("a\u{e9}\u{4e2d}\u{1f600}z");
    assert_eq!(byte_offsets(&v), vec![0, 1, 3, 6, 10]);
}

#[test]
fn decimal_numerals() {
    assert_eq!(decimal_string(0), "0");
    assert_eq!(decimal_string(7), "7");
    assert_eq!(decimal_string(10), "10");
    assert_eq!(decimal_string(1234567890), "1234567890");
    assert_eq!(decimal_string(usize::MAX), usize::MAX.to_string());
}

#[test]
fn joined_strings() {
    assert_eq!(join_strings(&vec![], ", "), "");
    assert_eq!(join_strings(&vec!["a".to_string()], ", "), "a");
    assert_eq!(join_strings(&vec!["a".to_string(), "b".to_string(), "".to_string()], "-"), "a-b-");
}

#[test]
fn lines_of_a_text() {
    assert_eq!(split_lines(&chars("")), vec![chars("")]);
    assert_eq!(split_lines(&chars("a")), vec![chars("a")]);
    assert_eq!(split_lines(&chars("a\n")), vec![chars("a"), chars("")]);
    assert_eq!(split_lines(&chars("\n")), vec![chars(""), chars("")]);
    assert_eq!(split_lines(&chars("a\n\nb c\r\nd")), vec![
        chars("a"),
        chars(""),
        chars("b c\r"),
        chars("d")
    ]);
}

#[test]
fn lines_are_what_std_splits() {
    let texts = ["", "\n", "a", "a\nb", "\na\n\n", "x\ny\nz\n", "\n\n\n"];
    for text in texts {
        let expected: Vec<Vec<char>> = text.split('\n').map(|l| l.chars().collect()).collect();
        assert_eq!(split_lines(&chars(text)), expected);
    }
}

#[test]
fn blank_lines() {
    assert!(blank(&chars("")));
    assert!(blank(&chars(" \t\u{a0}\u{2003}")));
    assert!(!blank(&chars("  x ")));
}

#[test]
fn dash_lines() {
    assert!(dashes(&chars("---")));
    assert!(dashes(&chars("------")));
    assert!(!dashes(&chars("--")));
    assert!(!dashes(&chars("")));
    assert!(!dashes(&chars("--- ")));
    assert!(!dashes(&chars("-- -")));
}

#[test]
fn heading_lines() {
    assert_eq!(match_heading(&chars("# a")), Some((1, 2)));
    assert_eq!(match_heading(&chars("###   a")), Some((3, 6)));
    assert_eq!(match_heading(&chars("###### a")), Some((6, 7)));
    assert_eq!(match_heading(&chars("####### a")), None);
    assert_eq!(match_heading(&chars("#a")), None);
    assert_eq!(match_heading(&chars("# ")), None);
    assert_eq!(match_heading(&chars("#  ")), Some((1, 2)));
    assert_eq!(match_heading(&chars(" # a")), None);
    assert_eq!(match_heading(&chars("")), None);
}

#[test]
fn fence_lines() {
    assert_eq!(match_fence(&chars("```")), Some(3));
    assert_eq!(match_fence(&chars("```rust")), Some(7));
    assert_eq!(match_fence(&chars("```rust  ")), Some(7));
    assert_eq!(match_fence(&chars("```  ")), Some(3));
    assert_eq!(match_fence(&chars("``")), None);
    assert_eq!(match_fence(&chars("```a.b")), None);
    assert_eq!(match_fence(&chars("```a b")), None);
    assert_eq!(match_fence(&chars(" ```")), None);
    assert!(fence_end(&chars("```")));
    assert!(fence_end(&chars(" \t```  ")));
    assert!(!fence_end(&chars("````")));
    assert!(!fence_end(&chars("```a")));
    assert!(!fence_end(&chars("``")));
    assert!(!fence_end(&chars("")));
}
