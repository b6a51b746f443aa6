use terraform_module_data::label::{identifier_of, module_directory, split_words};
use terraform_module_data::number::{format_two_digits, format_u64, parse_i32, parse_u64};
use terraform_module_data::template::{substitute, substitute_chars};
use terraform_module_data::text::{
    chars_before, chars_of, push_all, push_str, same_chars, same_text, split_chars, string_of,
    text_before,
};
use terraform_module_data::{titlecase, EmptyLabel};

#[test]
fn titlecase_capitalizes_the_first_character() {
    assert_eq!(titlecase(String::from("all")), Ok(String::from("All")));
    assert_eq!(titlecase(String::from("views")), Ok(String::from("Views")));
    assert_eq!(titlecase(String::from("networking")), Ok(String::from("Networking")));
    assert_eq!(titlecase(String::from("x")), Ok(String::from("X")));
    assert_eq!(titlecase(String::from("Already")), Ok(String::from("Already")));
    assert_eq!(titlecase(String::from("two words")), Ok(String::from("Two words")));
    assert_eq!(titlecase(String::from("1st")), Ok(String::from("1st")));
    assert_eq!(titlecase(String::from("élan")), Ok(String::from("Élan")));
    assert_eq!(titlecase(String::from("ßa")), Ok(String::from("SSa")));
}

#[test]
fn titlecase_refuses_an_empty_label() {
    assert_eq!(titlecase(String::new()), Err(EmptyLabel));
}

#[test]
fn identifiers_are_lower_case_words_joined_by_underscores() {
    assert_eq!(identifier_of("All - Repository Clones"), "all_-_repository_clones");
    assert_eq!(identifier_of("  Two\t\nWORDS  "), "two_words");
    assert_eq!(identifier_of("One"), "one");
    assert_eq!(identifier_of(""), "");
    assert_eq!(identifier_of(" \u{a0}\u{2003} "), "");
    assert_eq!(identifier_of("A\u{3000}B"), "a_b");
    assert_eq!(identifier_of("ΌΣΟΣ ΌΣΟΣ"), "όσος_όσος");
}

#[test]
fn words_are_runs_without_whitespace() {
    assert_eq!(split_words("a  bc\td\n"), vec!["a", "bc", "d"]);
    assert_eq!(split_words("   "), Vec::<String>::new());
    assert_eq!(split_words("x"), vec!["x"]);
    let text = " The quick\u{85}brown\u{2028}fox \r\n jumps_over ";
    let expected: Vec<String> = text.split_whitespace().map(String::from).collect();
    assert_eq!(split_words(text), expected);
}

#[test]
fn module_directories_are_lower_case() {
    assert_eq!(module_directory("VPC"), "vpc");
    assert_eq!(module_directory("S3-Bucket"), "s3-bucket");
    assert_eq!(module_directory("eks"), "eks");
}

#[test]
fn unsigned_numbers_are_read_as_the_standard_library_reads_them() {
    let cases = [
        "0", "5", "05", "+5", "-5", "+", "-", "", " 5", "5 ", "1_000", "12a", "a12", "٣",
        "18446744073709551615", "18446744073709551616", "184467440737095516150",
        "000000000000000000000000000018446744073709551615", "++5", "+-5", "5.0", "0x10",
        "99999999999999999999", "+0", "+00018446744073709551615",
    ];
    for c in cases {
        assert_eq!(parse_u64(c), c.parse::<u64>().ok(), "{:?}", c);
    }
    assert_eq!(parse_u64("42"), Some(42));
    assert_eq!(parse_u64("18446744073709551615"), Some(u64::MAX));
}

#[test]
fn signed_numbers_are_read_as_the_standard_library_reads_them() {
    let cases = [
        "0", "-0", "+0", "16", "-16", "+16", "2147483647", "2147483648", "-2147483648",
        "-2147483649", "+2147483647", "", "-", "+", "--1", "-+1", "+-1", "1-", " 1", "1e3",
        "00000000000000000000002147483647", "-00000000000000000000002147483648", "15", "x",
        "99999999999999999999999999", "-99999999999999999999999999",
    ];
    for c in cases {
        assert_eq!(parse_i32(c), c.parse::<i32>().ok(), "{:?}", c);
    }
    assert_eq!(parse_i32("-2147483648"), Some(i32::MIN));
    assert_eq!(parse_i32("15"), Some(15));
}

#[test]
fn numbers_are_written_in_decimal() {
    for n in [0u64, 1, 9, 10, 11, 99, 100, 101, 12345, 1 << 32, u64::MAX - 1, u64::MAX] {
        assert_eq!(format_u64(n), n.to_string());
        assert_eq!(format_two_digits(n), format!("{:02}", n));
    }
    assert_eq!(format_u64(0), "0");
    assert_eq!(format_u64(1203), "1203");
    assert_eq!(format_two_digits(0), "00");
    assert_eq!(format_two_digits(5), "05");
    assert_eq!(format_two_digits(12), "12");
    assert_eq!(format_two_digits(123), "123");
}

#[test]
fn substitution_is_that_of_the_standard_library() {
    let cases = [
        ("{{ date }} and {{ date }}", "{{ date }}", "now"),
        ("aaa", "aa", "b"),
        ("aaaa", "aa", "a"),
        ("abc", "abc", ""),
        ("abc", "abcd", "x"),
        ("abc", "x", "y"),
        ("", "x", "y"),
        ("xxabxx", "x", "xx"),
        ("{{ a }}", "{{ a }}", "{{ b }}"),
        ("ab{{ a }", "{{ a }}", "z"),
        ("é{{x}}é", "{{x}}", "ü"),
        ("a.json.json", ".json", ""),
    ];
    for (text, pattern, value) in cases {
        assert_eq!(substitute(text, pattern, value), text.replace(pattern, value));
    }
    assert_eq!(substitute("a{{ x }}b", "{{ x }}", "-"), "a-b");
}

#[test]
fn an_empty_pattern_occurs_nowhere() {
    assert_eq!(substitute("abc", "", "x"), "abc");
    assert_eq!(substitute("", "", "x"), "");
    let s: Vec<char> = "abc".chars().collect();
    assert_eq!(substitute_chars(&s, &vec![], &vec!['x']), s);
}

#[test]
fn texts_are_ordered_as_strings_are() {
    let texts = [
        "", "a", "b", "aa", "ab", "A", "2024-01-01", "2024-01-02", "2023-12-31", "05", "100", "12",
        "é", "z", "~", "\u{10000}", "\u{ffff}", "ab\0",
    ];
    for a in texts {
        for b in texts {
            assert_eq!(text_before(a, b), a < b, "{:?} {:?}", a, b);
            assert_eq!(same_text(a, b), a == b, "{:?} {:?}", a, b);
            let x: Vec<char> = a.chars().collect();
            let y: Vec<char> = b.chars().collect();
            assert_eq!(chars_before(&x, &y), a < b);
            assert_eq!(same_chars(&x, &y), a == b);
        }
    }
}

#[test]
fn texts_are_taken_apart_and_put_together() {
    assert_eq!(chars_of("héllo"), vec!['h', 'é', 'l', 'l', 'o']);
    assert_eq!(chars_of(""), Vec::<char>::new());
    assert_eq!(string_of(&vec!['h', 'é', 'y']), "héy");
    let mut out = vec!['a'];
    push_all(&mut out, &vec!['b', 'c']);
    push_str(&mut out, "dé");
    assert_eq!(string_of(&out), "abcdé");
}

#[test]
fn texts_are_split_at_a_separator() {
    let split = |s: &str| -> Vec<String> {
        let chars: Vec<char> = s.chars().collect();
        split_chars(&chars, '.').iter().map(string_of).collect()
    };
    for s in ["1.2.3", "", ".", "..", "a", "a.", ".a", "1.0.0-beta.2", "a..b"] {
        let expected: Vec<String> = s.split('.').map(String::from).collect();
        assert_eq!(split(s), expected, "{:?}", s);
    }
    assert_eq!(split("1.22.3"), vec!["1", "22", "3"]);
}
