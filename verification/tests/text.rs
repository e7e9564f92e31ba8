use esrafel::text::{characters, parse_i32, parse_usize, split_lines, split_words, white_space};

fn chars(text: &str) -> Vec<char> {
    text.chars().collect()
}

fn texts(parts: Vec<Vec<char>>) -> Vec<String> {
    parts.into_iter().map(|part| part.into_iter().collect()).collect()
}

#[test]
fn white_space_is_what_the_standard_library_calls_so() {
    for code in 0..=0x10FFFFu32 {
        if let Some(c) = char::from_u32(code) {
            assert_eq!(white_space(c), c.is_whitespace(), "U+{:04X}", code);
        }
    }
    assert!(white_space(' '));
    assert!(white_space('\t'));
    assert!(white_space('\n'));
    assert!(white_space('\r'));
    assert!(white_space('\u{3000}'));
    assert!(!white_space('a'));
    assert!(!white_space('\u{200B}'));
}

#[test]
fn the_characters_of_a_text() {
    assert_eq!(characters(""), Vec::<char>::new());
    assert_eq!(characters("a b"), vec!['a', ' ', 'b']);
    assert_eq!(characters("µT\n"), vec!['µ', 'T', '\n']);
}

#[test]
fn lines_are_split_as_the_standard_library_splits_them() {
    let samples = [
        "",
        "a",
        "a\n",
        "a\nb",
        "a\nb\n",
        "\n",
        "\n\n",
        "a\n\nb",
        "a\n\n",
        "\na",
        " a b \n c ",
        "x\ny\nz\n\n\n",
    ];
    for sample in samples {
        let expected: Vec<String> = sample.lines().map(|line| line.to_string()).collect();
        assert_eq!(texts(split_lines(&chars(sample))), expected, "{:?}", sample);
    }
    // A carriage return stays in its line.
    assert_eq!(texts(split_lines(&chars("a\r\nb\r"))), vec!["a\r", "b\r"]);
}

#[test]
fn words_are_split_as_the_standard_library_splits_them() {
    let samples = [
        "",
        " ",
        "a",
        " a",
        "a ",
        "  a  ",
        "a b",
        "a  b",
        "\ta\u{00a0}b\u{2003}c\r",
        "index            Field [G]         Intensity []",
        "1              3262.75      4600.7724609375",
        "a\nb",
        "\u{200B}x",
    ];
    for sample in samples {
        let expected: Vec<String> =
            sample.split_whitespace().map(|word| word.to_string()).collect();
        assert_eq!(texts(split_words(&chars(sample))), expected, "{:?}", sample);
    }
}

fn number_samples() -> Vec<String> {
    let mut samples: Vec<String> = vec![
        "", "0", "7", "007", "+7", "-7", "+0", "-0", "+", "-", "++7", "--7", "+-7", "7+", "7-",
        " 7", "7 ", "7.0", "7e3", "0x10", "a", "1a", "a1", "１２", "٣", "1_000", "1,000",
        "2147483647", "2147483648", "-2147483648", "-2147483649", "+2147483647", "+2147483648",
        "4294967295", "4294967296", "18446744073709551615", "18446744073709551616",
        "+18446744073709551615", "-18446744073709551615", "99999999999999999999999999",
        "-99999999999999999999999999", "000000000000000000000000000000000001",
        "-000000000000000000000000002147483648", "9223372036854775807", "9223372036854775808",
    ]
    .into_iter()
    .map(|text| text.to_string())
    .collect();
    for number in -120i64..=120 {
        samples.push(number.to_string());
    }
    for shift in 0..64 {
        for near in [-1i128, 0, 1] {
            samples.push(((1i128 << shift) + near).to_string());
            samples.push((-(1i128 << shift) + near).to_string());
        }
    }
    samples
}

#[test]
fn sizes_are_read_as_the_standard_library_reads_them() {
    for sample in number_samples() {
        assert_eq!(parse_usize(&chars(&sample)), sample.parse::<usize>().ok(), "{:?}", sample);
    }
    assert_eq!(parse_usize(&chars("42")), Some(42));
    assert_eq!(parse_usize(&chars("+42")), Some(42));
    assert_eq!(parse_usize(&chars("-42")), None);
    assert_eq!(parse_usize(&chars("-0")), None);
    assert_eq!(parse_usize(&chars("18446744073709551615")), Some(usize::MAX));
    assert_eq!(parse_usize(&chars("18446744073709551616")), None);
}

#[test]
fn integers_are_read_as_the_standard_library_reads_them() {
    for sample in number_samples() {
        assert_eq!(parse_i32(&chars(&sample)), sample.parse::<i32>().ok(), "{:?}", sample);
    }
    assert_eq!(parse_i32(&chars("42")), Some(42));
    assert_eq!(parse_i32(&chars("+42")), Some(42));
    assert_eq!(parse_i32(&chars("-42")), Some(-42));
    assert_eq!(parse_i32(&chars("-0")), Some(0));
    assert_eq!(parse_i32(&chars("2147483647")), Some(i32::MAX));
    assert_eq!(parse_i32(&chars("2147483648")), None);
    assert_eq!(parse_i32(&chars("-2147483648")), Some(i32::MIN));
    assert_eq!(parse_i32(&chars("-2147483649")), None);
}
