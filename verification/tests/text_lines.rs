use ffgl_sources::text_lines::{chars_of, count_lines, has_nul, line_at, line_bounds, line_count, lines_of};

#[test]
fn empty_text_is_one_empty_line() {
    assert_eq!(line_count(""), 1);
    assert_eq!(lines_of(""), vec![String::new()]);
    assert_eq!(line_at("", 0), "");
}

#[test]
fn lines_match_str_split() {
    let samples = ["Hello World", "a\nb", "a\n", "\n", "one\ntwo\nthree", "\n\nx\n", "héllo\nwörld"];
    for s in samples {
        let expected: Vec<String> = s.split('\n').map(|l| l.to_string()).collect();
        assert_eq!(lines_of(s), expected);
        assert_eq!(line_count(s), expected.len());
        for (k, l) in expected.iter().enumerate() {
            assert_eq!(&line_at(s, k), l);
        }
    }
}

#[test]
fn trailing_newline_adds_empty_line() {
    assert_eq!(lines_of("a\n"), vec!["a".to_string(), String::new()]);
    assert_eq!(line_count("a\n"), 2);
}

#[test]
fn line_bounds_are_char_positions() {
    let chars = chars_of("ab\ncdé\nf");
    assert_eq!(line_bounds(&chars, 0), (0, 2));
    assert_eq!(line_bounds(&chars, 1), (3, 6));
    assert_eq!(line_bounds(&chars, 2), (7, 8));
    assert_eq!(count_lines(&chars), 3);
}

#[test]
fn join_of_lines_gives_text_back() {
    let s = "x\n\ny z\n";
    assert_eq!(lines_of(s).join("\n"), s);
}

#[test]
fn nul_is_found() {
    assert!(has_nul(&chars_of("a\0b")));
    assert!(!has_nul(&chars_of("ab")));
}
