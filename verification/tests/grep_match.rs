use cpsl::grep_match::{trim_line_end, CollectSink, LiteralMatcher};
use cpsl::grep_search::{build_regex_matcher, GrepMode, MatchExtractor};

#[test]
fn trim_line_end_removes_one_line_end() {
    assert_eq!(trim_line_end(b"abc\n"), b"abc");
    assert_eq!(trim_line_end(b"abc\r\n"), b"abc");
    assert_eq!(trim_line_end(b"abc\r"), b"abc");
    assert_eq!(trim_line_end(b"abc\n\n"), b"abc\n");
    assert_eq!(trim_line_end(b"abc"), b"abc");
    assert_eq!(trim_line_end(b""), b"");
}

#[test]
fn literal_matcher_finds_first_match_at_or_after() {
    let m = LiteralMatcher::new(b"ab".to_vec());
    assert_eq!(m.find_at(b"xxabyab", 0), Some((2, 4)));
    assert_eq!(m.find_at(b"xxabyab", 3), Some((5, 7)));
    assert_eq!(m.find_at(b"xxabyab", 6), None);
    assert_eq!(m.find_at(b"xxabyab", 7), None);
    assert_eq!(m.find_at(b"xxabyab", 8), None);
    assert_eq!(m.line_terminator(), Some(b'\n'));
    assert_eq!(LiteralMatcher::new(b"a\nb".to_vec()).line_terminator(), None);
}

#[test]
fn collect_sink_keeps_valid_matches_up_to_max() {
    let mut sink = CollectSink::new(MatchExtractor::Plain(b"o".to_vec()), Some(2));
    assert!(sink.begin());
    assert!(sink.matched(b"hello world\r\n", Some(3)));
    assert!(sink.matched(b"matches\n", Some(4)));
    assert!(sink.matched(b"\xff bo\n", Some(5)));
    assert!(!sink.matched(b"second one\n", None));
    assert!(sink.is_full());
    assert!(!sink.begin());
    assert!(!sink.matched(b"third o\n", Some(9)));
    assert_eq!(sink.matches.len(), 2);
    assert_eq!(sink.matches[0].line_number, 3);
    assert_eq!(sink.matches[0].column, 5);
    assert_eq!(sink.matches[0].line, "hello world");
    assert_eq!(sink.matches[0].match_text, "o");
    assert_eq!(sink.matches[1].line_number, 0);
    assert_eq!(sink.matches[1].column, 4);
    assert_eq!(sink.matches[1].line, "second one");
}

#[test]
fn collect_sink_uses_regex_extractor() {
    let matcher = build_regex_matcher("w[a-z]+", GrepMode::Regex).ok().unwrap();
    let mut sink = CollectSink::new(MatchExtractor::Regex(matcher), None);
    assert!(sink.matched(b"hello world\n", Some(1)));
    assert_eq!(sink.matches.len(), 1);
    assert_eq!(sink.matches[0].column, 7);
    assert_eq!(sink.matches[0].match_text, "world");
}
