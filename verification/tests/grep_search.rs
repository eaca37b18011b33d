use cpsl::grep_search::{
    build_regex_matcher, check_pattern, compile_glob, grep_mode_from, keeps_file, ripgrep_hit,
    virtual_file_path, FileHit, GrepCollector, GrepError, GrepMode, GrepRequest, GrepResult,
    MatchExtractor,
};

fn hit(n: u64, line: &str, text: &str) -> FileHit {
    FileHit { line_number: n, line: line.to_string(), match_text: text.to_string(), column: Some(1) }
}

fn request(pattern: &str) -> GrepRequest {
    GrepRequest {
        pattern: pattern.to_string(),
        path: "/workspace".to_string(),
        mode: GrepMode::Plain,
        glob: None,
        max_count: None,
        files_only: false,
    }
}

#[test]
fn grep_mode_defaults_to_regex() {
    assert!(matches!(grep_mode_from(None, "fs.grep"), Ok(GrepMode::Regex)));
    assert!(matches!(grep_mode_from(Some("regex"), "fs.grep"), Ok(GrepMode::Regex)));
    assert!(matches!(grep_mode_from(Some("plain"), "fs.grep"), Ok(GrepMode::Plain)));
    match grep_mode_from(Some("fuzzy"), "fs.grep") {
        Err(e) => assert_eq!(e, "fs.grep: unsupported mode 'fuzzy' (supported: regex, plain)"),
        Ok(_) => panic!("fuzzy mode accepted"),
    }
}

#[test]
fn grep_error_messages_name_the_function() {
    assert_eq!(GrepError::InvalidGlob("bad".to_string()).message("fs.grep"), "fs.grep: invalid glob: bad");
    assert_eq!(
        GrepError::InvalidPattern("bad".to_string()).message("fff.grep"),
        "fff.grep: invalid pattern: bad"
    );
    assert_eq!(GrepError::Usage("oops".to_string()).message("fff.grep"), "fff.grep: oops");
    assert_eq!(GrepError::Search("io".to_string()).message("fff.grep"), "fff.grep: io");
    assert_eq!(GrepError::Mount("not found: /x".to_string()).message("fs.grep"), "not found: /x");
}

#[test]
fn empty_pattern_is_refused() {
    assert!(check_pattern(&request("TODO")).is_ok());
    match check_pattern(&request("")) {
        Err(e) => assert_eq!(e.message("fff.grep"), "fff.grep: field 'pattern' must not be empty"),
        Ok(_) => panic!("empty pattern accepted"),
    }
}

#[test]
fn virtual_paths_join_with_one_slash() {
    assert_eq!(virtual_file_path("/workspace", ""), "/workspace");
    assert_eq!(virtual_file_path("/workspace", "src/a.rs"), "/workspace/src/a.rs");
    assert_eq!(virtual_file_path("/workspace/", "a.rs"), "/workspace/a.rs");
}

#[test]
fn glob_filters_file_names() {
    let glob = compile_glob("*.rs").ok().unwrap();
    assert!(keeps_file(Some(&glob), Some("main.rs")));
    assert!(!keeps_file(Some(&glob), Some("main.py")));
    assert!(!keeps_file(Some(&glob), None));
    assert!(keeps_file(None, Some("main.py")));
    assert!(keeps_file(None, None));
    match compile_glob("a[") {
        Err(GrepError::InvalidGlob(_)) => {}
        _ => panic!("unclosed class accepted"),
    }
}

#[test]
fn matchers_find_first_match() {
    let plain = MatchExtractor::Plain(b"a.c".to_vec());
    assert_eq!(plain.find(b"xxabc a.c"), Some((6, 9)));
    assert_eq!(plain.find(b"abc"), None);
    let regex = MatchExtractor::Regex(build_regex_matcher("a.c", GrepMode::Regex).ok().unwrap());
    assert_eq!(regex.find(b"xxabc a.c"), Some((2, 5)));
    let fixed = MatchExtractor::Regex(build_regex_matcher("a.c", GrepMode::Plain).ok().unwrap());
    assert_eq!(fixed.find(b"xxabc a.c"), Some((6, 9)));
    match build_regex_matcher("(", GrepMode::Regex) {
        Err(GrepError::InvalidPattern(_)) => {}
        _ => panic!("unbalanced pattern accepted"),
    }
    assert!(build_regex_matcher("(", GrepMode::Plain).is_ok());
}

#[test]
fn collector_stops_at_max_count() {
    let mut c = GrepCollector::new();
    assert!(c.wants_more(Some(3)));
    assert_eq!(c.remaining(Some(3), false), Some(3));
    assert!(c.file_done(Some(3), false, false, "/a", vec![hit(1, "x", "x"), hit(2, "y", "y")]));
    assert_eq!(c.remaining(Some(3), false), Some(1));
    assert!(!c.file_done(Some(3), false, false, "/b", vec![hit(5, "z", "z"), hit(6, "w", "w")]));
    assert_eq!(c.results.len(), 3);
    match &c.results[2] {
        GrepResult::Match(m) => {
            assert_eq!(m.file, "/b");
            assert_eq!(m.line_number, 5);
            assert_eq!(m.line, "z");
        }
        GrepResult::File(_) => panic!("file result in line mode"),
    }
    assert!(!c.wants_more(Some(3)));
    assert!(!c.file_done(Some(3), false, false, "/c", vec![hit(1, "q", "q")]));
    assert_eq!(c.results.len(), 3);
    assert_eq!(c.remaining(Some(3), false), Some(0));
    assert_eq!(c.remaining(None, false), None);
    assert_eq!(c.remaining(Some(3), true), Some(1));
}

#[test]
fn collector_lists_files_once() {
    let mut c = GrepCollector::new();
    assert!(c.file_done(None, true, true, "/a", vec![hit(1, "x", "x"), hit(2, "y", "y")]));
    assert!(c.file_done(None, true, true, "/b", vec![]));
    assert!(c.file_done(None, true, true, "/a", vec![hit(3, "x", "x")]));
    assert_eq!(c.results.len(), 1);
    assert!(c.file_done(None, true, false, "/a", vec![hit(3, "x", "x")]));
    assert_eq!(c.results.len(), 2);
    assert!(!GrepCollector::new().file_done(Some(0), true, false, "/a", vec![hit(1, "x", "x")]));
}

#[test]
fn ripgrep_hits_trim_line_ends() {
    let h = ripgrep_hit(7, "say hello\r\n", Some((4, 9)));
    assert_eq!(h.line_number, 7);
    assert_eq!(h.line, "say hello");
    assert_eq!(h.match_text, "hello");
    assert_eq!(h.column, None);
    let h = ripgrep_hit(8, "a\n\n", None);
    assert_eq!(h.line, "a");
    assert_eq!(h.match_text, "");
}
