use lstodo::entry::{Entry, Timestamp};
use lstodo::error::LstodoError;
use lstodo::git::GitContext;
use lstodo::searcher::{filter_verdict, RegexSearcher, RegexSearcherBuilder, DEFAULT_REGEXS};
use lstodo::walk::WalkEntry;
use regex::RegexSet;

fn default_searcher() -> RegexSearcher {
    RegexSearcherBuilder::new("/tmp".to_owned()).add_rules(&DEFAULT_REGEXS).build().unwrap()
}

fn lines(text: &[&str]) -> Vec<String> {
    text.iter().map(|line| line.to_string()).collect()
}

fn at(secs: i64) -> Timestamp {
    Timestamp { secs, nanos: 0 }
}

#[test]
fn default_regexs() {
    let cases = vec![
        ("//todo", true),
        ("// todo", true),
        ("// TODO-123", true),
        ("//   TodO", true),
        ("not_a_todo", false),
    ];

    let regex = RegexSet::new(DEFAULT_REGEXS).unwrap();

    for (input, expected) in cases {
        assert_eq!(regex.matches(input).matched_any(), expected)
    }
}

#[test]
fn default_rules_through_the_searcher() {
    let searcher = default_searcher();
    let cases = vec![
        ("//todo", true),
        ("// todo", true),
        ("// TODO-123", true),
        ("//   TodO", true),
        ("not_a_todo", false),
        ("NOT A TODO MARKER", false),
        ("  //TODO", true),
        ("let x = 1; // todo: later", true),
        ("", false),
    ];
    for (input, expected) in cases {
        assert_eq!(searcher.matches(input), expected, "{:?}", input);
    }
}

#[test]
fn several_patterns_are_alternatives() {
    let searcher = RegexSearcherBuilder::new("/tmp".to_owned())
        .add_rules(&["FIXME"])
        .add_rules(&["XXX", "^#"])
        .build()
        .unwrap();
    assert!(searcher.matches("a FIXME here"));
    assert!(searcher.matches("XXX"));
    assert!(searcher.matches("# heading"));
    assert!(!searcher.matches("a # in the middle"));
    assert!(!searcher.matches("fixme"));
}

#[test]
fn no_pattern_matches_nothing() {
    let searcher = RegexSearcherBuilder::new("/tmp".to_owned()).build().unwrap();
    assert!(!searcher.matches("// TODO"));
    assert!(!searcher.matches(""));
}

#[test]
fn an_invalid_pattern_builds_nothing() {
    let built = RegexSearcherBuilder::new("/tmp".to_owned()).add_rules(&["ok", "(open"]).build();
    match built {
        Err(LstodoError::Pattern(_)) => {}
        Ok(_) => panic!("an invalid pattern was accepted"),
        Err(other) => panic!("unexpected error {:?}", other),
    }
}

#[test]
fn builder_keeps_root_and_context() {
    let searcher = RegexSearcherBuilder::new("/some/root".to_owned())
        .add_rules(&DEFAULT_REGEXS)
        .git_ctx(GitContext::new())
        .build()
        .unwrap();
    assert_eq!(searcher.root_dir(), "/some/root");
    assert!(searcher.git_context().is_some());
    assert!(searcher.covers_path("/anything"));
    assert!(searcher.into_git_context().is_some());
    let bare = default_searcher();
    assert!(bare.git_context().is_none());
    assert!(bare.covers_path("/anything"));
}

#[test]
fn one_match_on_line_three_without_repository() {
    let searcher = default_searcher();
    let mut results: Vec<Entry> = Vec::new();
    let text = lines(&["fn main() {", "    let x = 1;", "    // TODO: fix me", "}"]);
    searcher.search("/work/a.rs", &text, at(42), &mut results).unwrap();
    assert_eq!(results.len(), 1);
    assert_eq!(results[0].path, "/work/a.rs");
    assert_eq!(results[0].line_number, 3);
    assert_eq!(results[0].content, "// TODO: fix me");
    assert!(results[0].orig_commit().is_none());
    assert!(results[0].final_commit().is_none());
    assert_eq!(results[0].modified.secs, 42);
}

#[test]
fn records_follow_the_order_of_the_lines() {
    let searcher = RegexSearcherBuilder::new("/tmp".to_owned())
        .add_rules(&DEFAULT_REGEXS)
        .git_ctx(GitContext::new())
        .build()
        .unwrap();
    let mut results: Vec<Entry> = Vec::new();
    searcher.search("first.rs", &lines(&["//todo a", "x", "\t // TODO b"]), at(1), &mut results).unwrap();
    searcher.search("second.rs", &lines(&["NOT A TODO MARKER", "  //TODO"]), at(2), &mut results).unwrap();
    searcher.search("third.rs", &lines(&[]), at(3), &mut results).unwrap();
    let seen: Vec<(String, u64, String)> =
        results.iter().map(|e| (e.path.clone(), e.line_number, e.content.clone())).collect();
    assert_eq!(
        seen,
        vec![
            ("first.rs".to_string(), 1, "//todo a".to_string()),
            ("first.rs".to_string(), 3, "// TODO b".to_string()),
            ("second.rs".to_string(), 2, "//TODO".to_string()),
        ]
    );
    assert!(results.iter().all(|e| e.orig_commit().is_none() && e.final_commit().is_none()));
    assert_eq!(results[2].modified.secs, 2);
}

#[test]
fn filter_verdict_decides_from_the_answer() {
    assert_eq!(filter_verdict(true, false, Ok(false)).unwrap(), false);
    assert_eq!(filter_verdict(true, true, Ok(false)).unwrap(), false);
    assert_eq!(filter_verdict(false, true, Ok(true)).unwrap(), true);
    assert_eq!(filter_verdict(false, false, Ok(false)).unwrap(), true);
    assert_eq!(filter_verdict(false, false, Ok(true)).unwrap(), false);
    assert!(matches!(
        filter_verdict(false, false, Err(LstodoError::NotFound)),
        Err(LstodoError::NotFound)
    ));
    assert_eq!(filter_verdict(true, false, Err(LstodoError::NotFound)).unwrap(), false);
}

#[test]
fn file_filter_without_repository() {
    let hidden = WalkEntry { name: Some(".cache".to_string()), path: "/r/.cache".to_string(), is_dir: true };
    let plain = WalkEntry { name: Some("a.rs".to_string()), path: "/r/a.rs".to_string(), is_dir: false };
    let dir = WalkEntry { name: Some("src".to_string()), path: "/r/src".to_string(), is_dir: true };
    let odd = WalkEntry { name: None, path: "/r/\u{fffd}".to_string(), is_dir: false };
    let dotted = WalkEntry { name: Some("a.b".to_string()), path: "/r/a.b".to_string(), is_dir: false };
    assert!(hidden.is_hidden());
    assert!(!plain.is_hidden() && !dir.is_hidden() && !odd.is_hidden() && !dotted.is_hidden());
    for ctx in [None, Some(GitContext::new())] {
        assert_eq!(RegexSearcher::file_filter(&hidden, &ctx).unwrap(), false);
        assert_eq!(RegexSearcher::file_filter(&plain, &ctx).unwrap(), true);
        assert_eq!(RegexSearcher::file_filter(&dir, &ctx).unwrap(), true);
        assert_eq!(RegexSearcher::file_filter(&odd, &ctx).unwrap(), true);
        assert_eq!(RegexSearcher::file_filter(&dotted, &ctx).unwrap(), true);
    }
}
