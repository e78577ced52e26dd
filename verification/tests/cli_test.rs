use opensmtpd_filter_contentstrings::cli::{
    blame_user, enlist_pattern, matcher_kind, require_lines, ArgParser, Matcher, MatcherKind,
    ParseArgsError, Pattern, Request,
};
use opensmtpd_filter_contentstrings::cnt_iter::CounterIterator;
use opensmtpd_filter_contentstrings::util::scan_content;

/// The matchers as texts, each with its kind in front.
fn show(blacklist: &Vec<Matcher>) -> Vec<String> {
    blacklist
        .iter()
        .map(|matcher| match matcher {
            Matcher::Literal(text) => format!("literal {}", text),
            Matcher::RegExp(pattern) => format!("regex {}", pattern.as_str()),
        })
        .collect()
}

fn lines(texts: &[&str]) -> Vec<Result<String, String>> {
    texts.iter().map(|text| Ok(text.to_string())).collect()
}

#[test]
fn blame_user_names_the_argument() {
    assert_eq!(
        blame_user(ParseArgsError::UnknownMatcher, 3),
        "Unknown kind of pattern (CLI argument #3), expected \"literal\"/\"regex\"."
    );
    assert_eq!(
        blame_user(ParseArgsError::NoFile, 3),
        "Unexpected end of CLI arguments, expected file."
    );
    assert_eq!(
        blame_user(ParseArgsError::EmptyName, 2),
        "Illegal empty string (CLI argument #2), expected file."
    );
    assert_eq!(
        blame_user(
            ParseArgsError::BadFile("No such file or directory (os error 2)".to_string()),
            4
        ),
        "Inaccessible file (CLI argument #4), error: No such file or directory (os error 2)"
    );
    assert_eq!(
        blame_user(
            ParseArgsError::BadLine(17, "stream did not contain valid UTF-8".to_string()),
            2
        ),
        "File read error (CLI argument #2, line #17): stream did not contain valid UTF-8"
    );
    assert_eq!(
        blame_user(ParseArgsError::BadRegex(5, "oops".to_string()), 10),
        "Invalid regular expression (CLI argument #10, line #5): oops"
    );
}

#[test]
fn blame_user_writes_numbers_in_decimal() {
    for n in [0usize, 1, 9, 10, 11, 99, 100, 101, 120, 1000, 90909, 1234567890, usize::MAX] {
        assert_eq!(
            blame_user(ParseArgsError::EmptyName, n),
            format!("Illegal empty string (CLI argument #{}), expected file.", n)
        );
        assert_eq!(
            blame_user(ParseArgsError::BadLine(n, "e".to_string()), 7),
            format!("File read error (CLI argument #7, line #{}): e", n)
        );
    }
}

#[test]
fn matcher_kind_knows_two_words() {
    assert!(matches!(matcher_kind("literal"), Some(MatcherKind::Literal)));
    assert!(matches!(matcher_kind("regex"), Some(MatcherKind::RegExp)));
    for word in ["", "Literal", "regexp", "literal ", "regex\n", "lit"] {
        assert!(matcher_kind(word).is_none());
    }
}

#[test]
fn pattern_is_compiled_by_the_engine() {
    let pattern = Pattern::compile("sp[a@]m".to_string()).unwrap();
    assert_eq!(pattern.as_str(), "sp[a@]m");
    assert!(pattern.found_in("Buy our sp@m product today!"));
    assert!(pattern.found_in("spam"));
    assert!(!pattern.found_in("sp[a@]m"));
    assert!(!pattern.found_in("Normal"));
    assert!(!pattern.found_in(""));

    let anchored = Pattern::compile("^a+$".to_string()).unwrap();
    assert!(anchored.found_in("aaa"));
    assert!(!anchored.found_in("baaa"));

    let empty = Pattern::compile(String::new()).unwrap();
    assert!(empty.found_in(""));
    assert!(empty.found_in("x"));
}

#[test]
fn pattern_with_a_fault_is_refused_with_the_complaint() {
    let complaint = match Pattern::compile("foo(bar".to_string()) {
        Ok(_) => panic!("accepted"),
        Err(why) => why,
    };
    assert_eq!(complaint, regex::Regex::new("foo(bar").unwrap_err().to_string());
    assert!(complaint.contains("unclosed group"));
    assert!(Pattern::compile("\\w{1000}".to_string()).is_err());
}

#[test]
fn matcher_matches_as_its_kind_says() {
    let literal = Matcher::Literal("sp[a@]m".to_string());
    assert!(literal.matches("the text sp[a@]m"));
    assert!(!literal.matches("spam"));
    assert!(!literal.matches("SP[A@]M"));
    let regexp = Matcher::RegExp(Pattern::compile("sp[a@]m".to_string()).unwrap());
    assert!(regexp.matches("spam"));
    assert!(!regexp.matches("sp[a@]m"));
    let umlaut = Matcher::Literal("\u{fc}".to_string());
    assert!(umlaut.matches("gr\u{fc}n"));
    assert!(!umlaut.matches("gr\u{f6}n"));
}

#[test]
fn note_writes_a_match_and_withdraws_allow() {
    let literal = Matcher::Literal("badword".to_string());
    let regexp = Matcher::RegExp(Pattern::compile("b.d".to_string()).unwrap());

    let mut allow = true;
    let mut std_err = b"x".to_vec();
    literal.note(false, "subject", &mut allow, &mut std_err);
    assert!(allow);
    assert_eq!(std_err, b"x");

    literal.note(true, "subject", &mut allow, &mut std_err);
    assert!(!allow);
    assert_eq!(std_err, b"xForbidden literal found in subject: badword\n");

    regexp.note(false, "body", &mut allow, &mut std_err);
    assert!(!allow);

    let mut std_err = Vec::new();
    regexp.note(true, "body", &mut allow, &mut std_err);
    assert!(!allow);
    assert_eq!(std_err, b"Forbidden regex found in body: b.d\n");
}

#[test]
fn scan_content_tries_every_matcher() {
    let blacklist = vec![
        Matcher::Literal("one".to_string()),
        Matcher::RegExp(Pattern::compile("t.o".to_string()).unwrap()),
        Matcher::Literal("three".to_string()),
    ];
    let mut allow = true;
    let mut std_err = Vec::new();
    scan_content(Some("one two"), "subject", &blacklist, &mut allow, &mut std_err);
    assert!(!allow);
    assert_eq!(
        std_err,
        b"Forbidden literal found in subject: one\nForbidden regex found in subject: t.o\n"
    );

    let mut allow = true;
    let mut std_err = Vec::new();
    scan_content(Some("four"), "subject", &blacklist, &mut allow, &mut std_err);
    assert!(allow);
    assert_eq!(std_err, b"");
}

#[test]
fn scan_content_skips_an_absent_text() {
    let blacklist = vec![Matcher::Literal(String::new())];
    let mut allow = true;
    let mut std_err = Vec::new();
    scan_content(None, "subject", &blacklist, &mut allow, &mut std_err);
    assert!(allow);
    assert_eq!(std_err, b"");

    scan_content(Some(""), "subject", &blacklist, &mut allow, &mut std_err);
    assert!(!allow);
    assert_eq!(std_err, b"Forbidden literal found in subject: \n");
}

#[test]
fn scan_content_never_gives_allow_back() {
    let mut allow = false;
    let mut std_err = Vec::new();
    scan_content(Some("fine"), "subject", &vec![], &mut allow, &mut std_err);
    assert!(!allow);
}

#[test]
fn enlist_pattern_takes_what_the_engine_made() {
    let mut blacklist = vec![Matcher::Literal("first".to_string())];
    let made = Pattern::compile("a+".to_string());
    assert_eq!(enlist_pattern(made, 3, &mut blacklist), Ok(()));
    assert_eq!(show(&blacklist), ["literal first", "regex a+"]);

    assert_eq!(
        enlist_pattern(Err("no pattern".to_string()), 4, &mut blacklist),
        Err(ParseArgsError::BadRegex(4, "no pattern".to_string()))
    );
    assert_eq!(show(&blacklist), ["literal first", "regex a+"]);
}

#[test]
fn require_lines_adds_a_matcher_per_line() {
    let mut blacklist = vec![Matcher::Literal("first".to_string())];
    let outcome = require_lines(
        MatcherKind::Literal,
        &lines(&["badword", "", "sp[a@]m", "foo(bar", " "]),
        &mut blacklist,
    );
    assert!(outcome.is_ok());
    assert_eq!(
        show(&blacklist),
        ["literal first", "literal badword", "literal sp[a@]m", "literal foo(bar", "literal  "]
    );

    let outcome = require_lines(MatcherKind::RegExp, &lines(&["", "sp[a@]m", ""]), &mut blacklist);
    assert!(outcome.is_ok());
    assert_eq!(show(&blacklist).last().unwrap(), "regex sp[a@]m");
    assert_eq!(blacklist.len(), 6);
}

#[test]
fn require_lines_stops_at_the_first_fault() {
    let mut blacklist = Vec::new();
    let outcome = require_lines(
        MatcherKind::RegExp,
        &lines(&["a+", "", "foo(bar", "b+", "x("]),
        &mut blacklist,
    );
    assert_eq!(
        outcome,
        Err(ParseArgsError::BadRegex(
            3,
            regex::Regex::new("foo(bar").unwrap_err().to_string()
        ))
    );
    assert_eq!(show(&blacklist), ["regex a+"]);

    let mut blacklist = Vec::new();
    let read = vec![
        Ok("a".to_string()),
        Err("stream did not contain valid UTF-8".to_string()),
        Ok("b".to_string()),
    ];
    assert_eq!(
        require_lines(MatcherKind::Literal, &read, &mut blacklist),
        Err(ParseArgsError::BadLine(
            2,
            "stream did not contain valid UTF-8".to_string()
        ))
    );
    assert_eq!(show(&blacklist), ["literal a"]);
}

#[test]
fn arg_parser_loads_pairs_of_kind_and_file() {
    let mut parser = ArgParser::new();
    assert_eq!(parser.feed_argument(Some("literal")), Request::Argument);
    assert_eq!(parser.feed_argument(Some("words.txt")), Request::Lines);
    assert_eq!(
        parser.feed_lines(Ok(lines(&["badword", "", "worse"]))),
        Request::Argument
    );
    assert_eq!(parser.feed_argument(Some("regex")), Request::Argument);
    assert_eq!(parser.feed_argument(Some("literal")), Request::Lines);
    assert_eq!(parser.feed_lines(Ok(lines(&["sp[a@]m"]))), Request::Argument);
    assert_eq!(parser.feed_argument(None), Request::Done);
    assert_eq!(
        show(&parser.into_blacklist()),
        ["literal badword", "literal worse", "regex sp[a@]m"]
    );
}

#[test]
fn arg_parser_without_arguments_is_done_at_once() {
    let mut parser = ArgParser::new();
    assert_eq!(parser.feed_argument(None), Request::Done);
    assert!(parser.into_blacklist().is_empty());
}

#[test]
fn arg_parser_reports_each_fault() {
    let mut parser = ArgParser::new();
    assert_eq!(
        parser.feed_argument(Some("glob")),
        Request::Failed(ParseArgsError::UnknownMatcher)
    );

    let mut parser = ArgParser::new();
    assert_eq!(parser.feed_argument(Some("regex")), Request::Argument);
    assert_eq!(
        parser.feed_argument(None),
        Request::Failed(ParseArgsError::NoFile)
    );

    let mut parser = ArgParser::new();
    assert_eq!(parser.feed_argument(Some("literal")), Request::Argument);
    assert_eq!(
        parser.feed_argument(Some("")),
        Request::Failed(ParseArgsError::EmptyName)
    );

    let mut parser = ArgParser::new();
    parser.feed_argument(Some("literal"));
    parser.feed_argument(Some("missing.txt"));
    assert_eq!(
        parser.feed_lines(Err("No such file or directory (os error 2)".to_string())),
        Request::Failed(ParseArgsError::BadFile(
            "No such file or directory (os error 2)".to_string()
        ))
    );

    let mut parser = ArgParser::new();
    parser.feed_argument(Some("literal"));
    parser.feed_argument(Some("broken.txt"));
    assert_eq!(
        parser.feed_lines(Ok(vec![Err("bad bytes".to_string())])),
        Request::Failed(ParseArgsError::BadLine(1, "bad bytes".to_string()))
    );

    let mut parser = ArgParser::new();
    parser.feed_argument(Some("regex"));
    parser.feed_argument(Some("patterns.txt"));
    assert_eq!(
        parser.feed_lines(Ok(lines(&["", "a+", "(", ")"]))),
        Request::Failed(ParseArgsError::BadRegex(
            3,
            regex::Regex::new("(").unwrap_err().to_string()
        ))
    );
}

#[test]
fn arg_parser_fails_behind_a_loaded_file_as_at_the_start() {
    let mut parser = ArgParser::new();
    parser.feed_argument(Some("literal"));
    parser.feed_argument(Some("words.txt"));
    parser.feed_lines(Ok(lines(&["badword"])));
    assert_eq!(
        parser.feed_argument(Some("words.txt")),
        Request::Failed(ParseArgsError::UnknownMatcher)
    );
}

#[test]
fn arg_parser_asks_again_for_what_it_waits_for() {
    let mut parser = ArgParser::new();
    assert_eq!(parser.feed_lines(Ok(lines(&["lost"]))), Request::Argument);
    parser.feed_argument(Some("literal"));
    assert_eq!(parser.feed_lines(Ok(lines(&["lost"]))), Request::Argument);
    parser.feed_argument(Some("words.txt"));
    assert_eq!(parser.feed_argument(Some("regex")), Request::Lines);
    assert_eq!(parser.feed_lines(Ok(lines(&["kept"]))), Request::Argument);
    assert_eq!(show(&parser.into_blacklist()), ["literal kept"]);
}

#[test]
fn counter_iterator_counts_what_it_hands_out() {
    let mut ci = CounterIterator::new(vec!["a", "b", "c"].into_iter());
    assert_eq!(ci.taken(), 0);
    assert_eq!(ci.next(), Some("a"));
    assert_eq!(ci.taken(), 1);
    assert_eq!(ci.next(), Some("b"));
    assert_eq!(ci.next(), Some("c"));
    assert_eq!(ci.taken(), 3);
    assert_eq!(ci.next(), None);
    assert_eq!(ci.next(), None);
    assert_eq!(ci.taken(), 3);
}

#[test]
fn counter_iterator_over_nothing_stays_at_zero() {
    let mut ci = CounterIterator::new(Vec::<u8>::new().into_iter());
    assert_eq!(ci.next(), None);
    assert_eq!(ci.taken(), 0);
}
