use opensmtpd_filter_contentstrings::cli::{
    blame_user, ArgParser, Matcher, ParseArgsError, Request,
};
use opensmtpd_filter_contentstrings::cnt_iter::CounterIterator;
use opensmtpd_filter_contentstrings::protocol::{decode_line, record, respond};
use opensmtpd_filter_contentstrings::session::SessionStore;

/// A pattern file by its name and what it holds.
type PatternFile<'a> = (&'a str, &'a str);

/// Loads the blacklist that `args` name as the program does, with `files` in
/// the place of the file system. Returns the blacklist or the message that
/// the program would print.
fn load_blacklist(args: &[&str], files: &[PatternFile]) -> Result<Vec<Matcher>, String> {
    let mut args = CounterIterator::new(args.iter());
    let mut parser = ArgParser::new();
    let mut last = "";
    let mut request = Request::Argument;
    let outcome: Result<Vec<Matcher>, ParseArgsError> = loop {
        request = match request {
            Request::Argument => match args.next() {
                Some(arg) => {
                    last = arg;
                    parser.feed_argument(Some(last))
                }
                None => parser.feed_argument(None),
            },
            Request::Lines => match files.iter().find(|(name, _)| *name == last) {
                Some((_, text)) => {
                    parser.feed_lines(Ok(text.lines().map(|line| Ok(line.to_string())).collect()))
                }
                None => {
                    parser.feed_lines(Err("No such file or directory (os error 2)".to_string()))
                }
            },
            Request::Done => break Ok(parser.into_blacklist()),
            Request::Failed(err) => break Err(err),
        };
    };
    outcome.map_err(|err| blame_user(err, args.taken()))
}

/// Runs the filter on `input` as the agent would send it, with the
/// blacklist that `extra_args` name. Returns what the filter wrote to the
/// agent and to the diagnostic stream.
fn run_filter(extra_args: &[&str], files: &[PatternFile], input: &[u8]) -> (String, String) {
    let blacklist = match load_blacklist(extra_args, files) {
        Ok(blacklist) => blacklist,
        Err(message) => return (String::new(), format!("{}\n", message)),
    };
    let mut sessions = SessionStore::new();
    let mut stdout = Vec::new();
    let mut stderr = Vec::new();
    for line in input.split_inclusive(|&b| b == b'\n') {
        let event = decode_line(line);
        let reaction = respond(&event, &sessions, &blacklist);
        stderr.extend_from_slice(&reaction.diag);
        stdout.extend_from_slice(&reaction.out);
        record(&event, &mut sessions);
    }
    (
        String::from_utf8(stdout).unwrap(),
        String::from_utf8(stderr).unwrap(),
    )
}

/// Build the OpenSMTPD protocol lines for a complete mail transaction.
fn make_session_input(session: &str, token: &str, mail_lines: &[&str]) -> Vec<u8> {
    let mut input = String::new();
    input += "config|ready\n";
    input += &format!("report|1|1000|smtp-in|tx-begin|{}\n", session);
    for line in mail_lines {
        input += &format!(
            "filter|1|1000|smtp-in|data-line|{}|{}|{}\n",
            session, token, line
        );
    }
    // end-of-data marker
    input += &format!("filter|1|1000|smtp-in|data-line|{}|{}|.\n", session, token);
    input += &format!("filter|1|1000|smtp-in|commit|{}|{}\n", session, token);
    input.into_bytes()
}

#[test]
fn config_ready_registers_correctly() {
    let (stdout, _) = run_filter(&[], &[], b"config|ready\n");
    assert!(stdout.contains("register|report|smtp-in|tx-begin\n"));
    assert!(stdout.contains("register|filter|smtp-in|data-line\n"));
    assert!(stdout.contains("register|filter|smtp-in|commit\n"));
    assert!(stdout.contains("register|report|smtp-in|link-disconnect\n"));
    assert!(stdout.contains("register|ready\n"));
}

#[test]
fn clean_mail_is_allowed_with_empty_blacklist() {
    let input = make_session_input(
        "sess1",
        "tok1",
        &[
            "From: sender@example.com",
            "Subject: Hello",
            "",
            "This is a clean message.",
        ],
    );
    let (stdout, _) = run_filter(&[], &[], &input);
    assert!(stdout.contains("filter-result|sess1|tok1|proceed\n"));
}

#[test]
fn mail_with_blacklisted_literal_in_subject_is_rejected() {
    let files = [("filter_literal_subject.txt", "badword\n")];

    let input = make_session_input(
        "sess2",
        "tok2",
        &[
            "From: sender@example.com",
            "Subject: This contains badword here",
            "",
            "Normal body.",
        ],
    );
    let (stdout, stderr) = run_filter(&["literal", "filter_literal_subject.txt"], &files, &input);
    assert!(stdout.contains("filter-result|sess2|tok2|reject|550 Blacklisted keyphrase found\n"));
    assert_eq!(
        stderr,
        "Forbidden literal found in subject: badword\nDenying\n"
    );
}

#[test]
fn mail_without_blacklisted_literal_is_allowed() {
    let files = [("filter_no_match_literal.txt", "forbidden\n")];

    let input = make_session_input(
        "sess4",
        "tok4",
        &[
            "From: sender@example.com",
            "Subject: Normal subject",
            "",
            "This message is totally fine.",
        ],
    );
    let (stdout, _) = run_filter(&["literal", "filter_no_match_literal.txt"], &files, &input);
    assert!(stdout.contains("filter-result|sess4|tok4|proceed\n"));
}

#[test]
fn mail_matching_regex_in_body_only_is_allowed() {
    let files = [("filter_regex_blacklist.txt", r"sp[a@]m")];

    let input = make_session_input(
        "sess5",
        "tok5",
        &[
            "From: sender@example.com",
            "Subject: Normal",
            "",
            "Buy our sp@m product today!",
        ],
    );
    let (stdout, stderr) = run_filter(&["regex", "filter_regex_blacklist.txt"], &files, &input);
    assert!(stdout.contains("filter-result|sess5|tok5|proceed\n"));
    assert_eq!(stderr, "Allowing\n");
}

#[test]
fn mail_matching_regex_in_subject_is_rejected() {
    let files = [("filter_regex_blacklist.txt", r"sp[a@]m")];

    let input = make_session_input(
        "sess5",
        "tok5",
        &["From: sender@example.com", "Subject: Buy sp@m", "", "Body."],
    );
    let (stdout, stderr) = run_filter(&["regex", "filter_regex_blacklist.txt"], &files, &input);
    assert!(stdout.contains("filter-result|sess5|tok5|reject|550 Blacklisted keyphrase found\n"));
    assert_eq!(
        stderr,
        "Forbidden regex found in subject: sp[a@]m\nDenying\n"
    );
}

#[test]
fn data_lines_are_echoed_back() {
    let input = make_session_input(
        "sess6",
        "tok6",
        &[
            "From: sender@example.com",
            "Subject: Echo test",
            "",
            "Body.",
        ],
    );
    let (stdout, _) = run_filter(&[], &[], &input);
    assert!(stdout.contains("filter-dataline|sess6|tok6|From: sender@example.com\n"));
    assert!(stdout.contains("filter-dataline|sess6|tok6|Subject: Echo test\n"));
    assert!(stdout.contains("filter-dataline|sess6|tok6|.\n"));
}

#[test]
fn link_disconnect_removes_session() {
    // After link-disconnect the session should be cleaned up (no crash, no leftover data).
    let mut input = String::new();
    input += "config|ready\n";
    input += "report|1|1000|smtp-in|tx-begin|sess7\n";
    input += "filter|1|1000|smtp-in|data-line|sess7|tok7|From: x@x.com\n";
    input += "report|1|1000|smtp-in|link-disconnect|sess7\n";
    // commit after disconnect: session is gone, filter should still produce a result
    input += "filter|1|1000|smtp-in|commit|sess7|tok7\n";

    let (stdout, _) = run_filter(&[], &[], input.as_bytes());
    // After disconnect the session buffer is gone; commit treats missing session as allow
    assert!(stdout.contains("filter-result|sess7|tok7|proceed\n"));
}

#[test]
fn whole_session_is_answered_line_by_line() {
    let files = [("words.txt", "badword\n\nworse\n")];
    let input = make_session_input("s", "t", &["Subject: even worse", "", "badword"]);
    let (stdout, stderr) = run_filter(&["literal", "words.txt"], &files, &input);
    assert_eq!(
        stdout,
        "register|report|smtp-in|tx-begin\n\
register|filter|smtp-in|data-line\n\
register|filter|smtp-in|commit\n\
register|report|smtp-in|link-disconnect\n\
register|ready\n\
filter-dataline|s|t|Subject: even worse\n\
filter-dataline|s|t|\n\
filter-dataline|s|t|badword\n\
filter-dataline|s|t|.\n\
filter-result|s|t|reject|550 Blacklisted keyphrase found\n"
    );
    assert_eq!(
        stderr,
        "Forbidden literal found in subject: worse\nDenying\n"
    );
}

#[test]
fn unparsable_mail_is_reported_and_allowed() {
    let files = [("words.txt", "badword\n")];
    let mut input = String::new();
    input += "report|1|1000|smtp-in|tx-begin|sess8\n";
    input += "filter|1|1000|smtp-in|commit|sess8|tok8\n";
    let (stdout, stderr) = run_filter(&["literal", "words.txt"], &files, input.as_bytes());
    assert_eq!(stdout, "filter-result|sess8|tok8|proceed\n");
    assert_eq!(stderr, "Malformed eMail:\n.\nAllowing\n");
}

#[test]
fn faulty_command_line_starts_no_filter() {
    let files = [("words.txt", "badword\n"), ("patterns.txt", "a+\n\n(\n")];
    let input = b"config|ready\n";

    assert_eq!(
        run_filter(&["literal", "words.txt", "glob", "words.txt"], &files, input),
        (
            String::new(),
            "Unknown kind of pattern (CLI argument #3), expected \"literal\"/\"regex\".\n"
                .to_string()
        )
    );
    assert_eq!(
        run_filter(&["literal", "words.txt", "regex"], &files, input),
        (
            String::new(),
            "Unexpected end of CLI arguments, expected file.\n".to_string()
        )
    );
    assert_eq!(
        run_filter(&["literal", ""], &files, input),
        (
            String::new(),
            "Illegal empty string (CLI argument #2), expected file.\n".to_string()
        )
    );
    assert_eq!(
        run_filter(&["regex", "missing.txt"], &files, input),
        (
            String::new(),
            "Inaccessible file (CLI argument #2), error: No such file or directory (os error 2)\n"
                .to_string()
        )
    );
    let (stdout, stderr) = run_filter(
        &["literal", "words.txt", "regex", "patterns.txt"],
        &files,
        input,
    );
    assert_eq!(stdout, "");
    assert_eq!(
        stderr,
        format!(
            "Invalid regular expression (CLI argument #4, line #3): {}\n",
            regex::Regex::new("(").unwrap_err()
        )
    );
}
