//! The blacklist and how it is loaded from the command line.

use crate::bytes::{append_text, contains_bytes, lemma_occurs_encoded, occurs_in, same_text};
use crate::engines::{regex_compiles, regex_complaint, regex_finds, regex_search};
use vstd::prelude::*;
use vstd::string::*;
use vstd::utf8::encode_utf8;

verus! {

/// A regular expression that the engine accepts, kept as its source text.
/// The engine compiles it for each search.
#[derive(Debug)]
pub struct Pattern {
    source: String,
}

impl View for Pattern {
    type V = Seq<char>;

    /// The source text.
    closed spec fn view(&self) -> Seq<char> {
        self.source@
    }
}

impl Pattern {
    #[verifier::type_invariant]
    spec fn accepted(&self) -> bool {
        regex_compiles(self.source@)
    }

    /// Accepts `source` where the engine can search with it, which a search
    /// of the empty text shows, and returns the engine's complaint where it
    /// cannot.
    pub fn compile(source: String) -> (made: Result<Pattern, String>)
        ensures
            made is Ok <==> regex_compiles(source@),
            made matches Ok(pattern) ==> pattern@ == source@,
            made matches Err(why) ==> why@ == regex_complaint(source@),
    {
        match regex_search(source.as_str(), "") {
            Ok(_) => Ok(Pattern { source }),
            Err(why) => Err(why),
        }
    }

    /// The source text.
    pub fn as_str(&self) -> (source: &str)
        ensures
            source@ == self@,
    {
        self.source.as_str()
    }

    /// Whether the pattern matches anywhere in `text`.
    pub fn found_in(&self, text: &str) -> (hit: bool)
        ensures
            hit == regex_finds(self@, text@),
    {
        proof {
            use_type_invariant(self);
        }
        match regex_search(self.source.as_str(), text) {
            Ok(hit) => hit,
            Err(_) => vstd::pervasive::unreached(),
        }
    }
}

/// One entry of the blacklist.
#[derive(Debug)]
pub enum Matcher {
    /// Matches a text that holds this one as a contiguous part.
    Literal(String),
    /// Matches a text in which the pattern matches anywhere.
    RegExp(Pattern),
}

/// One entry of the blacklist, as the text it was made from.
pub enum MatcherView {
    Literal(Seq<char>),
    RegExp(Seq<char>),
}

impl MatcherView {
    /// Whether the matcher matches `content`: a literal where `content`
    /// holds it as a contiguous part, character for character, and a
    /// pattern where the engine finds it in `content`.
    pub open spec fn hits(self, content: Seq<char>) -> bool {
        match self {
            MatcherView::Literal(text) => occurs_in(text, content),
            MatcherView::RegExp(pattern) => regex_finds(pattern, content),
        }
    }

    /// The diagnostic line for a match in the part of the mail called `kind`.
    pub open spec fn complaint(self, kind: Seq<char>) -> Seq<u8> {
        match self {
            MatcherView::Literal(text) => encode_utf8("Forbidden literal found in "@)
                + encode_utf8(kind) + encode_utf8(": "@) + encode_utf8(text) + encode_utf8("\n"@),
            MatcherView::RegExp(pattern) => encode_utf8("Forbidden regex found in "@)
                + encode_utf8(kind) + encode_utf8(": "@) + encode_utf8(pattern) + encode_utf8(
                "\n"@,
            ),
        }
    }
}

impl View for Matcher {
    type V = MatcherView;

    open spec fn view(&self) -> MatcherView {
        match self {
            Matcher::Literal(text) => MatcherView::Literal(text@),
            Matcher::RegExp(pattern) => MatcherView::RegExp(pattern@),
        }
    }
}

impl DeepView for Matcher {
    type V = MatcherView;

    open spec fn deep_view(&self) -> MatcherView {
        self@
    }
}

impl Matcher {
    /// Whether the matcher matches `content`.
    pub fn matches(&self, content: &str) -> (hit: bool)
        ensures
            hit == self@.hits(content@),
    {
        match self {
            Matcher::Literal(text) => {
                proof {
                    lemma_occurs_encoded(text@, content@);
                }
                contains_bytes(content.as_bytes(), text.as_str().as_bytes())
            },
            Matcher::RegExp(pattern) => pattern.found_in(content),
        }
    }

    /// Records the outcome `hit` of trying the matcher on the part of the
    /// mail called `kind`: a match is written to `std_err` and withdraws
    /// `allow`, and no match changes nothing.
    pub fn note(&self, hit: bool, kind: &str, allow: &mut bool, std_err: &mut Vec<u8>)
        ensures
            *final(allow) == (*old(allow) && !hit),
            final(std_err)@ == old(std_err)@ + if hit {
                self@.complaint(kind@)
            } else {
                Seq::<u8>::empty()
            },
    {
        if hit {
            match self {
                Matcher::Literal(text) => {
                    append_text(std_err, "Forbidden literal found in ");
                    append_text(std_err, kind);
                    append_text(std_err, ": ");
                    append_text(std_err, text.as_str());
                },
                Matcher::RegExp(pattern) => {
                    append_text(std_err, "Forbidden regex found in ");
                    append_text(std_err, kind);
                    append_text(std_err, ": ");
                    append_text(std_err, pattern.as_str());
                },
            }
            append_text(std_err, "\n");
            *allow = false;
        }
    }
}

/// Why the blacklist could not be loaded.
#[derive(Debug, PartialEq, Eq)]
pub enum ParseArgsError {
    /// An argument that should name a kind of matcher names none.
    UnknownMatcher,
    /// The arguments end where a file should be named.
    NoFile,
    /// The name of a file is empty.
    EmptyName,
    /// The file could not be opened; with the text of the error.
    BadFile(String),
    /// A line could not be read; with its number and the text of the error.
    BadLine(usize, String),
    /// A line is no regular expression; with its number and the engine's
    /// complaint.
    BadRegex(usize, String),
}

/// Why the blacklist could not be loaded, with numbers and texts as such.
pub enum ParseArgsErrorView {
    UnknownMatcher,
    NoFile,
    EmptyName,
    BadFile(Seq<char>),
    BadLine(nat, Seq<char>),
    BadRegex(nat, Seq<char>),
}

impl View for ParseArgsError {
    type V = ParseArgsErrorView;

    open spec fn view(&self) -> ParseArgsErrorView {
        match self {
            ParseArgsError::UnknownMatcher => ParseArgsErrorView::UnknownMatcher,
            ParseArgsError::NoFile => ParseArgsErrorView::NoFile,
            ParseArgsError::EmptyName => ParseArgsErrorView::EmptyName,
            ParseArgsError::BadFile(why) => ParseArgsErrorView::BadFile(why@),
            ParseArgsError::BadLine(no, why) => ParseArgsErrorView::BadLine(*no as nat, why@),
            ParseArgsError::BadRegex(no, why) => ParseArgsErrorView::BadRegex(*no as nat, why@),
        }
    }
}

/// The decimal digit for `d`, a number below ten.
pub open spec fn digit(d: nat) -> Seq<char> {
    "0123456789"@.subrange(d as int, d as int + 1)
}

/// The decimal digits of `n`, without leading zeros.
pub open spec fn decimal(n: nat) -> Seq<char>
    decreases n,
{
    if n < 10 {
        digit(n)
    } else {
        decimal(n / 10) + digit(n % 10)
    }
}

/// The message that tells the user what is wrong with the command line,
/// where `consumed` arguments had been read when the error came up.
pub open spec fn blame(err: ParseArgsErrorView, consumed: nat) -> Seq<char> {
    match err {
        ParseArgsErrorView::UnknownMatcher => "Unknown kind of pattern (CLI argument #"@
            + decimal(consumed) + "), expected \"literal\"/\"regex\"."@,
        ParseArgsErrorView::NoFile => "Unexpected end of CLI arguments, expected file."@,
        ParseArgsErrorView::EmptyName => "Illegal empty string (CLI argument #"@
            + decimal(consumed) + "), expected file."@,
        ParseArgsErrorView::BadFile(why) => "Inaccessible file (CLI argument #"@
            + decimal(consumed) + "), error: "@ + why,
        ParseArgsErrorView::BadLine(no, why) => "File read error (CLI argument #"@
            + decimal(consumed) + ", line #"@ + decimal(no) + "): "@ + why,
        ParseArgsErrorView::BadRegex(no, why) => "Invalid regular expression (CLI argument #"@
            + decimal(consumed) + ", line #"@ + decimal(no) + "): "@ + why,
    }
}

/// Appends the decimal digits of `n` to `text`.
fn append_decimal(text: &mut String, n: usize)
    ensures
        final(text)@ == old(text)@ + decimal(n as nat),
    decreases n,
{
    if n >= 10 {
        append_decimal(text, n / 10);
    }
    let digit: usize = n % 10;
    proof {
        reveal_strlit("0123456789");
    }
    text.append("0123456789".substring_ascii(digit, digit + 1));
}

/// The message that tells the user what is wrong with the command line,
/// where `consumed` arguments had been read when the error came up.
pub fn blame_user(err: ParseArgsError, consumed: usize) -> (message: String)
    ensures
        message@ == blame(err@, consumed as nat),
{
    let mut message = String::new();
    match err {
        ParseArgsError::UnknownMatcher => {
            message.append("Unknown kind of pattern (CLI argument #");
            append_decimal(&mut message, consumed);
            message.append("), expected \"literal\"/\"regex\".");
        },
        ParseArgsError::NoFile => {
            message.append("Unexpected end of CLI arguments, expected file.");
        },
        ParseArgsError::EmptyName => {
            message.append("Illegal empty string (CLI argument #");
            append_decimal(&mut message, consumed);
            message.append("), expected file.");
        },
        ParseArgsError::BadFile(why) => {
            message.append("Inaccessible file (CLI argument #");
            append_decimal(&mut message, consumed);
            message.append("), error: ");
            message.append(why.as_str());
        },
        ParseArgsError::BadLine(no, why) => {
            message.append("File read error (CLI argument #");
            append_decimal(&mut message, consumed);
            message.append(", line #");
            append_decimal(&mut message, no);
            message.append("): ");
            message.append(why.as_str());
        },
        ParseArgsError::BadRegex(no, why) => {
            message.append("Invalid regular expression (CLI argument #");
            append_decimal(&mut message, consumed);
            message.append(", line #");
            append_decimal(&mut message, no);
            message.append("): ");
            message.append(why.as_str());
        },
    }
    message
}

/// The kind of matcher that the lines of a file become.
#[derive(Clone, Copy, Debug, PartialEq, Eq, Structural)]
pub enum MatcherKind {
    Literal,
    RegExp,
}

/// The kind of matcher that an argument names, if it names one.
pub open spec fn kind_named(arg: Seq<char>) -> Option<MatcherKind> {
    if arg == "literal"@ {
        Some(MatcherKind::Literal)
    } else if arg == "regex"@ {
        Some(MatcherKind::RegExp)
    } else {
        None
    }
}

/// The kind of matcher that an argument names, if it names one.
pub fn matcher_kind(arg: &str) -> (kind: Option<MatcherKind>)
    ensures
        kind == kind_named(arg@),
{
    if same_text(arg, "literal") {
        Some(MatcherKind::Literal)
    } else if same_text(arg, "regex") {
        Some(MatcherKind::RegExp)
    } else {
        None
    }
}

/// A line of a file as it was read: its text, or the text of the error.
pub open spec fn line_text(line: Result<String, String>) -> Result<Seq<char>, Seq<char>> {
    match line {
        Ok(text) => Ok(text@),
        Err(why) => Err(why@),
    }
}

/// The lines of a file as they were read.
pub open spec fn lines_text(lines: Seq<Result<String, String>>) -> Seq<
    Result<Seq<char>, Seq<char>>,
> {
    Seq::new(lines.len(), |i: int| line_text(lines[i]))
}

/// What is wrong with line number `no` of a file of `kind`, if anything: it
/// could not be read, or it should be a regular expression and is none. An
/// empty line is never wrong.
pub open spec fn line_fault(
    kind: MatcherKind,
    line: Result<Seq<char>, Seq<char>>,
    no: nat,
) -> Option<ParseArgsErrorView> {
    match line {
        Err(why) => Some(ParseArgsErrorView::BadLine(no, why)),
        Ok(text) => if text.len() > 0 && kind == MatcherKind::RegExp && !regex_compiles(text) {
            Some(ParseArgsErrorView::BadRegex(no, regex_complaint(text)))
        } else {
            None
        },
    }
}

/// The matchers that a line without fault adds to the blacklist: none for
/// an empty line, else one of `kind`.
pub open spec fn line_matchers(kind: MatcherKind, line: Result<Seq<char>, Seq<char>>) -> Seq<
    MatcherView,
> {
    match line {
        Ok(text) => if text.len() == 0 {
            Seq::<MatcherView>::empty()
        } else if kind == MatcherKind::Literal {
            seq![MatcherView::Literal(text)]
        } else {
            seq![MatcherView::RegExp(text)]
        },
        Err(_) => Seq::<MatcherView>::empty(),
    }
}

/// What loading the lines of a file of `kind` gives: the matchers of the
/// lines before the first one with a fault, in order, and that fault, if
/// there is one. Lines are numbered from one.
pub open spec fn load(kind: MatcherKind, lines: Seq<Result<Seq<char>, Seq<char>>>) -> (
    Seq<MatcherView>,
    Option<ParseArgsErrorView>,
)
    decreases lines.len(),
{
    if lines.len() == 0 {
        (Seq::<MatcherView>::empty(), None)
    } else {
        let (matchers, fault) = load(kind, lines.drop_last());
        if fault is Some {
            (matchers, fault)
        } else if line_fault(kind, lines.last(), lines.len()) is Some {
            (matchers, line_fault(kind, lines.last(), lines.len()))
        } else {
            (matchers + line_matchers(kind, lines.last()), None)
        }
    }
}

/// Once a line has a fault, the lines behind it change nothing.
proof fn lemma_load_stops(kind: MatcherKind, lines: Seq<Result<Seq<char>, Seq<char>>>, upto: int)
    requires
        0 <= upto <= lines.len(),
        load(kind, lines.subrange(0, upto)).1 is Some,
    ensures
        load(kind, lines) == load(kind, lines.subrange(0, upto)),
    decreases lines.len() - upto,
{
    if upto < lines.len() {
        assert(lines.subrange(0, upto + 1).drop_last() == lines.subrange(0, upto));
        lemma_load_stops(kind, lines, upto + 1);
    } else {
        assert(lines.subrange(0, upto) == lines);
    }
}

/// The fault of a load, if any, as a result.
pub open spec fn fault_of(outcome: Result<(), ParseArgsError>) -> Option<ParseArgsErrorView> {
    match outcome {
        Ok(_) => None,
        Err(err) => Some(err@),
    }
}

/// Takes the outcome `made` of compiling line number `no` of a file: a
/// pattern joins the blacklist, and a complaint of the engine becomes the
/// fault of that line.
pub fn enlist_pattern(
    made: Result<Pattern, String>,
    no: usize,
    blacklist: &mut Vec<Matcher>,
) -> (outcome: Result<(), ParseArgsError>)
    ensures
        match made {
            Ok(pattern) => outcome is Ok && final(blacklist).deep_view() == old(
                blacklist,
            ).deep_view().push(MatcherView::RegExp(pattern@)),
            Err(why) => fault_of(outcome) == Some(ParseArgsErrorView::BadRegex(no as nat, why@))
                && final(blacklist).deep_view() == old(blacklist).deep_view(),
        },
{
    match made {
        Ok(pattern) => {
            blacklist.push(Matcher::RegExp(pattern));
            Ok(())
        },
        Err(why) => Err(ParseArgsError::BadRegex(no, why)),
    }
}

/// Adds to `blacklist` a matcher of `kind` for each line of `lines` that is
/// not empty, up to the first line that could not be read or is no regular
/// expression where it should be one. That line's fault is returned.
pub fn require_lines(
    kind: MatcherKind,
    lines: &Vec<Result<String, String>>,
    blacklist: &mut Vec<Matcher>,
) -> (outcome: Result<(), ParseArgsError>)
    ensures
        final(blacklist).deep_view() == old(blacklist).deep_view() + load(
            kind,
            lines_text(lines@),
        ).0,
        fault_of(outcome) == load(kind, lines_text(lines@)).1,
{
    let ghost texts = lines_text(lines@);
    let mut i: usize = 0;
    while i < lines.len()
        invariant
            i <= lines@.len(),
            texts == lines_text(lines@),
            load(kind, texts.subrange(0, i as int)).1 is None,
            blacklist.deep_view() == old(blacklist).deep_view() + load(
                kind,
                texts.subrange(0, i as int),
            ).0,
        decreases lines@.len() - i,
    {
        let ghost before = blacklist.deep_view();
        let ghost upto = texts.subrange(0, i + 1);
        assert(upto.drop_last() == texts.subrange(0, i as int));
        let no: usize = i + 1;
        match &lines[i] {
            Err(why) => {
                proof {
                    lemma_load_stops(kind, texts, i + 1);
                }
                return Err(ParseArgsError::BadLine(no, why.clone()));
            },
            Ok(text) => {
                if !text.as_str().is_empty() {
                    match kind {
                        MatcherKind::Literal => {
                            blacklist.push(Matcher::Literal(text.clone()));
                            assert(blacklist.deep_view() =~= before + seq![
                                MatcherView::Literal(text@),
                            ]);
                        },
                        MatcherKind::RegExp => {
                            let made = Pattern::compile(text.clone());
                            match enlist_pattern(made, no, blacklist) {
                                Ok(_) => {},
                                Err(fault) => {
                                    proof {
                                        lemma_load_stops(kind, texts, i + 1);
                                    }
                                    return Err(fault);
                                },
                            }
                        },
                    }
                }
            },
        }
        i += 1;
    }
    assert(texts.subrange(0, i as int) == texts);
    Ok(())
}

/// What the loading of the blacklist waits for.
#[derive(Clone, Copy, Debug, PartialEq, Eq, Structural)]
pub enum Stage {
    /// The argument that names a kind of matcher, or the end of the
    /// arguments.
    Kind,
    /// The argument that names the file for matchers of this kind.
    File(MatcherKind),
    /// The lines of the file that was named, for matchers of this kind.
    Lines(MatcherKind),
}

/// What the caller is to bring next.
#[derive(Debug, PartialEq, Eq)]
pub enum Request {
    /// The next argument of the command line.
    Argument,
    /// The lines of the file that the last argument names.
    Lines,
    /// Nothing: the blacklist is complete.
    Done,
    /// Nothing: the blacklist cannot be loaded.
    Failed(ParseArgsError),
}

/// What the caller is to bring next, with numbers and texts as such.
pub enum RequestView {
    Argument,
    Lines,
    Done,
    Failed(ParseArgsErrorView),
}

impl View for Request {
    type V = RequestView;

    open spec fn view(&self) -> RequestView {
        match self {
            Request::Argument => RequestView::Argument,
            Request::Lines => RequestView::Lines,
            Request::Done => RequestView::Done,
            Request::Failed(err) => RequestView::Failed(err@),
        }
    }
}

/// Loads the blacklist from the arguments of the command line, which come
/// in pairs: a kind of matcher, `literal` or `regex`, and a file with one
/// matcher on each line that is not empty. The parser reads nothing
/// itself: it says what it needs next, and the caller brings it.
pub struct ArgParser {
    stage: Stage,
    blacklist: Vec<Matcher>,
}

/// The state of an `ArgParser`.
pub struct ArgParserView {
    pub stage: Stage,
    pub blacklist: Seq<MatcherView>,
}

impl View for ArgParser {
    type V = ArgParserView;

    closed spec fn view(&self) -> ArgParserView {
        ArgParserView { stage: self.stage, blacklist: self.blacklist.deep_view() }
    }
}

/// The text of an argument that may be absent.
pub open spec fn argument_text(arg: Option<&str>) -> Option<Seq<char>> {
    match arg {
        Some(text) => Some(text@),
        None => None,
    }
}

/// What was read of a file: its lines, or the text of the error with which
/// it could not be opened.
pub open spec fn file_text(file: Result<Vec<Result<String, String>>, String>) -> Result<
    Seq<Result<Seq<char>, Seq<char>>>,
    Seq<char>,
> {
    match file {
        Ok(lines) => Ok(lines_text(lines@)),
        Err(why) => Err(why@),
    }
}

/// The state after the argument `arg`, absent at the end of the command
/// line, and what is needed next. Where the lines of a file are awaited, an
/// argument changes nothing and the lines are asked for again.
pub open spec fn after_argument(state: ArgParserView, arg: Option<Seq<char>>) -> (
    ArgParserView,
    RequestView,
) {
    match state.stage {
        Stage::Kind => match arg {
            None => (state, RequestView::Done),
            Some(text) => match kind_named(text) {
                Some(kind) => (
                    ArgParserView { stage: Stage::File(kind), blacklist: state.blacklist },
                    RequestView::Argument,
                ),
                None => (state, RequestView::Failed(ParseArgsErrorView::UnknownMatcher)),
            },
        },
        Stage::File(kind) => match arg {
            None => (state, RequestView::Failed(ParseArgsErrorView::NoFile)),
            Some(text) => if text.len() == 0 {
                (state, RequestView::Failed(ParseArgsErrorView::EmptyName))
            } else {
                (
                    ArgParserView { stage: Stage::Lines(kind), blacklist: state.blacklist },
                    RequestView::Lines,
                )
            },
        },
        Stage::Lines(_) => (state, RequestView::Lines),
    }
}

/// The state after the file `file` was read, and what is needed next. Where
/// an argument is awaited, a file changes nothing and the argument is asked
/// for again.
pub open spec fn after_lines(
    state: ArgParserView,
    file: Result<Seq<Result<Seq<char>, Seq<char>>>, Seq<char>>,
) -> (ArgParserView, RequestView) {
    match state.stage {
        Stage::Lines(kind) => match file {
            Err(why) => (state, RequestView::Failed(ParseArgsErrorView::BadFile(why))),
            Ok(lines) => match load(kind, lines).1 {
                Some(fault) => (
                    ArgParserView {
                        stage: state.stage,
                        blacklist: state.blacklist + load(kind, lines).0,
                    },
                    RequestView::Failed(fault),
                ),
                None => (
                    ArgParserView {
                        stage: Stage::Kind,
                        blacklist: state.blacklist + load(kind, lines).0,
                    },
                    RequestView::Argument,
                ),
            },
        },
        _ => (state, RequestView::Argument),
    }
}

impl ArgParser {
    /// A parser at the start of the command line, behind the program's
    /// name: the blacklist is empty, and the first argument is needed.
    pub fn new() -> (parser: Self)
        ensures
            parser@ == (ArgParserView {
                stage: Stage::Kind,
                blacklist: Seq::<MatcherView>::empty(),
            }),
    {
        let parser = ArgParser { stage: Stage::Kind, blacklist: Vec::new() };
        assert(parser.blacklist.deep_view() =~= Seq::<MatcherView>::empty());
        parser
    }

    /// Takes the next argument of the command line, `None` at its end.
    pub fn feed_argument(&mut self, arg: Option<&str>) -> (request: Request)
        ensures
            (final(self)@, request@) == after_argument(old(self)@, argument_text(arg)),
    {
        match self.stage {
            Stage::Kind => match arg {
                None => Request::Done,
                Some(text) => match matcher_kind(text) {
                    Some(kind) => {
                        self.stage = Stage::File(kind);
                        Request::Argument
                    },
                    None => Request::Failed(ParseArgsError::UnknownMatcher),
                },
            },
            Stage::File(kind) => match arg {
                None => Request::Failed(ParseArgsError::NoFile),
                Some(text) => if text.is_empty() {
                    Request::Failed(ParseArgsError::EmptyName)
                } else {
                    self.stage = Stage::Lines(kind);
                    Request::Lines
                },
            },
            Stage::Lines(_) => Request::Lines,
        }
    }

    /// Takes what was read of the file that the last argument names.
    pub fn feed_lines(
        &mut self,
        file: Result<Vec<Result<String, String>>, String>,
    ) -> (request: Request)
        ensures
            (final(self)@, request@) == after_lines(old(self)@, file_text(file)),
    {
        match self.stage {
            Stage::Lines(kind) => match file {
                Err(why) => Request::Failed(ParseArgsError::BadFile(why)),
                Ok(lines) => match require_lines(kind, &lines, &mut self.blacklist) {
                    Err(fault) => Request::Failed(fault),
                    Ok(_) => {
                        self.stage = Stage::Kind;
                        Request::Argument
                    },
                },
            },
            _ => Request::Argument,
        }
    }

    /// The blacklist loaded so far.
    pub fn into_blacklist(self) -> (blacklist: Vec<Matcher>)
        ensures
            blacklist.deep_view() == self@.blacklist,
    {
        self.blacklist
    }
}

} // verus!
