//! The line protocol between the mail transfer agent and the filter: how a
//! line is decoded, and how the filter reacts to it.

use crate::bytes::{append_bytes, append_text, is_text};
use crate::cli::{Matcher, MatcherView};
use crate::engines::{parse_subject, parsed_subject, subject_text};
use crate::fields::{join, split, split_fields, strip_line_end, trim_line_end, views};
use crate::session::SessionStore;
use crate::util::{join_write_bytes, scan_allows, scan_content, scan_report};
use vstd::prelude::*;
use vstd::utf8::encode_utf8;

verus! {

/// The byte between two fields of a line.
pub const FIELD_SEPARATOR: u8 = 0x7c;

/// What a protocol line asks for, with its fields as slices of the line.
#[derive(Debug, PartialEq, Eq)]
pub enum Event<'a> {
    /// `config|ready`: the agent has sent its configuration.
    Ready,
    /// A mail transaction begins in `session`.
    TxBegin { session: &'a [u8] },
    /// The connection of `session` is closed.
    LinkDisconnect { session: &'a [u8] },
    /// One line of the mail, cut into the fields `rest`.
    DataLine { session: &'a [u8], token: &'a [u8], rest: Vec<&'a [u8]> },
    /// The agent asks whether the mail may be delivered.
    Commit { session: &'a [u8], token: &'a [u8] },
    /// Anything else; the filter does not react to it.
    Ignored,
}

/// What a protocol line asks for, with its fields as byte strings.
pub enum EventView {
    Ready,
    TxBegin { session: Seq<u8> },
    LinkDisconnect { session: Seq<u8> },
    DataLine { session: Seq<u8>, token: Seq<u8>, rest: Seq<Seq<u8>> },
    Commit { session: Seq<u8>, token: Seq<u8> },
    Ignored,
}

impl<'a> View for Event<'a> {
    type V = EventView;

    open spec fn view(&self) -> EventView {
        match self {
            Event::Ready => EventView::Ready,
            Event::TxBegin { session } => EventView::TxBegin { session: session@ },
            Event::LinkDisconnect { session } => EventView::LinkDisconnect { session: session@ },
            Event::DataLine { session, token, rest } => EventView::DataLine {
                session: session@,
                token: token@,
                rest: views(rest@),
            },
            Event::Commit { session, token } => EventView::Commit {
                session: session@,
                token: token@,
            },
            Event::Ignored => EventView::Ignored,
        }
    }
}

/// What the filter writes for one line: `out` to the agent, `diag` to the
/// diagnostic stream.
#[derive(Debug, PartialEq, Eq)]
pub struct Reaction {
    pub out: Vec<u8>,
    pub diag: Vec<u8>,
}

/// The event that the fields of a line stand for. The first field is the
/// verb. For `report` and `filter` the second to fourth fields (protocol
/// version, time stamp, subsystem) are not looked at, the fifth is the
/// phase and the sixth the session; `filter` has the token as its seventh.
pub open spec fn decode_fields(fields: Seq<Seq<u8>>) -> EventView {
    if fields.len() == 0 {
        EventView::Ignored
    } else if fields[0] == encode_utf8("config"@) {
        if fields.len() >= 2 && fields[1] == encode_utf8("ready"@) {
            EventView::Ready
        } else {
            EventView::Ignored
        }
    } else if fields[0] == encode_utf8("report"@) {
        if fields.len() < 6 {
            EventView::Ignored
        } else if fields[4] == encode_utf8("tx-begin"@) {
            EventView::TxBegin { session: fields[5] }
        } else if fields[4] == encode_utf8("link-disconnect"@) {
            EventView::LinkDisconnect { session: fields[5] }
        } else {
            EventView::Ignored
        }
    } else if fields[0] == encode_utf8("filter"@) {
        if fields.len() < 7 {
            EventView::Ignored
        } else if fields[4] == encode_utf8("data-line"@) {
            EventView::DataLine {
                session: fields[5],
                token: fields[6],
                rest: fields.subrange(7, fields.len() as int),
            }
        } else if fields[4] == encode_utf8("commit"@) {
            EventView::Commit { session: fields[5], token: fields[6] }
        } else {
            EventView::Ignored
        }
    } else {
        EventView::Ignored
    }
}

/// The event that a line stands for: the line ending is taken off, and the
/// rest is cut at each separator.
pub open spec fn decode(line: Seq<u8>) -> EventView {
    decode_fields(split(strip_line_end(line), FIELD_SEPARATOR))
}

/// The line `report|<version>|<timestamp>|<subsystem>|<phase>|<session>`,
/// without a line ending.
pub open spec fn report_line(
    version: Seq<u8>,
    timestamp: Seq<u8>,
    subsystem: Seq<u8>,
    phase: Seq<u8>,
    session: Seq<u8>,
) -> Seq<u8> {
    join(
        seq![encode_utf8("report"@), version, timestamp, subsystem, phase, session],
        seq![FIELD_SEPARATOR],
    )
}

/// The line
/// `filter|<version>|<timestamp>|<subsystem>|<phase>|<session>|<token>`
/// with the fields `rest` behind it, without a line ending.
pub open spec fn filter_line(
    version: Seq<u8>,
    timestamp: Seq<u8>,
    subsystem: Seq<u8>,
    phase: Seq<u8>,
    session: Seq<u8>,
    token: Seq<u8>,
    rest: Seq<Seq<u8>>,
) -> Seq<u8> {
    join(
        seq![encode_utf8("filter"@), version, timestamp, subsystem, phase, session, token] + rest,
        seq![FIELD_SEPARATOR],
    )
}

/// The mail line that the fields `rest` came from.
pub open spec fn data_text(rest: Seq<Seq<u8>>) -> Seq<u8> {
    join(rest, seq![FIELD_SEPARATOR])
}

/// Whether `rest` is the line that ends the mail: one field, a single dot.
pub open spec fn is_sentinel(rest: Seq<Seq<u8>>) -> bool {
    rest.len() == 1 && rest[0] == encode_utf8("."@)
}

/// The buffer of `session`, if it is open.
pub open spec fn mail_of(sessions: Map<Seq<u8>, Seq<u8>>, session: Seq<u8>) -> Option<Seq<u8>> {
    if sessions.contains_key(session) {
        Some(sessions[session])
    } else {
        None
    }
}

/// The buffers after `event`.
pub open spec fn sessions_after(sessions: Map<Seq<u8>, Seq<u8>>, event: EventView) -> Map<
    Seq<u8>,
    Seq<u8>,
> {
    match event {
        EventView::TxBegin { session } => sessions.insert(session, Seq::<u8>::empty()),
        EventView::LinkDisconnect { session } => sessions.remove(session),
        EventView::DataLine { session, token, rest } => if sessions.contains_key(session)
            && !is_sentinel(rest) {
            sessions.insert(session, sessions[session] + data_text(rest) + encode_utf8("\n"@))
        } else {
            sessions
        },
        _ => sessions,
    }
}

/// Whether a mail with the parsed headers `parsed` may pass. One whose
/// headers could not be parsed passes.
pub open spec fn headers_allowed(
    parsed: Option<Option<Seq<char>>>,
    blacklist: Seq<MatcherView>,
) -> bool {
    match parsed {
        Some(subject) => scan_allows(subject, blacklist),
        None => true,
    }
}

/// What judging the mail `raw` with the parsed headers `parsed` writes to
/// the diagnostic stream.
pub open spec fn headers_report(
    raw: Seq<u8>,
    parsed: Option<Option<Seq<char>>>,
    blacklist: Seq<MatcherView>,
) -> Seq<u8> {
    match parsed {
        Some(subject) => scan_report(subject, "subject"@, blacklist),
        None => encode_utf8("Malformed eMail:\n"@) + raw + encode_utf8(".\n"@),
    }
}

/// Whether the mail gathered so far may pass. Where no buffer is open there
/// is nothing to object to.
pub open spec fn mail_allowed(mail: Option<Seq<u8>>, blacklist: Seq<MatcherView>) -> bool {
    match mail {
        Some(raw) => headers_allowed(parsed_subject(raw), blacklist),
        None => true,
    }
}

/// What judging the mail gathered so far writes to the diagnostic stream,
/// before the line that names the decision.
pub open spec fn mail_report(mail: Option<Seq<u8>>, blacklist: Seq<MatcherView>) -> Seq<u8> {
    match mail {
        Some(raw) => headers_report(raw, parsed_subject(raw), blacklist),
        None => Seq::<u8>::empty(),
    }
}

/// The buffers after each of `lines` has been handled in turn.
pub open spec fn sessions_after_all(sessions: Map<Seq<u8>, Seq<u8>>, lines: Seq<Seq<u8>>) -> Map<
    Seq<u8>,
    Seq<u8>,
>
    decreases lines.len(),
{
    if lines.len() == 0 {
        sessions
    } else {
        sessions_after(sessions_after_all(sessions, lines.drop_last()), decode(lines.last()))
    }
}

/// The answer to `config|ready`: the events that the filter wants to be
/// told of, then `register|ready`.
pub open spec fn registration() -> Seq<u8> {
    encode_utf8("register|report|smtp-in|tx-begin\n"@) + encode_utf8(
        "register|filter|smtp-in|data-line\n"@,
    ) + encode_utf8("register|filter|smtp-in|commit\n"@) + encode_utf8(
        "register|report|smtp-in|link-disconnect\n"@,
    ) + encode_utf8("register|ready\n"@)
}

/// The line that hands a mail line back to the agent.
pub open spec fn echo_line(session: Seq<u8>, token: Seq<u8>, rest: Seq<Seq<u8>>) -> Seq<u8> {
    encode_utf8("filter-dataline|"@) + session + encode_utf8("|"@) + token + encode_utf8("|"@)
        + data_text(rest) + encode_utf8("\n"@)
}

/// The words that tell the agent the decision on a mail.
pub open spec fn verdict(allow: bool) -> Seq<u8> {
    if allow {
        encode_utf8("proceed"@)
    } else {
        encode_utf8("reject|550 Blacklisted keyphrase found"@)
    }
}

/// The diagnostic line that names the decision on a mail.
pub open spec fn verdict_note(allow: bool) -> Seq<u8> {
    if allow {
        encode_utf8("Allowing\n"@)
    } else {
        encode_utf8("Denying\n"@)
    }
}

/// The line that tells the agent the decision on a mail.
pub open spec fn result_line(session: Seq<u8>, token: Seq<u8>, allow: bool) -> Seq<u8> {
    encode_utf8("filter-result|"@) + session + encode_utf8("|"@) + token + encode_utf8("|"@)
        + verdict(allow) + encode_utf8("\n"@)
}

/// What the filter writes to the agent on `event`.
pub open spec fn response(
    sessions: Map<Seq<u8>, Seq<u8>>,
    event: EventView,
    blacklist: Seq<MatcherView>,
) -> Seq<u8> {
    match event {
        EventView::Ready => registration(),
        EventView::DataLine { session, token, rest } => echo_line(session, token, rest),
        EventView::Commit { session, token } => result_line(
            session,
            token,
            mail_allowed(mail_of(sessions, session), blacklist),
        ),
        _ => Seq::<u8>::empty(),
    }
}

/// What the filter writes to the diagnostic stream on `event`.
pub open spec fn diagnostics(
    sessions: Map<Seq<u8>, Seq<u8>>,
    event: EventView,
    blacklist: Seq<MatcherView>,
) -> Seq<u8> {
    match event {
        EventView::Commit { session, token } => mail_report(mail_of(sessions, session), blacklist)
            + verdict_note(mail_allowed(mail_of(sessions, session), blacklist)),
        _ => Seq::<u8>::empty(),
    }
}

/// Reads the event off the fields of a line.
pub fn decode_event<'a>(fields: Vec<&'a [u8]>) -> (event: Event<'a>)
    ensures
        event@ == decode_fields(views(fields@)),
{
    let mut fields = fields;
    let count: usize = fields.len();
    if count == 0 {
        return Event::Ignored;
    }
    assert forall|i: int| 0 <= i < count implies views(fields@)[i] == (#[trigger] fields@[i])@ by {}
    if is_text(fields[0], "config") {
        if count >= 2 && is_text(fields[1], "ready") {
            Event::Ready
        } else {
            Event::Ignored
        }
    } else if is_text(fields[0], "report") {
        if count < 6 {
            Event::Ignored
        } else if is_text(fields[4], "tx-begin") {
            Event::TxBegin { session: fields[5] }
        } else if is_text(fields[4], "link-disconnect") {
            Event::LinkDisconnect { session: fields[5] }
        } else {
            Event::Ignored
        }
    } else if is_text(fields[0], "filter") {
        if count < 7 {
            Event::Ignored
        } else if is_text(fields[4], "data-line") {
            let ghost all = fields@;
            let rest = fields.split_off(7);
            assert(views(rest@) == views(all).subrange(7, count as int));
            Event::DataLine { session: fields[5], token: fields[6], rest }
        } else if is_text(fields[4], "commit") {
            Event::Commit { session: fields[5], token: fields[6] }
        } else {
            Event::Ignored
        }
    } else {
        Event::Ignored
    }
}

/// Decodes one line as it was read, with or without its line ending.
pub fn decode_line<'a>(line: &'a [u8]) -> (event: Event<'a>)
    ensures
        event@ == decode(line@),
{
    decode_event(split_fields(trim_line_end(line), FIELD_SEPARATOR))
}

/// Judges the mail `raw`, whose headers were parsed to `parsed`: `None`
/// where they could not be parsed, else the Subject, if there is one. An
/// unparsable mail is reported on `diag` and allowed; else the Subject is
/// scanned against the blacklist.
pub fn judge(
    raw: &[u8],
    parsed: Option<Option<String>>,
    blacklist: &Vec<Matcher>,
    diag: &mut Vec<u8>,
) -> (allow: bool)
    ensures
        allow == headers_allowed(subject_text(parsed), blacklist.deep_view()),
        final(diag)@ == old(diag)@ + headers_report(
            raw@,
            subject_text(parsed),
            blacklist.deep_view(),
        ),
{
    match parsed {
        None => {
            append_text(diag, "Malformed eMail:\n");
            append_bytes(diag, raw);
            append_text(diag, ".\n");
            true
        },
        Some(subject) => {
            let mut allow = true;
            let content: Option<&str> = match &subject {
                Some(text) => Some(text.as_str()),
                None => None,
            };
            scan_content(content, "subject", blacklist, &mut allow, diag);
            allow
        },
    }
}

/// The answer to one event, with the buffers as they are: what is to be
/// written to the agent and to the diagnostic stream. No buffer changes.
pub fn respond(
    event: &Event<'_>,
    sessions: &SessionStore,
    blacklist: &Vec<Matcher>,
) -> (reaction: Reaction)
    ensures
        reaction.out@ == response(sessions@, event@, blacklist.deep_view()),
        reaction.diag@ == diagnostics(sessions@, event@, blacklist.deep_view()),
{
    let mut out: Vec<u8> = Vec::new();
    let mut diag: Vec<u8> = Vec::new();
    match event {
        Event::Ready => {
            append_text(&mut out, "register|report|smtp-in|tx-begin\n");
            append_text(&mut out, "register|filter|smtp-in|data-line\n");
            append_text(&mut out, "register|filter|smtp-in|commit\n");
            append_text(&mut out, "register|report|smtp-in|link-disconnect\n");
            append_text(&mut out, "register|ready\n");
        },
        Event::DataLine { session, token, rest } => {
            let separator: [u8; 1] = [FIELD_SEPARATOR];
            assert(separator@ == seq![FIELD_SEPARATOR]);
            append_text(&mut out, "filter-dataline|");
            append_bytes(&mut out, session);
            append_text(&mut out, "|");
            append_bytes(&mut out, token);
            append_text(&mut out, "|");
            join_write_bytes(&mut out, separator.as_slice(), rest.as_slice());
            append_text(&mut out, "\n");
        },
        Event::Commit { session, token } => {
            let allow = match sessions.get(session) {
                None => true,
                Some(mail) => judge(mail, parse_subject(mail), blacklist, &mut diag),
            };
            append_text(&mut out, "filter-result|");
            append_bytes(&mut out, session);
            append_text(&mut out, "|");
            append_bytes(&mut out, token);
            append_text(&mut out, "|");
            if allow {
                append_text(&mut diag, "Allowing\n");
                append_text(&mut out, "proceed");
            } else {
                append_text(&mut diag, "Denying\n");
                append_text(&mut out, "reject|550 Blacklisted keyphrase found");
            }
            append_text(&mut out, "\n");
        },
        _ => {},
    }
    Reaction { out, diag }
}

/// Changes the buffers as one event asks: `tx-begin` opens the session with
/// an empty buffer, `link-disconnect` closes it, and a data line other than
/// the line that ends the mail is added, with a line feed, to the buffer of
/// its session if that is open.
pub fn record(event: &Event<'_>, sessions: &mut SessionStore)
    ensures
        final(sessions)@ == sessions_after(old(sessions)@, event@),
{
    match event {
        Event::TxBegin { session } => {
            sessions.reset(session);
        },
        Event::LinkDisconnect { session } => {
            sessions.remove(session);
        },
        Event::DataLine { session, token, rest } => {
            let sentinel = rest.len() == 1 && is_text(rest[0], ".");
            if !sentinel {
                let separator: [u8; 1] = [FIELD_SEPARATOR];
                assert(separator@ == seq![FIELD_SEPARATOR]);
                let mut text: Vec<u8> = Vec::new();
                join_write_bytes(&mut text, separator.as_slice(), rest.as_slice());
                append_text(&mut text, "\n");
                sessions.append(session, text.as_slice());
                assert(old(sessions)@[session@] + text@ =~= old(sessions)@[session@] + data_text(
                    views(rest@),
                ) + encode_utf8("\n"@));
            }
        },
        _ => {},
    }
}

/// Reacts to one event: returns the answer to it, with the buffers as they
/// were, and changes the buffers as it asks.
pub fn handle_event(
    event: &Event<'_>,
    sessions: &mut SessionStore,
    blacklist: &Vec<Matcher>,
) -> (reaction: Reaction)
    ensures
        final(sessions)@ == sessions_after(old(sessions)@, event@),
        reaction.out@ == response(old(sessions)@, event@, blacklist.deep_view()),
        reaction.diag@ == diagnostics(old(sessions)@, event@, blacklist.deep_view()),
{
    let reaction = respond(event, sessions, blacklist);
    record(event, sessions);
    reaction
}

/// Reacts to one line of the agent, as it was read: with or without its
/// line ending.
pub fn handle_line(
    line: &[u8],
    sessions: &mut SessionStore,
    blacklist: &Vec<Matcher>,
) -> (reaction: Reaction)
    ensures
        final(sessions)@ == sessions_after(old(sessions)@, decode(line@)),
        reaction.out@ == response(old(sessions)@, decode(line@), blacklist.deep_view()),
        reaction.diag@ == diagnostics(old(sessions)@, decode(line@), blacklist.deep_view()),
{
    let event = decode_line(line);
    handle_event(&event, sessions, blacklist)
}

} // verus!
