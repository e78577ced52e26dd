//! What holds of the filter on every input: the laws of the protocol,
//! stated over the specification of `handle_line` and proved.

use crate::cli::MatcherView;
use crate::fields::{
    free_of, is_ending, is_line_end, join, lemma_join_parts, lemma_join_split,
    lemma_split_fields, lemma_split_join, lemma_split_single, lemma_strip_added_ending,
    lemma_strip_line_end, split, strip_line_end, LINE_FEED,
};
use crate::protocol::{
    data_text, decode, decode_fields, diagnostics, echo_line, filter_line, is_sentinel, mail_of,
    registration, report_line, response, result_line, sessions_after, sessions_after_all,
    EventView, FIELD_SEPARATOR,
};
use vstd::prelude::*;
use vstd::utf8::{encode_utf8, is_ascii_chars_encode_utf8};

verus! {

/// The words of the protocol differ from each other, and none of them holds
/// the field separator or ends in a byte of a line ending.
proof fn lemma_words()
    ensures
        encode_utf8("config"@) != encode_utf8("report"@),
        encode_utf8("config"@) != encode_utf8("filter"@),
        encode_utf8("report"@) != encode_utf8("filter"@),
        encode_utf8("tx-begin"@) != encode_utf8("link-disconnect"@),
        encode_utf8("data-line"@) != encode_utf8("commit"@),
        free_of(encode_utf8("report"@), FIELD_SEPARATOR),
        free_of(encode_utf8("filter"@), FIELD_SEPARATOR),
        free_of(encode_utf8("tx-begin"@), FIELD_SEPARATOR),
        free_of(encode_utf8("link-disconnect"@), FIELD_SEPARATOR),
        free_of(encode_utf8("data-line"@), FIELD_SEPARATOR),
        free_of(encode_utf8("commit"@), FIELD_SEPARATOR),
        encode_utf8("config|ready"@) == encode_utf8("config"@) + seq![FIELD_SEPARATOR]
            + encode_utf8("ready"@),
        free_of(encode_utf8("config"@), FIELD_SEPARATOR),
        free_of(encode_utf8("ready"@), FIELD_SEPARATOR),
        encode_utf8("ready"@).len() == 5,
        !is_line_end(encode_utf8("ready"@).last()),
{
    reveal_strlit("config");
    reveal_strlit("report");
    reveal_strlit("filter");
    reveal_strlit("tx-begin");
    reveal_strlit("link-disconnect");
    reveal_strlit("data-line");
    reveal_strlit("commit");
    reveal_strlit("ready");
    reveal_strlit("config|ready");
    is_ascii_chars_encode_utf8("config"@);
    is_ascii_chars_encode_utf8("report"@);
    is_ascii_chars_encode_utf8("filter"@);
    is_ascii_chars_encode_utf8("tx-begin"@);
    is_ascii_chars_encode_utf8("link-disconnect"@);
    is_ascii_chars_encode_utf8("data-line"@);
    is_ascii_chars_encode_utf8("commit"@);
    is_ascii_chars_encode_utf8("ready"@);
    is_ascii_chars_encode_utf8("config|ready"@);
}

/// A line made of fields that hold no separator, with a line ending behind
/// it, decodes as its fields do, where the last field does not end in a
/// byte of a line ending.
pub proof fn lemma_decode_joined(fields: Seq<Seq<u8>>, ending: Seq<u8>)
    requires
        fields.len() >= 1,
        forall|i: int| 0 <= i < fields.len() ==> free_of(#[trigger] fields[i], FIELD_SEPARATOR),
        fields.last().len() > 0 ==> !is_line_end(fields.last().last()),
        is_ending(ending),
    ensures
        decode(join(fields, seq![FIELD_SEPARATOR]) + ending) == decode_fields(fields),
{
    let text = join(fields, seq![FIELD_SEPARATOR]);
    if fields.len() > 1 {
        // The text ends as its last field does, or in the separator.
        let front = join(fields.drop_last(), seq![FIELD_SEPARATOR]);
        assert(text == front + seq![FIELD_SEPARATOR] + fields.last());
    }
    lemma_strip_added_ending(text, ending);
    lemma_split_join(fields, FIELD_SEPARATOR);
}

/// `config|ready`, with whatever line ending and whatever the filter holds
/// and is configured with, is answered by the registration lines and the
/// final `register|ready`, in that order; nothing else is written and no
/// buffer changes.
pub proof fn law_ready_registers(
    sessions: Map<Seq<u8>, Seq<u8>>,
    blacklist: Seq<MatcherView>,
    ending: Seq<u8>,
)
    requires
        is_ending(ending),
    ensures
        ({
            let line = encode_utf8("config|ready"@) + ending;
            &&& decode(line) == EventView::Ready
            &&& response(sessions, decode(line), blacklist) == registration()
            &&& diagnostics(sessions, decode(line), blacklist) == Seq::<u8>::empty()
            &&& sessions_after(sessions, decode(line)) == sessions
        }),
{
    lemma_words();
    let fields = seq![encode_utf8("config"@), encode_utf8("ready"@)];
    assert(join(fields.drop_last(), seq![FIELD_SEPARATOR]) == encode_utf8("config"@));
    lemma_decode_joined(fields, ending);
}

/// A `report` line of the phase `tx-begin` or `link-disconnect` decodes to
/// that event for its session, whatever its version, time stamp and
/// subsystem are and whatever line ending follows, where no field holds the
/// separator and the session does not end in a byte of a line ending.
pub proof fn lemma_report_line_decodes(
    version: Seq<u8>,
    timestamp: Seq<u8>,
    subsystem: Seq<u8>,
    session: Seq<u8>,
    ending: Seq<u8>,
)
    requires
        free_of(version, FIELD_SEPARATOR),
        free_of(timestamp, FIELD_SEPARATOR),
        free_of(subsystem, FIELD_SEPARATOR),
        free_of(session, FIELD_SEPARATOR),
        session.len() > 0 ==> !is_line_end(session.last()),
        is_ending(ending),
    ensures
        decode(
            report_line(version, timestamp, subsystem, encode_utf8("tx-begin"@), session) + ending,
        ) == (EventView::TxBegin { session }),
        decode(
            report_line(version, timestamp, subsystem, encode_utf8("link-disconnect"@), session)
                + ending,
        ) == (EventView::LinkDisconnect { session }),
{
    lemma_words();
    lemma_decode_joined(
        seq![
            encode_utf8("report"@),
            version,
            timestamp,
            subsystem,
            encode_utf8("tx-begin"@),
            session,
        ],
        ending,
    );
    lemma_decode_joined(
        seq![
            encode_utf8("report"@),
            version,
            timestamp,
            subsystem,
            encode_utf8("link-disconnect"@),
            session,
        ],
        ending,
    );
}

/// A `filter` line of the phase `data-line` or `commit` decodes to that
/// event for its session and token, and a data line with the fields behind
/// the token as its text, where no field holds the separator and the last
/// one does not end in a byte of a line ending.
pub proof fn lemma_filter_line_decodes(
    version: Seq<u8>,
    timestamp: Seq<u8>,
    subsystem: Seq<u8>,
    session: Seq<u8>,
    token: Seq<u8>,
    rest: Seq<Seq<u8>>,
    ending: Seq<u8>,
)
    requires
        free_of(version, FIELD_SEPARATOR),
        free_of(timestamp, FIELD_SEPARATOR),
        free_of(subsystem, FIELD_SEPARATOR),
        free_of(session, FIELD_SEPARATOR),
        free_of(token, FIELD_SEPARATOR),
        forall|i: int| 0 <= i < rest.len() ==> free_of(#[trigger] rest[i], FIELD_SEPARATOR),
        ({
            let last = if rest.len() > 0 {
                rest.last()
            } else {
                token
            };
            last.len() > 0 ==> !is_line_end(last.last())
        }),
        is_ending(ending),
    ensures
        decode(
            filter_line(
                version,
                timestamp,
                subsystem,
                encode_utf8("data-line"@),
                session,
                token,
                rest,
            ) + ending,
        ) == (EventView::DataLine { session, token, rest }),
        decode(
            filter_line(version, timestamp, subsystem, encode_utf8("commit"@), session, token, rest)
                + ending,
        ) == (EventView::Commit { session, token }),
{
    lemma_words();
    let data = seq![
        encode_utf8("filter"@),
        version,
        timestamp,
        subsystem,
        encode_utf8("data-line"@),
        session,
        token,
    ] + rest;
    let commit = seq![
        encode_utf8("filter"@),
        version,
        timestamp,
        subsystem,
        encode_utf8("commit"@),
        session,
        token,
    ] + rest;
    assert(data.subrange(7, data.len() as int) == rest);
    assert forall|i: int| 0 <= i < data.len() implies free_of(
        #[trigger] data[i],
        FIELD_SEPARATOR,
    ) by {
        if i >= 7 {
            assert(data[i] == rest[i - 7]);
        }
    }
    assert forall|i: int| 0 <= i < commit.len() implies free_of(
        #[trigger] commit[i],
        FIELD_SEPARATOR,
    ) by {
        if i >= 7 {
            assert(commit[i] == rest[i - 7]);
        }
    }
    lemma_decode_joined(data, ending);
    lemma_decode_joined(commit, ending);
}

/// A commit for a session that has no buffer is answered with `proceed`,
/// whatever the blacklist holds, and changes nothing.
pub proof fn law_commit_without_buffer(
    sessions: Map<Seq<u8>, Seq<u8>>,
    blacklist: Seq<MatcherView>,
    commit: Seq<u8>,
    session: Seq<u8>,
    token: Seq<u8>,
)
    requires
        decode(commit) == (EventView::Commit { session, token }),
        !sessions.contains_key(session),
    ensures
        response(sessions, decode(commit), blacklist) == result_line(session, token, true),
        diagnostics(sessions, decode(commit), blacklist) == encode_utf8("Allowing\n"@),
        sessions_after(sessions, decode(commit)) == sessions,
{
}

/// After `tx-begin` and then `link-disconnect` for a session, a commit for
/// that session is answered with `proceed`, whatever the filter held before
/// and whatever the blacklist holds.
pub proof fn law_commit_after_disconnect(
    sessions: Map<Seq<u8>, Seq<u8>>,
    blacklist: Seq<MatcherView>,
    begin: Seq<u8>,
    disconnect: Seq<u8>,
    commit: Seq<u8>,
    session: Seq<u8>,
    token: Seq<u8>,
)
    requires
        decode(begin) == (EventView::TxBegin { session }),
        decode(disconnect) == (EventView::LinkDisconnect { session }),
        decode(commit) == (EventView::Commit { session, token }),
    ensures
        ({
            let opened = sessions_after(sessions, decode(begin));
            let closed = sessions_after(opened, decode(disconnect));
            &&& !closed.contains_key(session)
            &&& response(closed, decode(commit), blacklist) == result_line(session, token, true)
            &&& diagnostics(closed, decode(commit), blacklist) == encode_utf8("Allowing\n"@)
        }),
{
    let opened = sessions_after(sessions, decode(begin));
    let closed = sessions_after(opened, decode(disconnect));
    law_commit_without_buffer(closed, blacklist, commit, session, token);
}

/// A data line is handed back to the agent as it came: behind the words
/// `filter-dataline`, the session and the token stands the text that the
/// line holds behind its token, byte for byte, whatever the filter holds.
/// Nothing goes to the diagnostic stream.
pub proof fn law_data_line_is_echoed(
    sessions: Map<Seq<u8>, Seq<u8>>,
    blacklist: Seq<MatcherView>,
    line: Seq<u8>,
    session: Seq<u8>,
    token: Seq<u8>,
    rest: Seq<Seq<u8>>,
)
    requires
        decode(line) == (EventView::DataLine { session, token, rest }),
    ensures
        response(sessions, decode(line), blacklist) == echo_line(session, token, rest),
        diagnostics(sessions, decode(line), blacklist) == Seq::<u8>::empty(),
        ({
            let fields = split(strip_line_end(line), FIELD_SEPARATOR);
            let head = join(fields.subrange(0, 7), seq![FIELD_SEPARATOR]);
            &&& fields.len() >= 7
            &&& fields[5] == session
            &&& fields[6] == token
            &&& strip_line_end(line) == if rest.len() == 0 {
                head
            } else {
                head + seq![FIELD_SEPARATOR] + data_text(rest)
            }
            &&& rest.len() == 0 ==> data_text(rest) == Seq::<u8>::empty()
        }),
{
    let fields = split(strip_line_end(line), FIELD_SEPARATOR);
    lemma_join_split(strip_line_end(line), FIELD_SEPARATOR);
    lemma_join_parts(fields, 7, seq![FIELD_SEPARATOR]);
}

/// The line that ends the mail is handed back to the agent like every data
/// line, and is not put into the buffer.
pub proof fn law_sentinel_is_not_stored(
    sessions: Map<Seq<u8>, Seq<u8>>,
    blacklist: Seq<MatcherView>,
    line: Seq<u8>,
    session: Seq<u8>,
    token: Seq<u8>,
    rest: Seq<Seq<u8>>,
)
    requires
        decode(line) == (EventView::DataLine { session, token, rest }),
        is_sentinel(rest),
    ensures
        sessions_after(sessions, decode(line)) == sessions,
        response(sessions, decode(line), blacklist) == echo_line(session, token, rest),
{
}

/// The bytes of `lines`, each with a line feed behind it.
pub open spec fn mail_text(lines: Seq<Seq<u8>>) -> Seq<u8>
    decreases lines.len(),
{
    if lines.len() == 0 {
        Seq::<u8>::empty()
    } else {
        mail_text(lines.drop_last()) + lines.last() + seq![LINE_FEED]
    }
}

/// Whether `mail` is made of whole lines, none of which is the line that
/// ends a mail.
pub open spec fn sentinel_free(mail: Seq<u8>) -> bool {
    exists|lines: Seq<Seq<u8>>|
        mail == mail_text(lines) && forall|i: int|
            0 <= i < lines.len() ==> free_of(#[trigger] lines[i], LINE_FEED) && lines[i]
                != encode_utf8("."@)
}

/// Whether every buffer is made of whole lines, none of which is the line
/// that ends a mail.
pub open spec fn sentinel_free_all(sessions: Map<Seq<u8>, Seq<u8>>) -> bool {
    forall|id: Seq<u8>| sessions.contains_key(id) ==> sentinel_free(#[trigger] sessions[id])
}

/// Whether `event` is a data line for an open session that is not the line
/// that ends a mail, but holds that line between line feeds of its own.
pub open spec fn smuggles_sentinel(sessions: Map<Seq<u8>, Seq<u8>>, event: EventView) -> bool {
    &&& event matches EventView::DataLine { session, token, rest }
    &&& sessions.contains_key(session)
    &&& !is_sentinel(rest)
    &&& exists|i: int|
        0 <= i < split(data_text(rest), LINE_FEED).len() && #[trigger] split(
            data_text(rest),
            LINE_FEED,
        )[i] == encode_utf8("."@)
}

/// Lines one after the other are the lines of the first text, then those of
/// the second.
proof fn lemma_mail_text_added(first: Seq<Seq<u8>>, second: Seq<Seq<u8>>)
    ensures
        mail_text(first + second) == mail_text(first) + mail_text(second),
    decreases second.len(),
{
    if second.len() == 0 {
        assert(first + second == first);
    } else {
        assert((first + second).drop_last() == first + second.drop_last());
        lemma_mail_text_added(first, second.drop_last());
    }
}

/// A text with a line feed behind it is the lines that the text holds
/// between its own line feeds.
proof fn lemma_mail_text_split(text: Seq<u8>)
    ensures
        mail_text(split(text, LINE_FEED)) == text + seq![LINE_FEED],
{
    lemma_split_fields(text, LINE_FEED);
    lemma_join_split(text, LINE_FEED);
    lemma_mail_text_joined(split(text, LINE_FEED));
}

/// Lines with a line feed behind each are the lines joined by line feeds,
/// with one more line feed at the end.
proof fn lemma_mail_text_joined(lines: Seq<Seq<u8>>)
    requires
        lines.len() >= 1,
    ensures
        mail_text(lines) == join(lines, seq![LINE_FEED]) + seq![LINE_FEED],
    decreases lines.len(),
{
    if lines.len() == 1 {
        assert(mail_text(lines.drop_last()) == Seq::<u8>::empty());
    } else {
        lemma_mail_text_joined(lines.drop_last());
    }
}

/// A data line that is not the line that ends a mail does not have the
/// text of that line.
proof fn lemma_text_is_no_sentinel(rest: Seq<Seq<u8>>)
    requires
        !is_sentinel(rest),
    ensures
        data_text(rest) != encode_utf8("."@),
{
    reveal_strlit(".");
    is_ascii_chars_encode_utf8("."@);
    if rest.len() >= 2 {
        // A text joined from two fields or more holds the separator.
        let front = join(rest.drop_last(), seq![FIELD_SEPARATOR]);
        assert(data_text(rest)[front.len() as int] == FIELD_SEPARATOR);
    }
}

/// The line that ends a mail never stands in a buffer: where every buffer
/// is made of whole lines without it, that is so again after any line of
/// the agent, but for a data line that holds a single dot between line
/// feeds of its own.
pub proof fn law_buffers_hold_no_sentinel(sessions: Map<Seq<u8>, Seq<u8>>, line: Seq<u8>)
    requires
        sentinel_free_all(sessions),
        !smuggles_sentinel(sessions, decode(line)),
    ensures
        sentinel_free_all(sessions_after(sessions, decode(line))),
{
    let after = sessions_after(sessions, decode(line));
    match decode(line) {
        EventView::TxBegin { session } => {
            assert(Seq::<u8>::empty() == mail_text(Seq::<Seq<u8>>::empty()));
            assert forall|id: Seq<u8>| after.contains_key(id) implies sentinel_free(
                #[trigger] after[id],
            ) by {
                if id != session {
                    assert(sentinel_free(sessions[id]));
                }
            }
        },
        EventView::LinkDisconnect { session } => {
            assert forall|id: Seq<u8>| after.contains_key(id) implies sentinel_free(
                #[trigger] after[id],
            ) by {
                assert(sentinel_free(sessions[id]));
            }
        },
        EventView::DataLine { session, token, rest } => {
            if sessions.contains_key(session) && !is_sentinel(rest) {
                let text = data_text(rest);
                let added = split(text, LINE_FEED);
                lemma_split_fields(text, LINE_FEED);
                lemma_mail_text_split(text);
                assert(encode_utf8("\n"@) == seq![LINE_FEED]) by {
                    reveal_strlit("\n");
                    is_ascii_chars_encode_utf8("\n"@);
                }
                let lines = choose|lines: Seq<Seq<u8>>|
                    sessions[session] == mail_text(lines) && forall|i: int|
                        0 <= i < lines.len() ==> free_of(#[trigger] lines[i], LINE_FEED) && lines[i]
                            != encode_utf8("."@);
                let longer = lines + added;
                lemma_mail_text_added(lines, added);
                assert(after[session] == mail_text(longer));
                assert forall|i: int| 0 <= i < longer.len() implies free_of(
                    #[trigger] longer[i],
                    LINE_FEED,
                ) && longer[i] != encode_utf8("."@) by {
                    if i >= lines.len() {
                        assert(longer[i] == added[i - lines.len()]);
                    } else {
                        assert(longer[i] == lines[i]);
                    }
                }
                assert forall|id: Seq<u8>| after.contains_key(id) implies sentinel_free(
                    #[trigger] after[id],
                ) by {
                    if id != session {
                        assert(sentinel_free(sessions[id]));
                    }
                }
            }
        },
        _ => {},
    }
}

/// A line that holds no line feed but at its end, as a line does that was
/// read up to the first line feed, brings no line that ends a mail into a
/// buffer.
pub proof fn lemma_read_line_smuggles_nothing(sessions: Map<Seq<u8>, Seq<u8>>, line: Seq<u8>)
    requires
        forall|i: int| 0 <= i < line.len() - 1 ==> line[i] != LINE_FEED,
    ensures
        !smuggles_sentinel(sessions, decode(line)),
{
    if let EventView::DataLine { session, token, rest } = decode(line) {
        if !is_sentinel(rest) {
            let stripped = strip_line_end(line);
            let text = data_text(rest);
            assert(free_of(stripped, LINE_FEED)) by {
                lemma_strip_line_end(line);
                assert forall|i: int| 0 <= i < stripped.len() implies stripped[i] != LINE_FEED by {
                    assert(stripped[i] == line[i]);
                }
            }
            let fields = split(stripped, FIELD_SEPARATOR);
            lemma_join_split(stripped, FIELD_SEPARATOR);
            lemma_join_parts(fields, 7, seq![FIELD_SEPARATOR]);
            assert(free_of(text, LINE_FEED)) by {
                if rest.len() > 0 {
                    let skip = stripped.len() - text.len();
                    assert forall|i: int| 0 <= i < text.len() implies text[i] != LINE_FEED by {
                        assert(text[i] == stripped[skip + i]);
                    }
                }
            }
            lemma_split_single(text, LINE_FEED);
            lemma_text_is_no_sentinel(rest);
        }
    }
}

/// `tx-begin` leaves the session with an empty buffer, whatever it held,
/// and leaves every other session as it was.
pub proof fn law_tx_begin_discards(
    sessions: Map<Seq<u8>, Seq<u8>>,
    begin: Seq<u8>,
    session: Seq<u8>,
)
    requires
        decode(begin) == (EventView::TxBegin { session }),
    ensures
        mail_of(sessions_after(sessions, decode(begin)), session) == Some(Seq::<u8>::empty()),
        forall|other: Seq<u8>|
            other != session ==> mail_of(sessions_after(sessions, decode(begin)), other)
                == mail_of(sessions, other),
{
}

/// What an event makes of the buffer of a session depends on that buffer
/// and the event alone.
proof fn lemma_sessions_apart(
    first: Map<Seq<u8>, Seq<u8>>,
    second: Map<Seq<u8>, Seq<u8>>,
    event: EventView,
    session: Seq<u8>,
)
    requires
        mail_of(first, session) == mail_of(second, session),
    ensures
        mail_of(sessions_after(first, event), session) == mail_of(
            sessions_after(second, event),
            session,
        ),
{
}

/// Nothing of what a session held before a `tx-begin` reaches the new
/// transaction: after the `tx-begin` and any further lines, the buffer of the
/// session, and with it the answer to a commit for it, is the same whatever
/// the filter held before.
pub proof fn law_transactions_do_not_leak(
    first: Map<Seq<u8>, Seq<u8>>,
    second: Map<Seq<u8>, Seq<u8>>,
    blacklist: Seq<MatcherView>,
    begin: Seq<u8>,
    lines: Seq<Seq<u8>>,
    commit: Seq<u8>,
    session: Seq<u8>,
    token: Seq<u8>,
)
    requires
        decode(begin) == (EventView::TxBegin { session }),
        decode(commit) == (EventView::Commit { session, token }),
    ensures
        ({
            let one = sessions_after_all(sessions_after(first, decode(begin)), lines);
            let other = sessions_after_all(sessions_after(second, decode(begin)), lines);
            &&& mail_of(one, session) == mail_of(other, session)
            &&& response(one, decode(commit), blacklist) == response(
                other,
                decode(commit),
                blacklist,
            )
            &&& diagnostics(one, decode(commit), blacklist) == diagnostics(
                other,
                decode(commit),
                blacklist,
            )
        }),
    decreases lines.len(),
{
    if lines.len() > 0 {
        law_transactions_do_not_leak(
            first,
            second,
            blacklist,
            begin,
            lines.drop_last(),
            commit,
            session,
            token,
        );
        lemma_sessions_apart(
            sessions_after_all(sessions_after(first, decode(begin)), lines.drop_last()),
            sessions_after_all(sessions_after(second, decode(begin)), lines.drop_last()),
            decode(lines.last()),
            session,
        );
    }
}

/// With an empty blacklist every commit is answered with `proceed`.
pub proof fn law_empty_blacklist_allows(
    sessions: Map<Seq<u8>, Seq<u8>>,
    blacklist: Seq<MatcherView>,
    commit: Seq<u8>,
    session: Seq<u8>,
    token: Seq<u8>,
)
    requires
        blacklist.len() == 0,
        decode(commit) == (EventView::Commit { session, token }),
    ensures
        response(sessions, decode(commit), blacklist) == result_line(session, token, true),
{
}

} // verus!
