//! Protocol lines as byte strings: the line ending and the fields between
//! separators.

use vstd::prelude::*;

verus! {

/// The carriage return.
pub const CARRIAGE_RETURN: u8 = 0x0d;

/// The line feed.
pub const LINE_FEED: u8 = 0x0a;

/// Whether `b` belongs to a line ending: a carriage return or a line feed.
pub open spec fn is_line_end(b: u8) -> bool {
    b == CARRIAGE_RETURN || b == LINE_FEED
}

/// `line` without the carriage returns and line feeds at its end.
pub open spec fn strip_line_end(line: Seq<u8>) -> Seq<u8>
    decreases line.len(),
{
    if line.len() > 0 && is_line_end(line.last()) {
        strip_line_end(line.drop_last())
    } else {
        line
    }
}

/// The fields of `s`: the parts between the occurrences of `sep`, in order.
/// There is always at least one field, and a field may be empty.
pub open spec fn split(s: Seq<u8>, sep: u8) -> Seq<Seq<u8>>
    decreases s.len(),
{
    if s.len() == 0 {
        seq![Seq::<u8>::empty()]
    } else {
        let before = split(s.drop_last(), sep);
        if s.last() == sep {
            before.push(Seq::<u8>::empty())
        } else {
            before.drop_last().push(before.last().push(s.last()))
        }
    }
}

/// The parts in order with `sep` between each two neighbours.
pub open spec fn join(parts: Seq<Seq<u8>>, sep: Seq<u8>) -> Seq<u8>
    decreases parts.len(),
{
    if parts.len() == 0 {
        Seq::<u8>::empty()
    } else if parts.len() == 1 {
        parts[0]
    } else {
        join(parts.drop_last(), sep) + sep + parts.last()
    }
}

/// The byte strings that a sequence of slices holds.
pub open spec fn views(parts: Seq<&[u8]>) -> Seq<Seq<u8>> {
    Seq::new(parts.len(), |i: int| parts[i]@)
}

/// Whether no byte of `s` is `b`.
pub open spec fn free_of(s: Seq<u8>, b: u8) -> bool {
    forall|i: int| 0 <= i < s.len() ==> s[i] != b
}

/// Whether every byte of `s` belongs to a line ending.
pub open spec fn is_ending(s: Seq<u8>) -> bool {
    forall|i: int| 0 <= i < s.len() ==> is_line_end(#[trigger] s[i])
}

/// Stripping takes off exactly the line ending: what is left does not end in
/// one, and the line is what is left followed by bytes of a line ending.
pub proof fn lemma_strip_line_end(line: Seq<u8>)
    ensures
        strip_line_end(line).len() <= line.len(),
        strip_line_end(line) == line.subrange(0, strip_line_end(line).len() as int),
        is_ending(line.subrange(strip_line_end(line).len() as int, line.len() as int)),
        strip_line_end(line).len() > 0 ==> !is_line_end(strip_line_end(line).last()),
    decreases line.len(),
{
    if line.len() > 0 && is_line_end(line.last()) {
        lemma_strip_line_end(line.drop_last());
        let kept = strip_line_end(line).len() as int;
        let tail = line.subrange(kept, line.len() as int);
        assert forall|i: int| 0 <= i < tail.len() implies is_line_end(#[trigger] tail[i]) by {
            if i < tail.len() - 1 {
                assert(tail[i] == line.drop_last().subrange(kept, line.len() - 1)[i]);
            }
        }
    }
}

/// A text that does not end in a line ending is what stripping leaves of it
/// with any line ending behind it.
pub proof fn lemma_strip_added_ending(text: Seq<u8>, ending: Seq<u8>)
    requires
        text.len() > 0 ==> !is_line_end(text.last()),
        is_ending(ending),
    ensures
        strip_line_end(text + ending) == text,
    decreases ending.len(),
{
    if ending.len() > 0 {
        assert((text + ending).drop_last() == text + ending.drop_last());
        assert(is_ending(ending.drop_last()));
        lemma_strip_added_ending(text, ending.drop_last());
    }
}

/// There is always a first field, and no field holds the separator.
pub proof fn lemma_split_fields(s: Seq<u8>, sep: u8)
    ensures
        split(s, sep).len() >= 1,
        forall|i: int| 0 <= i < split(s, sep).len() ==> free_of(#[trigger] split(s, sep)[i], sep),
    decreases s.len(),
{
    if s.len() > 0 {
        lemma_split_fields(s.drop_last(), sep);
    }
}

/// Joining the fields of a text with the separator gives the text back.
pub proof fn lemma_join_split(s: Seq<u8>, sep: u8)
    ensures
        join(split(s, sep), seq![sep]) == s,
    decreases s.len(),
{
    if s.len() > 0 {
        lemma_join_split(s.drop_last(), sep);
        lemma_split_fields(s.drop_last(), sep);
        let before = split(s.drop_last(), sep);
        let after = split(s, sep);
        if s.last() == sep {
            assert(after.drop_last() == before);
        } else if before.len() > 1 {
            assert(after.drop_last() == before.drop_last());
            assert(s.drop_last().push(s.last()) == s);
        }
    }
}

/// A text behind a separator is a field of its own, where it holds no
/// separator itself.
pub proof fn lemma_split_added_field(s: Seq<u8>, field: Seq<u8>, sep: u8)
    requires
        free_of(field, sep),
    ensures
        split(s + seq![sep] + field, sep) == split(s, sep).push(field),
    decreases field.len(),
{
    let whole = s + seq![sep] + field;
    if field.len() == 0 {
        assert(whole.drop_last() == s);
        assert(field == Seq::<u8>::empty());
    } else {
        let shorter = field.drop_last();
        assert(free_of(shorter, sep));
        lemma_split_added_field(s, shorter, sep);
        assert(whole.drop_last() == s + seq![sep] + shorter);
        assert(shorter.push(field.last()) == field);
    }
}

/// A text without the separator is its own single field.
pub proof fn lemma_split_single(field: Seq<u8>, sep: u8)
    requires
        free_of(field, sep),
    ensures
        split(field, sep) == seq![field],
    decreases field.len(),
{
    if field.len() > 0 {
        let shorter = field.drop_last();
        assert(free_of(shorter, sep));
        lemma_split_single(shorter, sep);
        assert(seq![shorter].drop_last().push(shorter.push(field.last())) == seq![field]) by {
            assert(shorter.push(field.last()) == field);
        }
    } else {
        assert(field == Seq::<u8>::empty());
    }
}

/// Fields without the separator come back from the text that joins them.
pub proof fn lemma_split_join(fields: Seq<Seq<u8>>, sep: u8)
    requires
        fields.len() >= 1,
        forall|i: int| 0 <= i < fields.len() ==> free_of(#[trigger] fields[i], sep),
    ensures
        split(join(fields, seq![sep]), sep) == fields,
    decreases fields.len(),
{
    if fields.len() == 1 {
        lemma_split_single(fields[0], sep);
    } else {
        let front = fields.drop_last();
        assert forall|i: int| 0 <= i < front.len() implies free_of(#[trigger] front[i], sep) by {}
        lemma_split_join(front, sep);
        lemma_split_added_field(join(front, seq![sep]), fields.last(), sep);
    }
}

/// Joining a sequence of parts is joining its front and its back, with a
/// separator between them where neither is empty.
pub proof fn lemma_join_parts(parts: Seq<Seq<u8>>, at: int, sep: Seq<u8>)
    requires
        0 <= at <= parts.len(),
    ensures
        join(parts, sep) == if at == 0 {
            join(parts.subrange(at, parts.len() as int), sep)
        } else if at == parts.len() {
            join(parts.subrange(0, at), sep)
        } else {
            join(parts.subrange(0, at), sep) + sep + join(
                parts.subrange(at, parts.len() as int),
                sep,
            )
        },
    decreases parts.len(),
{
    let count = parts.len() as int;
    if at == 0 {
        assert(parts.subrange(0, count) == parts);
    } else if at == count {
        assert(parts.subrange(0, count) == parts);
    } else {
        let front = parts.subrange(0, at);
        let back = parts.subrange(at, count);
        lemma_join_parts(parts.drop_last(), at, sep);
        assert(parts.drop_last().subrange(0, at) == front);
        if at < count - 1 {
            assert(parts.drop_last().subrange(at, count - 1) == back.drop_last());
        }
    }
}

/// The line without its ending: without the carriage returns and line
/// feeds at its end, however many there are.
pub fn trim_line_end(line: &[u8]) -> (trimmed: &[u8])
    ensures
        trimmed@ == strip_line_end(line@),
        trimmed@.len() <= line@.len(),
        trimmed@ == line@.subrange(0, trimmed@.len() as int),
        is_ending(line@.subrange(trimmed@.len() as int, line@.len() as int)),
        trimmed@.len() > 0 ==> !is_line_end(trimmed@.last()),
{
    proof {
        lemma_strip_line_end(line@);
    }
    let mut end: usize = line.len();
    assert(line@ == line@.subrange(0, end as int));
    while end > 0 && (line[end - 1] == CARRIAGE_RETURN || line[end - 1] == LINE_FEED)
        invariant
            end <= line@.len(),
            strip_line_end(line@) == strip_line_end(line@.subrange(0, end as int)),
        decreases end,
    {
        assert(line@.subrange(0, end as int).drop_last() == line@.subrange(0, end - 1));
        end -= 1;
    }
    &line[0..end]
}

/// Cuts `line` at each `sep`: the fields hold no `sep`, and joined by `sep`
/// they are the line again.
pub fn split_fields<'a>(line: &'a [u8], sep: u8) -> (fields: Vec<&'a [u8]>)
    ensures
        views(fields@) == split(line@, sep),
        fields@.len() >= 1,
        forall|i: int| 0 <= i < fields@.len() ==> free_of(#[trigger] fields@[i]@, sep),
        join(views(fields@), seq![sep]) == line@,
{
    let mut fields: Vec<&'a [u8]> = Vec::new();
    let mut start: usize = 0;
    let mut i: usize = 0;
    assert(line@.subrange(0, 0) == Seq::<u8>::empty());
    while i < line.len()
        invariant
            start <= i <= line@.len(),
            views(fields@).push(line@.subrange(start as int, i as int)) == split(
                line@.subrange(0, i as int),
                sep,
            ),
        decreases line@.len() - i,
    {
        let ghost open = line@.subrange(start as int, i as int);
        assert(line@.subrange(0, i + 1).drop_last() == line@.subrange(0, i as int));
        if line[i] == sep {
            fields.push(&line[start..i]);
            start = i + 1;
            assert(line@.subrange(start as int, i + 1) == Seq::<u8>::empty());
        } else {
            assert(open.push(line@[i as int]) == line@.subrange(start as int, i + 1));
        }
        i += 1;
    }
    assert(line@ == line@.subrange(0, i as int));
    let ghost done = views(fields@);
    fields.push(&line[start..i]);
    assert(views(fields@) == done.push(line@.subrange(start as int, i as int)));
    proof {
        lemma_split_fields(line@, sep);
        lemma_join_split(line@, sep);
        assert forall|k: int| 0 <= k < fields@.len() implies free_of(
            #[trigger] fields@[k]@,
            sep,
        ) by {
            assert(views(fields@)[k] == fields@[k]@);
        }
    }
    fields
}

} // verus!
