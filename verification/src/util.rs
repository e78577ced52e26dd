//! Joining fields and scanning a text against the blacklist.

use crate::bytes::append_bytes;
use crate::cli::{Matcher, MatcherView};
use crate::fields::{join, views};
use vstd::prelude::*;

verus! {

/// The character sequence of a text that may be absent.
pub open spec fn text_of(content: Option<&str>) -> Option<Seq<char>> {
    match content {
        Some(text) => Some(text@),
        None => None,
    }
}

/// Whether no matcher of `blacklist` matches `content`. An absent text is
/// matched by nothing.
pub open spec fn scan_allows(content: Option<Seq<char>>, blacklist: Seq<MatcherView>) -> bool {
    match content {
        Some(text) => forall|i: int|
            0 <= i < blacklist.len() ==> !(#[trigger] blacklist[i]).hits(text),
        None => true,
    }
}

/// The diagnostic lines of the matchers of `blacklist` that match `text`,
/// in the order of the blacklist.
pub open spec fn complaints(
    text: Seq<char>,
    kind: Seq<char>,
    blacklist: Seq<MatcherView>,
) -> Seq<u8>
    decreases blacklist.len(),
{
    if blacklist.len() == 0 {
        Seq::<u8>::empty()
    } else {
        complaints(text, kind, blacklist.drop_last()) + if blacklist.last().hits(text) {
            blacklist.last().complaint(kind)
        } else {
            Seq::<u8>::empty()
        }
    }
}

/// What a scan of `content` writes to the diagnostic stream.
pub open spec fn scan_report(
    content: Option<Seq<char>>,
    kind: Seq<char>,
    blacklist: Seq<MatcherView>,
) -> Seq<u8> {
    match content {
        Some(text) => complaints(text, kind, blacklist),
        None => Seq::<u8>::empty(),
    }
}

/// Appends to `writer` the parts in order, with `sep` between each two
/// neighbours.
pub fn join_write_bytes(writer: &mut Vec<u8>, sep: &[u8], parts: &[&[u8]])
    ensures
        final(writer)@ == old(writer)@ + join(views(parts@), sep@),
{
    if parts.len() == 0 {
        return ;
    }
    append_bytes(writer, parts[0]);
    let mut i: usize = 1;
    while i < parts.len()
        invariant
            1 <= i <= parts@.len(),
            writer@ == old(writer)@ + join(views(parts@).subrange(0, i as int), sep@),
        decreases parts@.len() - i,
    {
        append_bytes(writer, sep);
        append_bytes(writer, parts[i]);
        proof {
            let upto = views(parts@).subrange(0, i + 1);
            assert(upto.drop_last() == views(parts@).subrange(0, i as int));
        }
        i += 1;
    }
    assert(views(parts@).subrange(0, i as int) == views(parts@));
}

/// Tries every matcher of `blacklist` on `content`, the part of the mail
/// called `kind`. Each one that matches is written to `std_err` and
/// withdraws `allow`; the scan does not stop at the first. An absent
/// `content` is not scanned.
pub fn scan_content(
    content: Option<&str>,
    kind: &str,
    blacklist: &Vec<Matcher>,
    allow: &mut bool,
    std_err: &mut Vec<u8>,
)
    ensures
        *final(allow) == (*old(allow) && scan_allows(text_of(content), blacklist.deep_view())),
        final(std_err)@ == old(std_err)@ + scan_report(
            text_of(content),
            kind@,
            blacklist.deep_view(),
        ),
{
    match content {
        None => {},
        Some(text) => {
            let mut i: usize = 0;
            while i < blacklist.len()
                invariant
                    i <= blacklist@.len(),
                    blacklist.deep_view().len() == blacklist@.len(),
                    *allow == (*old(allow) && scan_allows(
                        Some(text@),
                        blacklist.deep_view().subrange(0, i as int),
                    )),
                    std_err@ == old(std_err)@ + complaints(
                        text@,
                        kind@,
                        blacklist.deep_view().subrange(0, i as int),
                    ),
                decreases blacklist@.len() - i,
            {
                let keyphrase = &blacklist[i];
                let hit = keyphrase.matches(text);
                keyphrase.note(hit, kind, allow, std_err);
                proof {
                    let upto = blacklist.deep_view().subrange(0, i + 1);
                    let before = blacklist.deep_view().subrange(0, i as int);
                    assert(upto.drop_last() == before);
                    if scan_allows(Some(text@), before) && !hit {
                        assert forall|k: int| 0 <= k < upto.len() implies !(
                            #[trigger] upto[k]
                        ).hits(text@) by {
                            if k < i {
                                assert(before[k] == upto[k]);
                            }
                        }
                    }
                    if scan_allows(Some(text@), upto) {
                        assert forall|k: int| 0 <= k < before.len() implies !(
                            #[trigger] before[k]
                        ).hits(text@) by {
                            assert(before[k] == upto[k]);
                        }
                    }
                }
                i += 1;
            }
            assert(blacklist.deep_view().subrange(0, i as int) == blacklist.deep_view());
        },
    }
}

} // verus!
