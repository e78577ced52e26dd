//! The two engines that this library calls and does not verify: the
//! regular-expression engine of the `regex` crate and the header parser of
//! the `mail_parser` crate. What they compute is given a name here, and the
//! rest of the library is proved over those names.

use vstd::prelude::*;

verus! {

/// Whether `regex::Regex::new` accepts `pattern`.
pub uninterp spec fn regex_compiles(pattern: Seq<char>) -> bool;

/// Whether the regular expression compiled from `pattern` matches anywhere
/// in `text`: whether `regex::Regex::find` returns a match.
pub uninterp spec fn regex_finds(pattern: Seq<char>, text: Seq<char>) -> bool;

/// The text of the error with which `regex::Regex::new` refuses `pattern`.
pub uninterp spec fn regex_complaint(pattern: Seq<char>) -> Seq<char>;

/// What `mail_parser`, set up to read the Subject header as text and every
/// other header as it stands, makes of the headers of the raw message
/// `raw`: `None` where it finds no header at all, else the text of the
/// Subject header, which is `None` where the message has no such header or
/// its value is empty.
pub uninterp spec fn parsed_subject(raw: Seq<u8>) -> Option<Option<Seq<char>>>;

/// The character sequences behind the outcome of a header parse.
pub open spec fn subject_text(parsed: Option<Option<String>>) -> Option<Option<Seq<char>>> {
    match parsed {
        None => None,
        Some(None) => Some(None),
        Some(Some(subject)) => Some(Some(subject@)),
    }
}

/// Compiles `pattern` with `regex::Regex::new` and searches `text` with
/// `regex::Regex::find`.
///
/// Trusted: the outcome is `Ok` exactly for the patterns that the engine
/// accepts, and then tells whether `find` returned a match; for the others
/// it is the error's `Display` text. All three depend on the arguments
/// alone. Neither call panics.
#[verifier::external_body]
pub(crate) fn regex_search(pattern: &str, text: &str) -> (found: Result<bool, String>)
    ensures
        found is Ok <==> regex_compiles(pattern@),
        found matches Ok(hit) ==> hit == regex_finds(pattern@, text@),
        found matches Err(why) ==> why@ == regex_complaint(pattern@),
{
    match regex::Regex::new(pattern) {
        Ok(compiled) => Ok(compiled.find(text).is_some()),
        Err(err) => Err(err.to_string()),
    }
}

/// Parses the headers of `raw` with a `mail_parser::MessageParser` that
/// `MessageParser::new` and `header_text(HeaderName::Subject)` set up, by
/// its `parse_headers`, and reads the Subject with `Message::subject`.
///
/// Trusted: the outcome depends on the bytes alone, and no input makes the
/// call panic. With a parser for the Subject alone, `parse_headers` runs
/// the header loop and `parse_header_name`, `parse_unstructured` for the
/// Subject and `parse_raw` for every other header; none of the parsers for
/// dates, addresses, identifiers, content types or `Received` headers is
/// reached. `parse_unstructured` decodes encoded words with
/// `decode_rfc2047`, the word decoders for base64 and quoted-printable and
/// the charset decoders. In these the stream is read through `get` and an
/// iterator, the decoding tables have an entry for every byte, and the
/// offsets that are subtracted are never the smaller ones. `subject` reads
/// the first part of the message, which every returned message has.
#[verifier::external_body]
pub(crate) fn parse_subject(raw: &[u8]) -> (parsed: Option<Option<String>>)
    ensures
        subject_text(parsed) == parsed_subject(raw@),
{
    let parser = mail_parser::MessageParser::new().header_text(mail_parser::HeaderName::Subject);
    match parser.parse_headers(raw) {
        Some(message) => Some(message.subject().map(|text| text.to_string())),
        None => None,
    }
}

} // verus!
