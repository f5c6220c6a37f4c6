//! Reading a message's header fields, body and attachments through
//! `mail_parser`. A parsed message is kept together with the bytes it was
//! parsed from, so that what each accessor finds can be named as a
//! function of those bytes.

use mail_parser::Message as ParsedMail;
use mail_parser::MimeHeaders;
use vstd::prelude::*;

use crate::imap::raw_addrs_view;

verus! {

/// `mail_parser::Message`, carried through unchanged.
#[verifier::external_type_specification]
#[verifier::external_body]
pub struct ExParsedMail<'x>(ParsedMail<'x>);

/// A message parsed by `mail_parser` together with the bytes it was
/// parsed from. Only `parse_mail` builds one, so `mail` is always what
/// `mail_parser` made of `raw`.
pub struct ParsedMessage<'x> {
    raw: &'x [u8],
    mail: ParsedMail<'x>,
}

impl<'x> ParsedMessage<'x> {
    /// The bytes the message was parsed from.
    pub closed spec fn source(&self) -> Seq<u8> {
        self.raw@
    }
}

/// A string's characters, if there is a string.
pub open spec fn opt_chars(o: Option<String>) -> Option<Seq<char>> {
    match o {
        Some(s) => Some(s@),
        None => None,
    }
}

/// Whether `mail_parser` makes a message out of `raw`; a function of the
/// bytes alone.
pub uninterp spec fn mail_parses(raw: Seq<u8>) -> bool;

/// Calls `MessageParser::default().parse(raw)` and keeps `raw` beside
/// the result. The contract names whether it succeeds `mail_parses`.
#[verifier::external_body]
pub(crate) fn parse_mail(raw: &[u8]) -> (r: Option<ParsedMessage<'_>>)
    ensures
        r is Some == mail_parses(raw@),
        r matches Some(p) ==> p.source() == raw@,
{
    match mail_parser::MessageParser::default().parse(raw) {
        Some(mail) => Some(ParsedMessage { raw, mail }),
        None => None,
    }
}

/// The `Subject` header `mail_parser` reads from `raw`; a function of
/// the bytes alone.
pub uninterp spec fn mail_subject_of(raw: Seq<u8>) -> Option<Seq<char>>;

/// Calls `Message::subject`. The contract names the result
/// `mail_subject_of` the parsed bytes.
#[verifier::external_body]
pub(crate) fn mail_subject(p: &ParsedMessage) -> (r: Option<String>)
    ensures
        opt_chars(r) == mail_subject_of(p.source()),
{
    p.mail.subject().map(|s| s.to_string())
}

/// The `From` header's addresses (a group's members in turn, through
/// `Address::iter`) as name and address, as `mail_parser` reads them from
/// `raw`; a function of the bytes alone.
pub uninterp spec fn mail_from_of(raw: Seq<u8>) -> Seq<(Option<Seq<char>>, Option<Seq<char>>)>;

/// Calls `Message::from` and lists its addresses. The contract names the
/// result `mail_from_of` the parsed bytes.
#[verifier::external_body]
pub(crate) fn mail_from(p: &ParsedMessage) -> (r: Vec<(Option<String>, Option<String>)>)
    ensures
        raw_addrs_view(r@) == mail_from_of(p.source()),
{
    match p.mail.from() {
        Some(a) => a.iter().map(|x| (x.name().map(|n| n.to_string()), x.address().map(|e| e.to_string()))).collect(),
        None => Vec::new(),
    }
}

/// The `To` header's addresses, read as `mail_from_of` reads `From`; a
/// function of the bytes alone.
pub uninterp spec fn mail_to_of(raw: Seq<u8>) -> Seq<(Option<Seq<char>>, Option<Seq<char>>)>;

/// Calls `Message::to` and lists its addresses. The contract names the
/// result `mail_to_of` the parsed bytes.
#[verifier::external_body]
pub(crate) fn mail_to(p: &ParsedMessage) -> (r: Vec<(Option<String>, Option<String>)>)
    ensures
        raw_addrs_view(r@) == mail_to_of(p.source()),
{
    match p.mail.to() {
        Some(a) => a.iter().map(|x| (x.name().map(|n| n.to_string()), x.address().map(|e| e.to_string()))).collect(),
        None => Vec::new(),
    }
}

/// The `Date` header as `mail_parser` reads it from `raw`: year, month,
/// day, hour, minute, second; a function of the bytes alone.
pub uninterp spec fn mail_date_of(raw: Seq<u8>) -> Option<(u16, u8, u8, u8, u8, u8)>;

/// Calls `Message::date`. The contract names the result `mail_date_of`
/// the parsed bytes.
#[verifier::external_body]
pub(crate) fn mail_date(p: &ParsedMessage) -> (r: Option<(u16, u8, u8, u8, u8, u8)>)
    ensures
        r == mail_date_of(p.source()),
{
    p.mail.date().map(|d| (d.year, d.month, d.day, d.hour, d.minute, d.second))
}

/// The first text body `mail_parser` finds in `raw`; a function of the
/// bytes alone.
pub uninterp spec fn mail_body_text_of(raw: Seq<u8>) -> Option<Seq<char>>;

/// Calls `Message::body_text(0)`. The contract names the result
/// `mail_body_text_of` the parsed bytes.
#[verifier::external_body]
pub(crate) fn mail_body_text(p: &ParsedMessage) -> (r: Option<String>)
    ensures
        opt_chars(r) == mail_body_text_of(p.source()),
{
    p.mail.body_text(0).map(|c| c.into_owned())
}

/// The first HTML body `mail_parser` finds in `raw`; a function of the
/// bytes alone.
pub uninterp spec fn mail_body_html_of(raw: Seq<u8>) -> Option<Seq<char>>;

/// Calls `Message::body_html(0)`. The contract names the result
/// `mail_body_html_of` the parsed bytes.
#[verifier::external_body]
pub(crate) fn mail_body_html(p: &ParsedMessage) -> (r: Option<String>)
    ensures
        opt_chars(r) == mail_body_html_of(p.source()),
{
    p.mail.body_html(0).map(|c| c.into_owned())
}

/// The attachment at position `pos` that `mail_parser` finds in `raw`:
/// its name, if it has one, and its content; `None` past the last one. A
/// function of its arguments alone.
pub uninterp spec fn mail_attachment_of(raw: Seq<u8>, pos: int) -> Option<(Option<Seq<char>>, Seq<u8>)>;

/// Calls `Message::attachment(pos)`: the attachment's name and its
/// content's size. The contract states both over `mail_attachment_of`.
#[verifier::external_body]
pub(crate) fn mail_attachment(p: &ParsedMessage, pos: usize) -> (r: Option<(Option<String>, u64)>)
    ensures
        match r {
            Some((name, size)) => mail_attachment_of(p.source(), pos as int) matches Some((n, c))
                && opt_chars(name) == n && size == c.len(),
            None => mail_attachment_of(p.source(), pos as int) is None,
        },
{
    p.mail.attachment(pos).map(|a| (a.attachment_name().map(|n| n.to_string()), a.contents().len() as u64))
}

/// Calls `Message::attachment(pos)` and copies its content (nothing past
/// the last attachment). The contract states it over
/// `mail_attachment_of`.
#[verifier::external_body]
pub(crate) fn mail_attachment_bytes(p: &ParsedMessage, pos: usize) -> (r: Vec<u8>)
    ensures
        r@ == (match mail_attachment_of(p.source(), pos as int) {
            Some((_, c)) => c,
            None => Seq::empty(),
        }),
{
    p.mail.attachment(pos).map(|a| a.contents().to_vec()).unwrap_or_default()
}

} // verus!
