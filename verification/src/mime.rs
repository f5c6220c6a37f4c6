//! Parsing mailboxes and building messages with `lettre`. The message
//! builder, the parts and the built message are each kept together with
//! a record of what was handed to `lettre` for them (the emails of the
//! address headers, the subject, the text and attachment names of the
//! parts), so that what `lettre` makes of them can be stated over it.

use lettre::message::header::ContentType;
use lettre::message::{Attachment, Mailbox, MessageBuilder, MultiPart, SinglePart};
use lettre::Message as MimeMessage;
use vstd::prelude::*;

use crate::mailparse::opt_chars;
use crate::text::strings_view;

verus! {

/// What `lettre`'s `Mailbox::from_str` makes of `s` (`"Name <addr>"` or a
/// bare address): the mailbox's email address as text (`Address`'s
/// `Display`), or the error's text; a function of `s` alone.
pub uninterp spec fn parsed_mailbox(s: Seq<char>) -> Result<Seq<char>, Seq<char>>;

/// Why `lettre` refuses `s` as a mailbox, `None` when it accepts it.
pub open spec fn mailbox_error(s: Seq<char>) -> Option<Seq<char>> {
    match parsed_mailbox(s) {
        Ok(_) => None,
        Err(e) => Some(e),
    }
}

/// The email address of the mailbox `lettre` reads from `s`.
pub open spec fn mailbox_email(s: Seq<char>) -> Seq<char> {
    match parsed_mailbox(s) {
        Ok(e) => e,
        Err(_) => Seq::empty(),
    }
}

/// The email addresses of the mailboxes read from `pieces`, in order.
pub open spec fn emails_of(pieces: Seq<Seq<char>>) -> Seq<Seq<char>> {
    pieces.map_values(|p: Seq<char>| mailbox_email(p))
}

/// A mailbox parsed by `lettre` together with its email address as text.
/// Only `parse_mailbox` builds one.
pub struct ParsedMailbox {
    mailbox: Mailbox,
    email: String,
}

impl ParsedMailbox {
    /// The mailbox's email address.
    pub closed spec fn email(&self) -> Seq<char> {
        self.email@
    }
}

/// Parses `s` with `Mailbox`'s `FromStr` and takes the email address
/// (`mailbox.email.to_string()`); a refusal carries the error's text. The
/// contract names the outcome `parsed_mailbox`.
#[verifier::external_body]
pub(crate) fn parse_mailbox(s: &str) -> (r: Result<ParsedMailbox, String>)
    ensures
        match r {
            Ok(m) => parsed_mailbox(s@) == Ok::<Seq<char>, Seq<char>>(m.email()),
            Err(e) => parsed_mailbox(s@) == Err::<Seq<char>, Seq<char>>(e@),
        },
{
    match s.parse::<Mailbox>() {
        Ok(mailbox) => {
            let email = mailbox.email.to_string();
            Ok(ParsedMailbox { mailbox, email })
        },
        Err(e) => Err(e.to_string()),
    }
}

/// A `lettre` message builder together with the email addresses of the
/// mailboxes put into its `From`, `To`, `Cc` and `Bcc` headers, in the
/// order they were added. Only the functions of this module build or
/// change one, each recording the mailbox it hands to the builder.
pub struct Composer {
    builder: MessageBuilder,
    subject: Option<String>,
    from: Vec<String>,
    to: Vec<String>,
    cc: Vec<String>,
    bcc: Vec<String>,
}

impl Composer {
    /// The `Subject` header, once set.
    pub closed spec fn subject(&self) -> Option<Seq<char>> {
        opt_chars(self.subject)
    }

    /// The emails in the `From` header.
    pub closed spec fn from_emails(&self) -> Seq<Seq<char>> {
        strings_view(self.from@)
    }

    /// The emails in the `To` header.
    pub closed spec fn to_emails(&self) -> Seq<Seq<char>> {
        strings_view(self.to@)
    }

    /// The emails in the `Cc` header.
    pub closed spec fn cc_emails(&self) -> Seq<Seq<char>> {
        strings_view(self.cc@)
    }

    /// The emails in the `Bcc` header.
    pub closed spec fn bcc_emails(&self) -> Seq<Seq<char>> {
        strings_view(self.bcc@)
    }

    /// The envelope recipients `lettre` derives from the headers: the
    /// `To`, then the `Cc`, then the `Bcc` addresses.
    pub open spec fn envelope(&self) -> Seq<Seq<char>> {
        self.to_emails() + self.cc_emails() + self.bcc_emails()
    }

    /// Whether `lettre` builds a message from these headers: exactly one
    /// `From` mailbox (no `Sender` is ever set) and at least one envelope
    /// recipient.
    pub open spec fn buildable(&self) -> bool {
        self.from_emails().len() == 1 && self.envelope().len() > 0
    }
}

/// Calls `lettre::Message::builder`: a builder with no headers.
#[verifier::external_body]
pub(crate) fn message_builder() -> (r: Composer)
    ensures
        r.subject() is None,
        r.from_emails().len() == 0,
        r.to_emails().len() == 0,
        r.cc_emails().len() == 0,
        r.bcc_emails().len() == 0,
{
    Composer {
        builder: MimeMessage::builder(),
        subject: None,
        from: Vec::new(),
        to: Vec::new(),
        cc: Vec::new(),
        bcc: Vec::new(),
    }
}

/// Calls `MessageBuilder::from`: adds `m` to the `From` header.
#[verifier::external_body]
pub(crate) fn with_from(c: Composer, m: ParsedMailbox) -> (r: Composer)
    ensures
        r.subject() == c.subject(),
        r.from_emails() == c.from_emails().push(m.email()),
        r.to_emails() == c.to_emails(),
        r.cc_emails() == c.cc_emails(),
        r.bcc_emails() == c.bcc_emails(),
{
    let mut from = c.from;
    from.push(m.email);
    Composer { builder: c.builder.from(m.mailbox), subject: c.subject, from, to: c.to, cc: c.cc, bcc: c.bcc }
}

/// Calls `MessageBuilder::subject`: sets the `Subject` header to
/// `subject`; the address headers stay as they are.
#[verifier::external_body]
pub(crate) fn with_subject(c: Composer, subject: &str) -> (r: Composer)
    ensures
        r.subject() == Some(subject@),
        r.from_emails() == c.from_emails(),
        r.to_emails() == c.to_emails(),
        r.cc_emails() == c.cc_emails(),
        r.bcc_emails() == c.bcc_emails(),
{
    Composer {
        builder: c.builder.subject(subject.to_string()),
        subject: Some(subject.to_string()),
        from: c.from,
        to: c.to,
        cc: c.cc,
        bcc: c.bcc,
    }
}

/// Calls `MessageBuilder::to`: adds `m` to the `To` header.
#[verifier::external_body]
pub(crate) fn with_to(c: Composer, m: ParsedMailbox) -> (r: Composer)
    ensures
        r.subject() == c.subject(),
        r.from_emails() == c.from_emails(),
        r.to_emails() == c.to_emails().push(m.email()),
        r.cc_emails() == c.cc_emails(),
        r.bcc_emails() == c.bcc_emails(),
{
    let mut to = c.to;
    to.push(m.email);
    Composer { builder: c.builder.to(m.mailbox), subject: c.subject, from: c.from, to, cc: c.cc, bcc: c.bcc }
}

/// Calls `MessageBuilder::cc`: adds `m` to the `Cc` header.
#[verifier::external_body]
pub(crate) fn with_cc(c: Composer, m: ParsedMailbox) -> (r: Composer)
    ensures
        r.subject() == c.subject(),
        r.from_emails() == c.from_emails(),
        r.to_emails() == c.to_emails(),
        r.cc_emails() == c.cc_emails().push(m.email()),
        r.bcc_emails() == c.bcc_emails(),
{
    let mut cc = c.cc;
    cc.push(m.email);
    Composer { builder: c.builder.cc(m.mailbox), subject: c.subject, from: c.from, to: c.to, cc, bcc: c.bcc }
}

/// Calls `MessageBuilder::bcc`: adds `m` to the `Bcc` header.
#[verifier::external_body]
pub(crate) fn with_bcc(c: Composer, m: ParsedMailbox) -> (r: Composer)
    ensures
        r.subject() == c.subject(),
        r.from_emails() == c.from_emails(),
        r.to_emails() == c.to_emails(),
        r.cc_emails() == c.cc_emails(),
        r.bcc_emails() == c.bcc_emails().push(m.email()),
{
    let mut bcc = c.bcc;
    bcc.push(m.email);
    Composer { builder: c.builder.bcc(m.mailbox), subject: c.subject, from: c.from, to: c.to, cc: c.cc, bcc }
}

/// A part's record: the text of a plain-text part, or the file name of an
/// attachment part.
pub open spec fn content_view(p: (Option<String>, Option<String>)) -> (Option<Seq<char>>, Option<Seq<char>>) {
    (opt_chars(p.0), opt_chars(p.1))
}

/// A `lettre` part together with its record. Only the functions of this
/// module build one.
pub struct BodyPart {
    part: SinglePart,
    content: (Option<String>, Option<String>),
}

impl BodyPart {
    /// The part's record: its text, or its file name.
    pub closed spec fn content(&self) -> (Option<Seq<char>>, Option<Seq<char>>) {
        content_view(self.content)
    }
}

/// Calls `SinglePart::plain`: a `text/plain` part holding `body`.
#[verifier::external_body]
pub(crate) fn plain_part(body: &str) -> (r: BodyPart)
    ensures
        r.content() == (Some(body@), None::<Seq<char>>),
{
    BodyPart { part: SinglePart::plain(body.to_string()), content: (Some(body.to_string()), None) }
}

/// Calls `Attachment::new(filename).body(bytes, content_type)`: an
/// attachment part named `filename`.
#[verifier::external_body]
pub(crate) fn attachment_part(filename: &str, bytes: Vec<u8>, content_type: ContentType) -> (r: BodyPart)
    ensures
        r.content() == (None::<Seq<char>>, Some(filename@)),
{
    BodyPart {
        part: Attachment::new(filename.to_string()).body(bytes, content_type),
        content: (None, Some(filename.to_string())),
    }
}

/// A `lettre` multipart body together with the records of its parts, in
/// order. Only the functions of this module build one.
pub struct MixedBody {
    body: MultiPart,
    contents: Vec<(Option<String>, Option<String>)>,
}

impl MixedBody {
    /// The records of the parts, in order.
    pub closed spec fn contents(&self) -> Seq<(Option<Seq<char>>, Option<Seq<char>>)> {
        self.contents@.map_values(|p: (Option<String>, Option<String>)| content_view(p))
    }
}

/// Calls `MultiPart::mixed` and its builder's `singlepart`: a
/// `multipart/mixed` body whose one part is `first`.
#[verifier::external_body]
pub(crate) fn mixed_multipart(first: BodyPart) -> (r: MixedBody)
    ensures
        r.contents() == seq![first.content()],
{
    MixedBody { body: MultiPart::mixed().singlepart(first.part), contents: vec![first.content] }
}

/// Calls `MultiPart::singlepart`: appends `part` after the others.
#[verifier::external_body]
pub(crate) fn push_part(mp: MixedBody, part: BodyPart) -> (r: MixedBody)
    ensures
        r.contents() == mp.contents().push(part.content()),
{
    let mut contents = mp.contents;
    contents.push(part.content);
    MixedBody { body: mp.body.singlepart(part.part), contents }
}

/// A message `lettre` built, together with the records of its subject,
/// its content (the parts in order, a single text part for a plain
/// body) and the emails of its address headers. Only `build_text` and
/// `build_multipart` build one.
pub struct Composed {
    message: MimeMessage,
    subject: Option<String>,
    contents: Vec<(Option<String>, Option<String>)>,
    from: Vec<String>,
    to: Vec<String>,
    cc: Vec<String>,
    bcc: Vec<String>,
}

impl Composed {
    /// The emails in the `From` header.
    pub closed spec fn from_emails(&self) -> Seq<Seq<char>> {
        strings_view(self.from@)
    }

    /// The message itself.
    pub closed spec fn message(&self) -> MimeMessage {
        self.message
    }

    /// The `Subject` header, if one was set.
    pub closed spec fn subject(&self) -> Option<Seq<char>> {
        opt_chars(self.subject)
    }

    /// The content: the parts' records, in order.
    pub closed spec fn contents(&self) -> Seq<(Option<Seq<char>>, Option<Seq<char>>)> {
        self.contents@.map_values(|p: (Option<String>, Option<String>)| content_view(p))
    }

    /// The emails in the `To` header.
    pub closed spec fn to_emails(&self) -> Seq<Seq<char>> {
        strings_view(self.to@)
    }

    /// The emails in the `Cc` header.
    pub closed spec fn cc_emails(&self) -> Seq<Seq<char>> {
        strings_view(self.cc@)
    }

    /// The emails given for `Bcc` (kept out of the formatted message).
    pub closed spec fn bcc_emails(&self) -> Seq<Seq<char>> {
        strings_view(self.bcc@)
    }

    /// The message, for sending.
    pub(crate) fn into_message(self) -> (r: MimeMessage)
        ensures
            r == self.message(),
    {
        self.message
    }
}

/// Calls `MessageBuilder::body` with a plain text body and lists the
/// built message's envelope recipients (`Message::envelope().to()`) as
/// text; a refusal carries the error's text. `lettre` refuses exactly a
/// message without a `From` mailbox, with several and no `Sender`, or
/// with no recipient; the envelope lists the `To`, `Cc` and `Bcc`
/// addresses in that order.
#[verifier::external_body]
pub(crate) fn build_text(c: Composer, body: &str) -> (r: Result<(Composed, Vec<String>), String>)
    ensures
        r is Ok <==> c.buildable(),
        r matches Ok((m, rcpts)) ==> {
            &&& strings_view(rcpts@) == c.envelope()
            &&& m.subject() == c.subject()
            &&& m.contents() == seq![(Some(body@), None::<Seq<char>>)]
            &&& m.from_emails() == c.from_emails()
            &&& m.to_emails() == c.to_emails()
            &&& m.cc_emails() == c.cc_emails()
            &&& m.bcc_emails() == c.bcc_emails()
        },
{
    match c.builder.body(body.to_string()) {
        Ok(message) => {
            let rcpts = message.envelope().to().iter().map(|a| a.to_string()).collect();
            let contents = vec![(Some(body.to_string()), None)];
            Ok((Composed { message, subject: c.subject, contents, from: c.from, to: c.to, cc: c.cc, bcc: c.bcc }, rcpts))
        },
        Err(e) => Err(e.to_string()),
    }
}

/// Calls `MessageBuilder::multipart` and lists the envelope recipients as
/// `build_text` does; it refuses exactly where `build_text` does.
#[verifier::external_body]
pub(crate) fn build_multipart(c: Composer, mp: MixedBody) -> (r: Result<(Composed, Vec<String>), String>)
    ensures
        r is Ok <==> c.buildable(),
        r matches Ok((m, rcpts)) ==> {
            &&& strings_view(rcpts@) == c.envelope()
            &&& m.subject() == c.subject()
            &&& m.contents() == mp.contents()
            &&& m.from_emails() == c.from_emails()
            &&& m.to_emails() == c.to_emails()
            &&& m.cc_emails() == c.cc_emails()
            &&& m.bcc_emails() == c.bcc_emails()
        },
{
    match c.builder.multipart(mp.body) {
        Ok(message) => {
            let rcpts = message.envelope().to().iter().map(|a| a.to_string()).collect();
            let (subject, contents, from, to, cc, bcc) = (c.subject, mp.contents, c.from, c.to, c.cc, c.bcc);
            Ok((Composed { message, subject, contents, from, to, cc, bcc }, rcpts))
        },
        Err(e) => Err(e.to_string()),
    }
}

/// Whether `b` holds `t` at position `i`.
pub open spec fn holds_at(b: Seq<u8>, i: int, t: Seq<u8>) -> bool {
    0 <= i && i + t.len() <= b.len() && b.subrange(i, i + t.len()) == t
}

/// Whether a line of `b` starts at position `i`: at the start, or right
/// after a CR LF.
pub open spec fn starts_line(b: Seq<u8>, i: int) -> bool {
    i == 0 || (2 <= i <= b.len() && b[i - 2] == 13u8 && b[i - 1] == 10u8)
}

/// `CR LF`.
pub open spec fn crlf() -> Seq<u8> {
    seq![13u8, 10u8]
}

/// `Bcc:`, the start of a `Bcc` header line.
pub open spec fn bcc_colon() -> Seq<u8> {
    seq![66u8, 99u8, 99u8, 58u8]
}

/// Whether the header block of the formatted message `b` is `b[..n]`: it
/// ends with a line break followed by the empty line that separates it
/// from the body, and holds no empty line before that.
pub open spec fn header_block_end(b: Seq<u8>, n: int) -> bool {
    &&& 2 <= n
    &&& holds_at(b, n - 2, crlf())
    &&& holds_at(b, n, crlf())
    &&& forall|i: int| 0 <= i < n - 2 ==> !(#[trigger] holds_at(b, i, crlf() + crlf()))
}

/// The bytes of an ASCII text.
pub open spec fn ascii_bytes(s: Seq<char>) -> Seq<u8> {
    s.map_values(|c: char| c as u8)
}

/// Whether every character of `s` is ASCII.
pub open spec fn is_ascii_text(s: Seq<char>) -> bool {
    forall|i: int| 0 <= i < s.len() ==> (#[trigger] s[i] as int) < 128
}

/// Whether the ASCII text `e` appears within `b[..n]`.
pub open spec fn shows_text(b: Seq<u8>, n: int, e: Seq<char>) -> bool {
    exists|i: int| 0 <= i && i + e.len() <= n && #[trigger] holds_at(b, i, ascii_bytes(e))
}

/// Whether `c` is a printable ASCII character (space to `~`).
pub open spec fn printable_ascii(c: char) -> bool {
    32 <= (c as int) <= 126
}

/// Whether `lettre` writes a subject as it is, on one line: printable
/// ASCII, not ending in a space, short enough that `Subject: ` and it fit
/// a 76-character line.
pub open spec fn plain_subject(s: Seq<char>) -> bool {
    &&& forall|i: int| 0 <= i < s.len() ==> printable_ascii(#[trigger] s[i])
    &&& s.len() + 9 <= 76
    &&& s.len() > 0 ==> s.last() != ' '
}

/// Whether `lettre` sends a text as it is (7bit): ASCII, a single line
/// shorter than 76 characters.
pub open spec fn plain_body(t: Seq<char>) -> bool {
    &&& forall|i: int| 0 <= i < t.len() ==> (#[trigger] t[i] as int) < 128 && t[i] != '\n'
    &&& t.len() < 76
}

/// Whether `lettre` writes an attachment's file name as it is, quoted:
/// printable ASCII without quotes or backslashes, short enough for the
/// `Content-Disposition` line.
pub open spec fn plain_file_name(f: Seq<char>) -> bool {
    &&& forall|i: int| 0 <= i < f.len() ==> printable_ascii(#[trigger] f[i]) && f[i] != '"' && f[i] != '\\'
    &&& f.len() <= 30
}

/// Whether `e` is an address made only of ASCII letters, digits and
/// `.`, `-`, `_`, `+`, with an `@`.
pub open spec fn plain_address(e: Seq<char>) -> bool {
    &&& forall|i: int|
        0 <= i < e.len() ==> {
            let c = #[trigger] e[i];
            ('a' <= c <= 'z') || ('A' <= c <= 'Z') || ('0' <= c <= '9') || c == '.' || c == '-' || c == '_'
                || c == '+' || c == '@'
        }
    &&& e.contains('@')
}

/// Whether `e` occurs within `s`.
pub open spec fn occurs_in(s: Seq<char>, e: Seq<char>) -> bool {
    exists|i: int| 0 <= i && i + e.len() <= s.len() && #[trigger] s.subrange(i, i + e.len()) == e
}

/// Whether the bytes `t` appear in `b` after position `n`.
pub open spec fn shows_after(b: Seq<u8>, n: int, t: Seq<u8>) -> bool {
    exists|i: int| n <= i && #[trigger] holds_at(b, i, t)
}

/// The parameter an attachment part's `Content-Disposition` gives its
/// file name by.
pub open spec fn file_name_param(f: Seq<char>) -> Seq<char> {
    "filename=\""@ + f + "\""@
}

/// The `Subject` header line for `s`.
pub open spec fn subject_header(s: Seq<char>) -> Seq<char> {
    "Subject: "@ + s + seq!['\r', '\n']
}

/// Whether the header block `b[..n]` holds the line `Subject: s`.
pub open spec fn subject_line(b: Seq<u8>, n: int, s: Seq<char>) -> bool {
    exists|i: int|
        0 <= i && i + s.len() + 11 <= n && starts_line(b, i) && #[trigger] holds_at(
            b,
            i,
            ascii_bytes(subject_header(s)),
        )
}

/// Whether the body after the header block `b[..n]` shows each part's
/// plain text and each attachment's plain file name.
pub open spec fn contents_shown(b: Seq<u8>, n: int, contents: Seq<(Option<Seq<char>>, Option<Seq<char>>)>) -> bool {
    forall|k: int|
        0 <= k < contents.len() ==> match #[trigger] contents[k] {
            (Some(t), _) => plain_body(t) ==> shows_after(b, n, ascii_bytes(t)),
            (None, Some(f)) => plain_file_name(f) ==> shows_after(b, n, ascii_bytes(file_name_param(f))),
            (None, None) => true,
        }
}

/// Whether `e` occurs in the subject or within an address of
/// `addressed`.
pub open spec fn found_elsewhere(subject: Option<Seq<char>>, addressed: Seq<Seq<char>>, e: Seq<char>) -> bool {
    (match subject {
        Some(s) => occurs_in(s, e),
        None => false,
    }) || exists|j: int| 0 <= j < addressed.len() && occurs_in(#[trigger] addressed[j], e)
}

/// Whether the header block `b[..n]` shows a plain subject on its line.
pub open spec fn subject_shown(b: Seq<u8>, n: int, subject: Option<Seq<char>>) -> bool {
    match subject {
        Some(s) => plain_subject(s) ==> subject_line(b, n, s),
        None => true,
    }
}

/// Whether `b` is a formatted message whose header block has no `Bcc`
/// line, shows every ASCII address of `shown` and the plain subject, and
/// shows no plain address of `hidden` that occurs neither in the subject
/// nor in an address of `addressed`; and whose body shows the plain
/// texts and file names of `contents`.
pub open spec fn formatted_as(
    b: Seq<u8>,
    subject: Option<Seq<char>>,
    contents: Seq<(Option<Seq<char>>, Option<Seq<char>>)>,
    addressed: Seq<Seq<char>>,
    shown: Seq<Seq<char>>,
    hidden: Seq<Seq<char>>,
) -> bool {
    exists|n: int|
        #[trigger] header_block_end(b, n) && {
            &&& forall|i: int| 0 <= i < n && starts_line(b, i) ==> !#[trigger] holds_at(b, i, bcc_colon())
            &&& forall|k: int|
                0 <= k < shown.len() && is_ascii_text(shown[k]) ==> #[trigger] shows_text(b, n, shown[k])
            &&& forall|k: int|
                0 <= k < hidden.len() && plain_address(hidden[k]) && !found_elsewhere(subject, addressed, hidden[k])
                    ==> !#[trigger] shows_text(b, n, hidden[k])
            &&& subject_shown(b, n, subject)
            &&& contents_shown(b, n, contents)
        }
}

/// Calls `lettre::Message::formatted`: the raw bytes to transmit, as the
/// `lettre` and `email-encoding` sources show them.
/// - Each header is written as `Name: value` and a line break; a value's
///   folded lines start with a space, no value holds a bare line break,
///   and an empty line ends the headers (the multipart's own headers
///   come right after the message's).
/// - The `Bcc` header was dropped when the message was built. The `To`
///   and `Cc` emails are written as they are. A mailbox name holding an
///   `@` is RFC 2047 encoded (no `@` survives), a subject word is written
///   as it is or encoded, and the other headers (date, content type,
///   encoding, boundary) hold no `@`. So an address with an `@` shows
///   only within a From, To or Cc address or the subject.
/// - A subject of printable ASCII that fits one line is written as it is.
/// - An ASCII text of one short line is sent 7bit, as it is.
/// - A short file name of printable ASCII (no quote or backslash) is
///   written as `filename="name"`.
/// The date depends on the clock and a multipart boundary is random, so
/// nothing more is promised.
#[verifier::external_body]
pub(crate) fn formatted(m: &Composed) -> (r: Vec<u8>)
    ensures
        formatted_as(
            r@,
            m.subject(),
            m.contents(),
            m.from_emails() + m.to_emails() + m.cc_emails(),
            m.to_emails() + m.cc_emails(),
            m.bcc_emails(),
        ),
{
    m.message.formatted()
}

} // verus!
