//! Building the MIME message for a draft: what the user typed into
//! compose, checked and turned into a message with `lettre`.

use lettre::message::header::ContentType;
use lettre::message::{Mailbox, MessageBuilder, MultiPart, SinglePart};
use lettre::Message as MimeMessage;
use vstd::prelude::*;

use crate::account::Account;
use crate::error::Error;
use crate::mime::{
    Composed, Composer, attachment_part, build_multipart, build_text, emails_of, formatted,
    formatted_as, mailbox_email, mailbox_error, message_builder, mixed_multipart, parse_mailbox,
    plain_part, push_part, with_bcc, with_cc, with_from, with_subject, with_to,
};
use crate::spellcheck::kept_pieces;
use crate::text::{split_char, split_on_char, trimmed};

verus! {

/// Everything the user typed into the compose view. Address fields are
/// comma-separated strings straight from the input widgets.
#[derive(Debug)]
pub struct Draft {
    pub to: String,
    pub cc: String,
    pub bcc: String,
    pub subject: String,
    pub body: String,
}

impl Default for Draft {
    fn default() -> (r: Self)
        ensures
            r.to@.len() == 0 && r.cc@.len() == 0 && r.bcc@.len() == 0 && r.subject@.len() == 0
                && r.body@.len() == 0,
    {
        Draft {
            to: String::new(),
            cc: String::new(),
            bcc: String::new(),
            subject: String::new(),
            body: String::new(),
        }
    }
}

/// A file to attach, already read into memory.
#[derive(Debug)]
pub struct AttachmentFile {
    pub filename: String,
    pub bytes: Vec<u8>,
}

/// `lettre::message::Mailbox`, carried through unchanged.
#[verifier::external_type_specification]
#[verifier::external_body]
pub struct ExMailbox(Mailbox);

/// `lettre::message::MessageBuilder`, carried through unchanged.
#[verifier::external_type_specification]
#[verifier::external_body]
pub struct ExMessageBuilder(MessageBuilder);

/// `lettre::Message`, carried through unchanged.
#[verifier::external_type_specification]
#[verifier::external_body]
pub struct ExMimeMessage(MimeMessage);

/// `lettre::message::MultiPart`, carried through unchanged.
#[verifier::external_type_specification]
#[verifier::external_body]
pub struct ExMultiPart(MultiPart);

/// `lettre::message::SinglePart`, carried through unchanged.
#[verifier::external_type_specification]
#[verifier::external_body]
pub struct ExSinglePart(SinglePart);

/// `lettre::message::header::ContentType`, carried through unchanged.
#[verifier::external_type_specification]
#[verifier::external_body]
pub struct ExContentType(ContentType);

/// A built, ready-to-send message: its raw bytes (without the `Bcc`
/// header) and every envelope recipient, kept apart because the `Bcc`
/// recipients cannot be recovered from the raw bytes later.
pub struct BuiltMessage {
    pub raw: Vec<u8>,
    pub recipients: Vec<String>,
    message: Composed,
}

impl BuiltMessage {
    /// The envelope recipients, as text.
    pub closed spec fn recipient_list(self) -> Seq<Seq<char>> {
        crate::text::strings_view(self.recipients@)
    }

    /// The raw bytes to transmit.
    pub closed spec fn raw_bytes(self) -> Seq<u8> {
        self.raw@
    }

    /// The message's `Subject` header, if one was set.
    pub closed spec fn subject(self) -> Option<Seq<char>> {
        self.message.subject()
    }

    /// The message's content: for each part in order, its text (a
    /// plain-text part) or its file name (an attachment).
    pub closed spec fn contents(self) -> Seq<(Option<Seq<char>>, Option<Seq<char>>)> {
        self.message.contents()
    }

    /// The message this was built into, for sending.
    pub closed spec fn message(self) -> MimeMessage {
        self.message.message()
    }

    /// The message itself, for sending.
    pub fn into_message(self) -> (r: MimeMessage)
        ensures
            r == self.message(),
    {
        self.message.into_message()
    }
}

/// `s` as Rust's `Debug` writes a string: quoted, with escapes; a
/// function of `s` alone.
pub uninterp spec fn debug_text(s: Seq<char>) -> Seq<char>;

/// Formats `s` with `{:?}`. The contract names the result `debug_text`.
#[verifier::external_body]
fn debug_quoted(s: &str) -> (r: String)
    ensures
        r@ == debug_text(s@),
{
    format!("{s:?}")
}

/// The MIME type `mime_guess` picks for a file name (from its
/// extension, `application/octet-stream` when it knows none); a function
/// of the name alone.
pub uninterp spec fn guessed_mime(filename: Seq<char>) -> Seq<char>;

/// Calls `mime_guess::from_path(..).first_or_octet_stream()`. The
/// contract names the result `guessed_mime`.
#[verifier::external_body]
fn guess_mime(filename: &str) -> (r: String)
    ensures
        r@ == guessed_mime(filename@),
{
    mime_guess::from_path(filename).first_or_octet_stream().to_string()
}

/// Why `lettre` refuses `s` as a content type, `None` when it accepts
/// it; a function of `s` alone.
pub uninterp spec fn content_type_error(s: Seq<char>) -> Option<Seq<char>>;

/// Calls `ContentType::parse`; a refusal carries the error's text. The
/// contract names the outcome `content_type_error`.
#[verifier::external_body]
fn parse_content_type(s: &str) -> (r: Result<ContentType, String>)
    ensures
        match r {
            Ok(_) => content_type_error(s@) is None,
            Err(e) => content_type_error(s@) == Some(e@),
        },
{
    ContentType::parse(s).map_err(|e| e.to_string())
}

/// The recipients typed in an address field: its comma-separated pieces,
/// trimmed, blank ones dropped.
pub open spec fn recipient_pieces(field: Seq<char>) -> Seq<Seq<char>> {
    kept_pieces(split_char(field, ','))
}

/// The first piece `lettre` refuses as a mailbox.
pub open spec fn first_refused(pieces: Seq<Seq<char>>) -> Option<Seq<char>>
    decreases pieces.len(),
{
    if pieces.len() == 0 {
        None
    } else if mailbox_error(pieces[0]) is Some {
        Some(pieces[0])
    } else {
        first_refused(pieces.drop_first())
    }
}

/// The first attachment name whose guessed type `lettre` refuses.
pub open spec fn first_bad_type(names: Seq<Seq<char>>) -> Option<Seq<char>>
    decreases names.len(),
{
    if names.len() == 0 {
        None
    } else if content_type_error(guessed_mime(names[0])) is Some {
        Some(names[0])
    } else {
        first_bad_type(names.drop_first())
    }
}

/// Why building a message from `from` and the draft's fields must fail,
/// checked in this order: the account's address is refused; a typed
/// recipient (To, then Cc, then Bcc, in order) is refused; there is no
/// recipient at all; an attachment's content type is refused.
pub open spec fn build_refusal(
    from: Seq<char>,
    to: Seq<char>,
    cc: Seq<char>,
    bcc: Seq<char>,
    names: Seq<Seq<char>>,
) -> Option<Seq<char>> {
    let all = recipient_pieces(to) + recipient_pieces(cc) + recipient_pieces(bcc);
    match mailbox_error(from) {
        Some(e) => Some("invalid account address: "@ + e),
        None => match first_refused(all) {
            Some(p) => Some("invalid address "@ + debug_text(p) + ": "@ + mailbox_error(p).unwrap()),
            None => if all.len() == 0 {
                Some("message has no recipients"@)
            } else {
                match first_bad_type(names) {
                    Some(n) => Some("invalid attachment content type: "@ + content_type_error(
                        guessed_mime(n),
                    ).unwrap()),
                    None => None,
                }
            },
        },
    }
}

/// The file names of a list of attachments.
pub open spec fn attachment_names(atts: Seq<AttachmentFile>) -> Seq<Seq<char>> {
    atts.map_values(|a: AttachmentFile| a.filename@)
}

/// The trimmed, non-blank comma-separated pieces of `field`.
fn recipients_in(field: &str) -> (r: Vec<String>)
    ensures
        crate::text::strings_view(r@) == recipient_pieces(field@),
{
    let pieces = split_on_char(field, ',');
    let mut r: Vec<String> = Vec::new();
    let mut i: usize = 0;
    while i < pieces.len()
        invariant
            i <= pieces@.len(),
            crate::text::strings_view(r@) == kept_pieces(
                crate::text::strings_view(pieces@).take(i as int),
            ),
        decreases pieces@.len() - i,
    {
        proof {
            let t = crate::text::strings_view(pieces@).take(i + 1);
            assert(t.drop_last() =~= crate::text::strings_view(pieces@).take(i as int));
            assert(t.last() == pieces@[i as int]@);
        }
        let t = trimmed(pieces[i].as_str());
        if t.unicode_len() > 0 {
            let ghost before = crate::text::strings_view(r@);
            r.push(t);
            proof {
                assert(crate::text::strings_view(r@) =~= before.push(t@));
            }
        }
        i += 1;
    }
    proof {
        assert(crate::text::strings_view(pieces@).take(pieces@.len() as int)
            =~= crate::text::strings_view(pieces@));
    }
    r
}

/// Which address header a recipient goes into.
#[derive(Clone, Copy, PartialEq, Eq, Structural)]
enum Header {
    To,
    Cc,
    Bcc,
}

/// Adds the pieces of one address field to the builder's `header`,
/// stopping at the first refused one.
fn add_recipients(b: Composer, pieces: &Vec<String>, header: Header) -> (r: Result<Composer, Error>)
    ensures
        match first_refused(crate::text::strings_view(pieces@)) {
            Some(p) => r matches Err(Error::Config(m)) && m@ == "invalid address "@ + debug_text(p)
                + ": "@ + mailbox_error(p).unwrap(),
            None => r matches Ok(c) && {
                let added = emails_of(crate::text::strings_view(pieces@));
                &&& c.subject() == b.subject()
                &&& c.from_emails() == b.from_emails()
                &&& c.to_emails() == (if header == Header::To { b.to_emails() + added } else { b.to_emails() })
                &&& c.cc_emails() == (if header == Header::Cc { b.cc_emails() + added } else { b.cc_emails() })
                &&& c.bcc_emails() == (if header == Header::Bcc { b.bcc_emails() + added } else { b.bcc_emails() })
            },
        },
{
    let ghost pv = crate::text::strings_view(pieces@);
    let ghost b0 = b;
    let mut b = b;
    let mut i: usize = 0;
    assert(pv.skip(0) =~= pv);
    assert(emails_of(pv.take(0)) =~= Seq::<Seq<char>>::empty());
    assert(b0.to_emails() + emails_of(pv.take(0)) =~= b0.to_emails());
    assert(b0.cc_emails() + emails_of(pv.take(0)) =~= b0.cc_emails());
    assert(b0.bcc_emails() + emails_of(pv.take(0)) =~= b0.bcc_emails());
    while i < pieces.len()
        invariant
            i <= pieces@.len(),
            pv == crate::text::strings_view(pieces@),
            first_refused(pv) == first_refused(pv.skip(i as int)),
            b.subject() == b0.subject(),
            b.from_emails() == b0.from_emails(),
            b.to_emails() == (if header == Header::To { b0.to_emails() + emails_of(pv.take(i as int)) } else { b0.to_emails() }),
            b.cc_emails() == (if header == Header::Cc { b0.cc_emails() + emails_of(pv.take(i as int)) } else { b0.cc_emails() }),
            b.bcc_emails() == (if header == Header::Bcc { b0.bcc_emails() + emails_of(pv.take(i as int)) } else { b0.bcc_emails() }),
        decreases pieces@.len() - i,
    {
        proof {
            assert(pv.skip(i as int)[0] == pv[i as int]);
            assert(pv.skip(i as int).drop_first() =~= pv.skip(i + 1));
            assert(emails_of(pv.take(i + 1)) =~= emails_of(pv.take(i as int)).push(mailbox_email(pv[i as int])));
            assert(b0.to_emails() + emails_of(pv.take(i + 1)) =~= (b0.to_emails() + emails_of(pv.take(i as int))).push(mailbox_email(pv[i as int])));
            assert(b0.cc_emails() + emails_of(pv.take(i + 1)) =~= (b0.cc_emails() + emails_of(pv.take(i as int))).push(mailbox_email(pv[i as int])));
            assert(b0.bcc_emails() + emails_of(pv.take(i + 1)) =~= (b0.bcc_emails() + emails_of(pv.take(i as int))).push(mailbox_email(pv[i as int])));
        }
        match parse_mailbox(pieces[i].as_str()) {
            Ok(m) => {
                b = match header {
                    Header::To => with_to(b, m),
                    Header::Cc => with_cc(b, m),
                    Header::Bcc => with_bcc(b, m),
                };
            },
            Err(e) => {
                let mut msg = String::from_str("invalid address ");
                let q = debug_quoted(pieces[i].as_str());
                msg.append(q.as_str());
                msg.append(": ");
                msg.append(e.as_str());
                return Err(Error::Config(msg));
            },
        }
        i += 1;
    }
    proof {
        assert(pv.skip(pv.len() as int) =~= Seq::<Seq<char>>::empty());
        assert(pv.take(pv.len() as int) =~= pv);
    }
    Ok(b)
}

/// `first_refused` over a concatenation.
proof fn lemma_first_refused_append(a: Seq<Seq<char>>, b: Seq<Seq<char>>)
    ensures
        first_refused(a + b) == (match first_refused(a) {
            Some(p) => Some(p),
            None => first_refused(b),
        }),
    decreases a.len(),
{
    if a.len() == 0 {
        assert(a + b =~= b);
    } else {
        assert((a + b)[0] == a[0]);
        assert((a + b).drop_first() =~= a.drop_first() + b);
        lemma_first_refused_append(a.drop_first(), b);
    }
}

/// The email addresses of the recipients typed in an address field.
pub open spec fn recipient_emails(field: Seq<char>) -> Seq<Seq<char>> {
    emails_of(recipient_pieces(field))
}

/// The content of a built message: a plain-text part holding `body`,
/// then one attachment part per file name, in order.
pub open spec fn built_contents(body: Seq<char>, names: Seq<Seq<char>>) -> Seq<(Option<Seq<char>>, Option<Seq<char>>)> {
    seq![(Some(body), None::<Seq<char>>)] + names.map_values(|n: Seq<char>| (None::<Seq<char>>, Some(n)))
}

/// Builds the message for `draft` from `account`'s address, with
/// `attachments` after a plain-text body part. Fails with
/// `Error::Config` carrying `build_refusal` when that gives a reason;
/// otherwise it succeeds: the subject is the draft's, the content is the
/// body then the attachments by name, the envelope recipients are the
/// email addresses typed in To, then Cc, then Bcc, in order, and the raw
/// bytes are as `formatted_as` describes: headers with no `Bcc` line that
/// show each (ASCII) To and Cc address and the plain subject but no plain
/// Bcc address found in neither the subject nor a From, To or Cc
/// address, then a body showing the plain text and file names.
pub fn build(account: &Account, draft: &Draft, attachments: &Vec<AttachmentFile>) -> (r: Result<BuiltMessage, Error>)
    ensures
        match build_refusal(
            account.config.email@,
            draft.to@,
            draft.cc@,
            draft.bcc@,
            attachment_names(attachments@),
        ) {
            Some(m) => r matches Err(Error::Config(x)) && x@ == m,
            None => r matches Ok(b) && {
                &&& b.recipient_list() == recipient_emails(draft.to@) + recipient_emails(draft.cc@)
                    + recipient_emails(draft.bcc@)
                &&& b.subject() == Some(draft.subject@)
                &&& b.contents() == built_contents(draft.body@, attachment_names(attachments@))
                &&& formatted_as(
                    b.raw_bytes(),
                    Some(draft.subject@),
                    built_contents(draft.body@, attachment_names(attachments@)),
                    seq![mailbox_email(account.config.email@)] + recipient_emails(draft.to@) + recipient_emails(
                        draft.cc@,
                    ),
                    recipient_emails(draft.to@) + recipient_emails(draft.cc@),
                    recipient_emails(draft.bcc@),
                )
            },
        },
{
    let from = match parse_mailbox(account.config.email.as_str()) {
        Ok(m) => m,
        Err(e) => {
            let mut msg = String::from_str("invalid account address: ");
            msg.append(e.as_str());
            return Err(Error::Config(msg));
        },
    };
    let b = with_subject(with_from(message_builder(), from), draft.subject.as_str());
    let to = recipients_in(draft.to.as_str());
    let cc = recipients_in(draft.cc.as_str());
    let bcc = recipients_in(draft.bcc.as_str());
    let ghost tv = crate::text::strings_view(to@);
    let ghost cv = crate::text::strings_view(cc@);
    let ghost bv = crate::text::strings_view(bcc@);
    proof {
        lemma_first_refused_append(tv, cv);
        lemma_first_refused_append(tv + cv, bv);
    }
    let b = add_recipients(b, &to, Header::To)?;
    let b = add_recipients(b, &cc, Header::Cc)?;
    let b = add_recipients(b, &bcc, Header::Bcc)?;
    if to.len() == 0 && cc.len() == 0 && bcc.len() == 0 {
        return Err(Error::Config(String::from_str("message has no recipients")));
    }
    assert(b.envelope() == recipient_emails(draft.to@) + recipient_emails(draft.cc@)
        + recipient_emails(draft.bcc@));
    assert(b.buildable());
    assert(b.subject() == Some(draft.subject@));
    assert(b.from_emails() =~= seq![mailbox_email(account.config.email@)]);
    assert(b.to_emails() == recipient_emails(draft.to@));
    assert(b.cc_emails() == recipient_emails(draft.cc@));
    assert(b.bcc_emails() == recipient_emails(draft.bcc@));
    let built = if attachments.len() == 0 {
        assert(attachment_names(attachments@) =~= Seq::<Seq<char>>::empty());
        assert(built_contents(draft.body@, attachment_names(attachments@)) =~= seq![(Some(draft.body@), None::<Seq<char>>)]);
        match build_text(b, draft.body.as_str()) {
            Ok(m) => m,
            Err(e) => {
                let mut msg = String::from_str("failed to build message: ");
                msg.append(e.as_str());
                return Err(Error::Config(msg));
            },
        }
    } else {
        let mut mp = mixed_multipart(plain_part(draft.body.as_str()));
        let ghost names = attachment_names(attachments@);
        let mut i: usize = 0;
        assert(built_contents(draft.body@, names.take(0)) =~= seq![(Some(draft.body@), None::<Seq<char>>)]);
        assert(names.skip(0) =~= names);
        assert(build_refusal(account.config.email@, draft.to@, draft.cc@, draft.bcc@, names) == match first_bad_type(names) {
            Some(n) => Some("invalid attachment content type: "@ + content_type_error(guessed_mime(n)).unwrap()),
            None => None::<Seq<char>>,
        });
        while i < attachments.len()
            invariant
                i <= attachments@.len(),
                names == attachment_names(attachments@),
                build_refusal(account.config.email@, draft.to@, draft.cc@, draft.bcc@, names) == match first_bad_type(names) {
                    Some(n) => Some("invalid attachment content type: "@ + content_type_error(guessed_mime(n)).unwrap()),
                    None => None::<Seq<char>>,
                },
                first_bad_type(names) == first_bad_type(names.skip(i as int)),
                b.buildable(),
                b.envelope() == recipient_emails(draft.to@) + recipient_emails(draft.cc@)
                    + recipient_emails(draft.bcc@),
                b.subject() == Some(draft.subject@),
                b.from_emails() == seq![mailbox_email(account.config.email@)],
                b.to_emails() == recipient_emails(draft.to@),
                b.cc_emails() == recipient_emails(draft.cc@),
                b.bcc_emails() == recipient_emails(draft.bcc@),
                mp.contents() == built_contents(draft.body@, names.take(i as int)),
            decreases attachments@.len() - i,
        {
            proof {
                assert(names.skip(i as int)[0] == names[i as int]);
                assert(names.skip(i as int).drop_first() =~= names.skip(i + 1));
            }
            assert(names[i as int] == attachments@[i as int].filename@);
            let mime = guess_mime(attachments[i].filename.as_str());
            let ct = match parse_content_type(mime.as_str()) {
                Ok(ct) => ct,
                Err(e) => {
                    let mut msg = String::from_str("invalid attachment content type: ");
                    msg.append(e.as_str());
                    return Err(Error::Config(msg));
                },
            };
            let bytes = attachments[i].bytes.clone();
            mp = push_part(mp, attachment_part(attachments[i].filename.as_str(), bytes, ct));
            proof {
                assert(names.take(i + 1) =~= names.take(i as int).push(names[i as int]));
                assert(built_contents(draft.body@, names.take(i + 1)) =~= built_contents(
                    draft.body@,
                    names.take(i as int),
                ).push((None::<Seq<char>>, Some(names[i as int]))));
            }
            i += 1;
        }
        assert(names.take(i as int) =~= names);
        match build_multipart(b, mp) {
            Ok(m) => m,
            Err(e) => {
                let mut msg = String::from_str("failed to build message: ");
                msg.append(e.as_str());
                return Err(Error::Config(msg));
            },
        }
    };
    let (message, recipients) = built;
    let raw = formatted(&message);
    Ok(BuiltMessage { raw, recipients, message })
}

} // verus!
