//! Turning the raw RFC 822 bytes of a message (fetched over IMAP or read
//! back from the cache) into a `Message`, through `mail_parser`.

use chrono::TimeZone;
use vstd::prelude::*;

use crate::config::digits;
use crate::error::Error;
use crate::mailparse::{
    ParsedMessage, mail_attachment, mail_attachment_bytes, mail_attachment_of, mail_body_html,
    mail_body_html_of, mail_body_text, mail_body_text_of, mail_date, mail_date_of, mail_from,
    mail_from_of, mail_parses, mail_subject, mail_subject_of, mail_to, mail_to_of, opt_chars,
    parse_mail,
};
use crate::sync::{flags_of, to_flags};
use crate::types::{Address, Envelope, Flag, Message, MessageAttachment, addr_view};

verus! {

/// The most bytes of one attachment's content loaded into a `Message`;
/// a larger attachment keeps its size but not its content.
pub const MAX_ATTACHMENT_LOAD_BYTES: u64 = 52428800;

/// Whether `year` is a leap year of the proleptic Gregorian calendar.
pub open spec fn is_leap_year(year: int) -> bool {
    (year % 4 == 0 && year % 100 != 0) || year % 400 == 0
}

/// The number of days in `month` (1 to 12) of `year`.
pub open spec fn days_in_month(year: int, month: int) -> int {
    if month == 2 {
        if is_leap_year(year) {
            29
        } else {
            28
        }
    } else if month == 4 || month == 6 || month == 9 || month == 11 {
        30
    } else {
        31
    }
}

/// The number of days from 1970-01-01 to a date of the proleptic
/// Gregorian calendar (negative before it): counting from 1 March of year
/// 0, in 400-year eras of 146097 days.
pub open spec fn days_from_civil(year: int, month: int, day: int) -> int {
    let y = if month <= 2 {
        year - 1
    } else {
        year
    };
    let era = y / 400;
    let year_of_era = y - era * 400;
    let shifted_month = if month > 2 {
        month - 3
    } else {
        month + 9
    };
    let day_of_year = (153 * shifted_month + 2) / 5 + day - 1;
    let day_of_era = year_of_era * 365 + year_of_era / 4 - year_of_era / 100 + day_of_year;
    era * 146097 + day_of_era - 719468
}

/// The seconds since the Unix epoch of a UTC date and time, `None` when
/// it names no valid instant: a month outside 1 to 12, a day outside the
/// month, an hour from 24, a minute or second from 60.
pub open spec fn utc_timestamp(year: int, month: int, day: int, hour: int, minute: int, second: int) -> Option<int> {
    if 1 <= month <= 12 && 1 <= day <= days_in_month(year, month) && 0 <= hour < 24 && 0 <= minute < 60
        && 0 <= second < 60 {
        Some(days_from_civil(year, month, day) * 86400 + hour * 3600 + minute * 60 + second)
    } else {
        None
    }
}

/// Calls `chrono::Utc.with_ymd_and_hms(..).single()` and takes the
/// timestamp: `None` on an invalid date or time
/// (`NaiveDate::from_ymd_opt`, `NaiveTime::from_hms_opt`), else the
/// seconds since the epoch (`DateTime::timestamp`), as `utc_timestamp`
/// computes them. A `u16` year is within chrono's range.
#[verifier::external_body]
fn timestamp_of(year: u16, month: u8, day: u8, hour: u8, minute: u8, second: u8) -> (r: Option<i64>)
    ensures
        match r {
            Some(t) => utc_timestamp(year as int, month as int, day as int, hour as int, minute as int, second as int) == Some(t as int),
            None => utc_timestamp(year as int, month as int, day as int, hour as int, minute as int, second as int) is None,
        },
{
    chrono::Utc
        .with_ymd_and_hms(year as i32, month as u32, day as u32, hour as u32, minute as u32, second as u32)
        .single()
        .map(|d| d.timestamp())
}

/// Calls `chrono::Utc::now` and takes the timestamp; it depends on the
/// clock, so nothing is promised.
#[verifier::external_body]
fn now_timestamp() -> i64 {
    chrono::Utc::now().timestamp()
}

/// One attachment as read from a parsed message: its name if it has one,
/// its size, and its content when that was loaded.
pub struct PartInfo {
    pub name: Option<String>,
    pub size_bytes: u64,
    pub bytes: Option<Vec<u8>>,
}

/// What the message logic reads from a parsed message.
pub struct MailParts {
    pub subject: Option<String>,
    pub from: Vec<(Option<String>, Option<String>)>,
    pub to: Vec<(Option<String>, Option<String>)>,
    /// The `Date` header as a timestamp (the time of reading when it
    /// names no valid instant); `None` without the header.
    pub date: Option<i64>,
    pub body_text: Option<String>,
    pub body_html: Option<String>,
    pub attachments: Vec<PartInfo>,
}

/// Views of parsed addresses.
pub open spec fn raw_addrs_view(v: Seq<(Option<String>, Option<String>)>) -> Seq<(Option<Seq<char>>, Option<Seq<char>>)> {
    v.map_values(|p: (Option<String>, Option<String>)| (
        match p.0 {
            Some(n) => Some(n@),
            None => None,
        },
        match p.1 {
            Some(e) => Some(e@),
            None => None,
        },
    ))
}

/// The parsed addresses that have an email, as addresses.
pub open spec fn with_email(v: Seq<(Option<Seq<char>>, Option<Seq<char>>)>) -> Seq<(Option<Seq<char>>, Seq<char>)>
    decreases v.len(),
{
    if v.len() == 0 {
        Seq::empty()
    } else {
        let r = with_email(v.drop_last());
        match v.last().1 {
            Some(e) => r.push((v.last().0, e)),
            None => r,
        }
    }
}

/// The addresses of a header that carry an email (see `with_email`).
fn convert_addresses(v: &Vec<(Option<String>, Option<String>)>) -> (r: Vec<Address>)
    ensures
        r@.map_values(|a: Address| addr_view(a)) == with_email(raw_addrs_view(v@)),
{
    let ghost rv = raw_addrs_view(v@);
    let mut r: Vec<Address> = Vec::new();
    let mut i: usize = 0;
    while i < v.len()
        invariant
            i <= v@.len(),
            rv == raw_addrs_view(v@),
            r@.map_values(|a: Address| addr_view(a)) == with_email(rv.take(i as int)),
        decreases v@.len() - i,
    {
        proof {
            assert(rv.take(i + 1).drop_last() =~= rv.take(i as int));
            assert(rv.take(i + 1).last() == rv[i as int]);
        }
        match &v[i].1 {
            Some(e) => {
                let name = match &v[i].0 {
                    Some(n) => Some(n.clone()),
                    None => None,
                };
                let ghost before = r@.map_values(|a: Address| addr_view(a));
                r.push(Address { name, email: e.clone() });
                proof {
                    assert(r@.map_values(|a: Address| addr_view(a)) =~= before.push((rv[i as int].0, rv[i as int].1.unwrap())));
                }
            },
            None => {},
        }
        i += 1;
    }
    proof {
        assert(rv.take(v@.len() as int) =~= rv);
    }
    r
}

/// The name an attachment is saved under: its own, or
/// `attachment-<n>` for the `n`th (counting from 1) without one.
pub open spec fn part_name(name: Option<Seq<char>>, index: int) -> Seq<char> {
    match name {
        Some(n) => n,
        None => "attachment-"@ + digits((index + 1) as nat),
    }
}

/// The body shown: the first text part, else the first HTML part, else
/// nothing.
pub open spec fn shown_body(text: Option<Seq<char>>, html: Option<Seq<char>>) -> Seq<char> {
    match text {
        Some(t) => t,
        None => match html {
            Some(h) => h,
            None => Seq::empty(),
        },
    }
}

/// A `Message` from what was read of a parsed message: subject (empty
/// without one), the From and To addresses that carry an email, the
/// date, the shown body (see `shown_body`), and the attachments in order
/// under `part_name`, each keeping its size and its loaded content
/// (none when it was not loaded).
pub fn message_from_parts(uid: u32, parts: MailParts) -> (r: Message)
    requires
        parts.attachments@.len() < u64::MAX,
    ensures
        r.uid == uid,
        r.subject@ == (match parts.subject {
            Some(s) => s@,
            None => Seq::empty(),
        }),
        r.from@.map_values(|a: Address| addr_view(a)) == with_email(raw_addrs_view(parts.from@)),
        r.to@.map_values(|a: Address| addr_view(a)) == with_email(raw_addrs_view(parts.to@)),
        r.date == parts.date,
        (match parts.body_text {
            Some(t) => r.body_text@ == t@,
            None => match parts.body_html {
                Some(h) => r.body_text@ == h@,
                None => r.body_text@.len() == 0,
            },
        }),
        r.body_text@ == shown_body(
            match parts.body_text {
                Some(t) => Some(t@),
                None => None,
            },
            match parts.body_html {
                Some(h) => Some(h@),
                None => None,
            },
        ),
        r.attachments@.len() == parts.attachments@.len(),
        forall|i: int| 0 <= i < r.attachments@.len() ==> {
            let p = #[trigger] parts.attachments@[i];
            let a = r.attachments@[i];
            &&& a.filename@ == part_name(
                match p.name {
                    Some(n) => Some(n@),
                    None => None,
                },
                i,
            )
            &&& a.size_bytes == p.size_bytes
            &&& a.bytes@ == (match p.bytes {
                Some(b) => b@,
                None => Seq::empty(),
            })
        },
{
    let from = convert_addresses(&parts.from);
    let to = convert_addresses(&parts.to);
    let subject = match parts.subject {
        Some(s) => s,
        None => String::new(),
    };
    let body_text = match parts.body_text {
        Some(t) => t,
        None => match parts.body_html {
            Some(h) => h,
            None => String::new(),
        },
    };
    let ghost src = parts.attachments@;
    let mut rest = parts.attachments;
    let n0 = rest.len();
    assert(src.len() == n0);
    let mut attachments: Vec<MessageAttachment> = Vec::new();
    let mut i: usize = 0;
    while rest.len() > 0
        invariant
            src.len() < u64::MAX,
            src.len() <= usize::MAX,
            i + rest@.len() == src.len(),
            rest@ == src.skip(i as int),
            attachments@.len() == i,
            forall|k: int| 0 <= k < i ==> {
                let p = #[trigger] src[k];
                let a = attachments@[k];
                &&& a.filename@ == part_name(
                    match p.name {
                        Some(n) => Some(n@),
                        None => None,
                    },
                    k,
                )
                &&& a.size_bytes == p.size_bytes
                &&& a.bytes@ == (match p.bytes {
                    Some(b) => b@,
                    None => Seq::empty(),
                })
            },
        decreases rest@.len(),
    {
        let p = rest.remove(0);
        proof {
            assert(p == src[i as int]);
        }
        let filename = match p.name {
            Some(n) => n,
            None => {
                let mut f = String::from_str("attachment-");
                let d = crate::config::unsigned_decimal((i as u64) + 1);
                f.append(d.as_str());
                f
            },
        };
        let bytes = match p.bytes {
            Some(b) => b,
            None => Vec::new(),
        };
        attachments.push(MessageAttachment { filename, size_bytes: p.size_bytes, bytes });
        i += 1;
        proof {
            assert(rest@ =~= src.skip(i as int));
        }
    }
    Message { uid, subject, from, to, date: parts.date, body_text, attachments }
}

/// Whether `d` is the date read from the message parsed from `raw`:
/// none without a `Date` header, the header's UTC timestamp when it names
/// a valid instant, and some timestamp (the time of reading) otherwise.
pub open spec fn date_read(raw: Seq<u8>, d: Option<i64>) -> bool {
    match mail_date_of(raw) {
        None => d is None,
        Some((y, mo, dd, h, mi, s)) => match utc_timestamp(y as int, mo as int, dd as int, h as int, mi as int, s as int) {
            Some(t) => d matches Some(x) && x as int == t,
            None => d is Some,
        },
    }
}

/// The subject of the message parsed from `raw`: its `Subject` header,
/// empty without one.
pub open spec fn subject_read(raw: Seq<u8>) -> Seq<char> {
    match mail_subject_of(raw) {
        Some(t) => t,
        None => Seq::empty(),
    }
}

/// Whether `a` is the attachment at position `i` of the message parsed
/// from `raw`: saved under its name (see `part_name`), with its content's
/// size, and with that content when it is no larger than
/// `MAX_ATTACHMENT_LOAD_BYTES` (empty otherwise).
pub open spec fn attachment_read(raw: Seq<u8>, i: int, a: MessageAttachment) -> bool {
    mail_attachment_of(raw, i) matches Some((n, c)) && a.filename@ == part_name(n, i) && a.size_bytes == c.len()
        && a.bytes@ == (if c.len() > MAX_ATTACHMENT_LOAD_BYTES {
        Seq::empty()
    } else {
        c
    })
}

/// Whether `p` is the attachment at position `i` of the message parsed
/// from `raw`: its name, its content's size, and its content when that
/// is no larger than `MAX_ATTACHMENT_LOAD_BYTES` (none otherwise).
pub open spec fn part_read(raw: Seq<u8>, i: int, p: PartInfo) -> bool {
    mail_attachment_of(raw, i) matches Some((n, c)) && opt_chars(p.name) == n && p.size_bytes == c.len()
        && (if p.size_bytes > MAX_ATTACHMENT_LOAD_BYTES {
        p.bytes is None
    } else {
        p.bytes matches Some(b) && b@ == c
    })
}

/// Reads what the message logic needs from a parsed message, each field
/// as `mail_parser` finds it in the parsed bytes: subject, From and To
/// addresses, the first text and HTML bodies, the `Date` header as a UTC
/// timestamp (the time of reading when the header names no valid
/// instant), and the attachments in order up to the first position
/// without one, each with its name and size and, when it is no larger
/// than `MAX_ATTACHMENT_LOAD_BYTES`, its content.
fn read_parts(m: &ParsedMessage) -> (r: MailParts)
    ensures
        opt_chars(r.subject) == mail_subject_of(m.source()),
        raw_addrs_view(r.from@) == mail_from_of(m.source()),
        raw_addrs_view(r.to@) == mail_to_of(m.source()),
        opt_chars(r.body_text) == mail_body_text_of(m.source()),
        opt_chars(r.body_html) == mail_body_html_of(m.source()),
        date_read(m.source(), r.date),
        forall|i: int| 0 <= i < r.attachments@.len() ==> part_read(m.source(), i, #[trigger] r.attachments@[i]),
        r.attachments@.len() < usize::MAX - 1 ==> mail_attachment_of(m.source(), r.attachments@.len() as int) is None,
        forall|i: int| 0 <= i < r.attachments@.len() ==> (#[trigger] r.attachments@[i]).size_bytes
            > MAX_ATTACHMENT_LOAD_BYTES ==> r.attachments@[i].bytes is None,
        r.attachments@.len() < u64::MAX,
{
    let date = match mail_date(m) {
        Some((y, mo, d, h, mi, s)) => match timestamp_of(y, mo, d, h, mi, s) {
            Some(t) => Some(t),
            None => Some(now_timestamp()),
        },
        None => None,
    };
    let mut attachments: Vec<PartInfo> = Vec::new();
    let mut pos: usize = 0;
    loop
        invariant
            attachments@.len() == pos,
            pos <= usize::MAX - 1,
            forall|i: int| 0 <= i < attachments@.len() ==> part_read(m.source(), i, #[trigger] attachments@[i]),
            forall|i: int| 0 <= i < attachments@.len() ==> (#[trigger] attachments@[i]).size_bytes
                > MAX_ATTACHMENT_LOAD_BYTES ==> attachments@[i].bytes is None,
        ensures
            attachments@.len() <= usize::MAX - 1,
            forall|i: int| 0 <= i < attachments@.len() ==> part_read(m.source(), i, #[trigger] attachments@[i]),
            forall|i: int| 0 <= i < attachments@.len() ==> (#[trigger] attachments@[i]).size_bytes
                > MAX_ATTACHMENT_LOAD_BYTES ==> attachments@[i].bytes is None,
            attachments@.len() < usize::MAX - 1 ==> mail_attachment_of(m.source(), attachments@.len() as int) is None,
        decreases usize::MAX - pos,
    {
        if pos >= usize::MAX - 1 {
            break;
        }
        match mail_attachment(m, pos) {
            Some((name, size)) => {
                let bytes = if size > MAX_ATTACHMENT_LOAD_BYTES {
                    None
                } else {
                    Some(mail_attachment_bytes(m, pos))
                };
                attachments.push(PartInfo { name, size_bytes: size, bytes });
                pos += 1;
            },
            None => {
                break;
            },
        }
    }
    assert(attachments@.len() < u64::MAX);
    MailParts {
        subject: mail_subject(m),
        from: mail_from(m),
        to: mail_to(m),
        date,
        body_text: mail_body_text(m),
        body_html: mail_body_html(m),
        attachments,
    }
}

/// Parses raw RFC 822 bytes into a `Message` (see `message_from_parts`):
/// the subject, the From and To addresses that carry an email, the date
/// (see `date_read`), the shown body and the attachments in order (see
/// `attachment_read`), an attachment larger than
/// `MAX_ATTACHMENT_LOAD_BYTES` keeping its size but not its content;
/// bytes `mail_parser` makes nothing of give
/// `Error::Parse("failed to parse message uid <uid>")`.
pub fn message_from_raw(uid: u32, raw: &[u8]) -> (r: Result<Message, Error>)
    ensures
        mail_parses(raw@) <==> r is Ok,
        r matches Ok(m) ==> m.uid == uid,
        r matches Ok(m) ==> {
            &&& m.subject@ == subject_read(raw@)
            &&& m.from@.map_values(|a: Address| addr_view(a)) == with_email(mail_from_of(raw@))
            &&& m.to@.map_values(|a: Address| addr_view(a)) == with_email(mail_to_of(raw@))
            &&& date_read(raw@, m.date)
            &&& m.body_text@ == shown_body(mail_body_text_of(raw@), mail_body_html_of(raw@))
            &&& match mail_body_text_of(raw@) {
                Some(t) => m.body_text@ == t,
                None => match mail_body_html_of(raw@) {
                    Some(h) => m.body_text@ == h,
                    None => m.body_text@.len() == 0,
                },
            }
            &&& forall|i: int| 0 <= i < m.attachments@.len() ==> attachment_read(raw@, i, #[trigger] m.attachments@[i])
            &&& m.attachments@.len() < usize::MAX - 1 ==> mail_attachment_of(raw@, m.attachments@.len() as int) is None
        },
        r matches Ok(m) ==> forall|i: int|
            0 <= i < m.attachments@.len() && (#[trigger] m.attachments@[i]).size_bytes
                > MAX_ATTACHMENT_LOAD_BYTES ==> m.attachments@[i].bytes@.len() == 0,
        r matches Err(e) ==> e matches Error::Parse(t) && t@ == "failed to parse message uid "@
            + digits(uid as nat),
{
    match parse_mail(raw) {
        Some(m) => {
            let parts = read_parts(&m);
            let ghost read = parts.attachments@;
            let msg = message_from_parts(uid, parts);
            proof {
                assert forall|i: int|
                    0 <= i < msg.attachments@.len() && (#[trigger] msg.attachments@[i]).size_bytes
                        > MAX_ATTACHMENT_LOAD_BYTES implies msg.attachments@[i].bytes@.len() == 0 by {
                    assert(read[i].size_bytes == msg.attachments@[i].size_bytes);
                    assert(read[i].bytes is None);
                }
                assert forall|i: int| 0 <= i < msg.attachments@.len() implies attachment_read(raw@, i, #[trigger] msg.attachments@[i]) by {
                    assert(part_read(raw@, i, read[i]));
                }
            }
            Ok(msg)
        },
        None => {
            let mut t = String::from_str("failed to parse message uid ");
            let d = crate::config::unsigned_decimal(uid as u64);
            t.append(d.as_str());
            Err(Error::Parse(t))
        },
    }
}


/// An envelope from a fetched message's UID, flags and what was read of
/// its header (nothing when the header did not parse): subject (empty
/// without one), the From and To addresses that carry an email, and the
/// date. A fetch without a UID gives no envelope.
pub fn envelope_from_parts(uid: Option<u32>, flags: &Vec<Flag>, parts: Option<MailParts>) -> (r: Option<Envelope>)
    ensures
        uid is None <==> r is None,
        r matches Some(e) ==> {
            &&& e.uid == uid->0
            &&& e.flags == flags_of(flags@)
            &&& match parts {
                Some(p) => {
                    &&& e.subject@ == (match p.subject {
                        Some(s) => s@,
                        None => Seq::empty(),
                    })
                    &&& e.from@.map_values(|a: Address| addr_view(a)) == with_email(raw_addrs_view(p.from@))
                    &&& e.to@.map_values(|a: Address| addr_view(a)) == with_email(raw_addrs_view(p.to@))
                    &&& e.date == p.date
                },
                None => e.subject@.len() == 0 && e.from@.len() == 0 && e.to@.len() == 0 && e.date is None,
            }
        },
{
    let uid = match uid {
        Some(u) => u,
        None => return None,
    };
    let fl = to_flags(flags);
    match parts {
        Some(p) => {
            let from = convert_addresses(&p.from);
            let to = convert_addresses(&p.to);
            let subject = match p.subject {
                Some(s) => s,
                None => String::new(),
            };
            Some(Envelope { uid, subject, from, to, date: p.date, flags: fl })
        },
        None => Some(
            Envelope { uid, subject: String::new(), from: Vec::new(), to: Vec::new(), date: None, flags: fl },
        ),
    }
}

/// An envelope from a fetched message's UID, flags and raw header bytes,
/// read through `mail_parser` (see `envelope_from_parts`).
pub fn envelope_from_header(uid: Option<u32>, flags: &Vec<Flag>, header: &[u8]) -> (r: Option<Envelope>)
    ensures
        uid is None <==> r is None,
        r matches Some(e) ==> e.uid == uid->0 && e.flags == flags_of(flags@),
        r matches Some(e) ==> (!mail_parses(header@) ==> e.subject@.len() == 0 && e.from@.len() == 0
            && e.to@.len() == 0 && e.date is None),
        r matches Some(e) ==> (mail_parses(header@) ==> {
            &&& e.subject@ == subject_read(header@)
            &&& e.from@.map_values(|a: Address| addr_view(a)) == with_email(mail_from_of(header@))
            &&& e.to@.map_values(|a: Address| addr_view(a)) == with_email(mail_to_of(header@))
            &&& date_read(header@, e.date)
        }),
{
    match parse_mail(header) {
        Some(m) => {
            let parts = read_parts(&m);
            envelope_from_parts(uid, flags, Some(parts))
        },
        None => envelope_from_parts(uid, flags, None),
    }
}

} // verus!
