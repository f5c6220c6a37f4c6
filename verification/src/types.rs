//! Protocol-agnostic message metadata: flags, envelopes, addresses, and
//! fully parsed messages.

use vstd::prelude::*;

use crate::text::{all_ws, chars_of, push_char, trim_bounds};

verus! {

/// A minimal, protocol-agnostic representation of a message's flags.
#[derive(Debug, Clone, Copy, PartialEq, Eq, Structural)]
pub struct Flags {
    pub seen: bool,
    pub answered: bool,
    pub flagged: bool,
    pub deleted: bool,
    pub draft: bool,
}

impl Default for Flags {
    fn default() -> (r: Self)
        ensures
            !r.seen && !r.answered && !r.flagged && !r.deleted && !r.draft,
    {
        Flags { seen: false, answered: false, flagged: false, deleted: false, draft: false }
    }
}

/// Named accessor for one flag.
#[derive(Debug, Clone, Copy, PartialEq, Eq, Structural)]
pub enum Flag {
    Seen,
    Answered,
    Flagged,
    Deleted,
    Draft,
}

/// A sender or recipient: an optional display name and an email address.
#[derive(Debug, Clone)]
pub struct Address {
    pub name: Option<String>,
    pub email: String,
}

/// The characters of an address: its name (if any) and its email.
pub open spec fn addr_view(a: Address) -> (Option<Seq<char>>, Seq<char>) {
    (
        match a.name {
            Some(n) => Some(n@),
            None => None,
        },
        a.email@,
    )
}

/// The text an address is shown as: `"Name <email>"` when it has a name
/// that is not blank, otherwise the bare email.
pub open spec fn address_display(a: (Option<Seq<char>>, Seq<char>)) -> Seq<char> {
    match a.0 {
        Some(n) if !all_ws(n) => n + seq![' ', '<'] + a.1 + seq!['>'],
        _ => a.1,
    }
}

/// Whether `s` holds a character that is not white space.
pub fn has_non_ws(s: &str) -> (r: bool)
    ensures
        r == !all_ws(s@),
{
    let v = chars_of(s);
    let (a, b) = trim_bounds(&v);
    proof {
        crate::text::lemma_trim_empty_iff_all_ws(v@);
    }
    a < b
}

impl Address {
    /// An independent copy of this address.
    pub fn duplicate(&self) -> (r: Address)
        ensures
            addr_view(r) == addr_view(*self),
    {
        let name = match &self.name {
            Some(n) => Some(n.clone()),
            None => None,
        };
        Address { name, email: self.email.clone() }
    }

    /// The address as shown to the user (see `address_display`).
    pub fn display_string(&self) -> (r: String)
        ensures
            r@ == address_display(addr_view(*self)),
    {
        match &self.name {
            Some(name) => {
                if has_non_ws(name.as_str()) {
                    let mut r = name.clone();
                    push_char(&mut r, ' ');
                    push_char(&mut r, '<');
                    r.append(self.email.as_str());
                    push_char(&mut r, '>');
                    proof {
                        assert(r@ =~= name@ + seq![' ', '<'] + self.email@ + seq!['>']);
                    }
                    r
                } else {
                    self.email.clone()
                }
            },
            None => self.email.clone(),
        }
    }
}

/// Header-only summary of a message: enough to render the message list.
/// `date` is seconds since the Unix epoch (UTC).
#[derive(Debug, Clone)]
pub struct Envelope {
    pub uid: u32,
    pub subject: String,
    pub from: Vec<Address>,
    pub to: Vec<Address>,
    pub date: Option<i64>,
    pub flags: Flags,
}

/// A fully parsed message body. `date` is seconds since the Unix epoch.
#[derive(Debug, Clone)]
pub struct Message {
    pub uid: u32,
    pub subject: String,
    pub from: Vec<Address>,
    pub to: Vec<Address>,
    pub date: Option<i64>,
    pub body_text: String,
    pub attachments: Vec<MessageAttachment>,
}

/// An attachment extracted from a received message, bytes and all.
#[derive(Debug, Clone)]
pub struct MessageAttachment {
    pub filename: String,
    pub size_bytes: u64,
    pub bytes: Vec<u8>,
}

} // verus!
