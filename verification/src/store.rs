//! What the local cache decides beyond storing rows: which senders make
//! the address book, how an outbox entry's recipients are kept, and the
//! shapes of the rows read back.

use vstd::prelude::*;

use crate::text::{
    before_char, chars_of, contains_chars, contains_seq, find_char, insert_by_key, lex_le,
    lex_le_chars, lowercase, split_char, split_on_char, sort_by_key, strings_view, to_lowercase,
};
use crate::spellcheck::join_with;
use crate::types::{Address, addr_view};

verus! {

/// A folder's row: its id and the UID state saved at its last sync.
#[derive(Debug, Clone, Copy, PartialEq, Eq, Structural)]
pub struct FolderRow {
    pub id: i64,
    pub uidvalidity: Option<u32>,
    pub uidnext: Option<u32>,
}

/// A queued, not yet sent message: where its raw bytes are, who it goes
/// to, and how many sends failed so far.
#[derive(Debug)]
pub struct OutboxItem {
    pub id: i64,
    pub raw_mime_path: String,
    pub recipients: Vec<String>,
    pub attempts: i64,
}

/// An ASCII letter or digit.
pub open spec fn ascii_alnum(c: char) -> bool {
    ('0' <= c && c <= '9') || ('a' <= c && c <= 'z') || ('A' <= c && c <= 'Z')
}

/// `c` in ASCII lower case.
pub open spec fn ascii_lower_char(c: char) -> char {
    if 'A' <= c && c <= 'Z' {
        (((c as u32) + 32) as u8) as char
    } else {
        c
    }
}

/// The ASCII letters and digits of `s`, lower-cased, in order.
pub open spec fn reply_key(s: Seq<char>) -> Seq<char>
    decreases s.len(),
{
    if s.len() == 0 {
        s
    } else {
        let r = reply_key(s.drop_last());
        if ascii_alnum(s.last()) {
            r.push(ascii_lower_char(s.last()))
        } else {
            r
        }
    }
}

/// An automated sender: the part of the address before `@`, reduced to
/// lower-case ASCII letters and digits, contains `noreply` or
/// `donotreply` (so `no-reply`, `No.Reply`, `do-not-reply` all count).
pub open spec fn no_reply(email: Seq<char>) -> bool {
    let k = reply_key(before_char(email, '@'));
    contains_seq(k, seq!['n', 'o', 'r', 'e', 'p', 'l', 'y']) || contains_seq(
        k,
        seq!['d', 'o', 'n', 'o', 't', 'r', 'e', 'p', 'l', 'y'],
    )
}

fn lower_ascii(c: char) -> (r: char)
    ensures
        r == ascii_lower_char(c),
{
    if 'A' <= c && c <= 'Z' {
        (((c as u32) + 32) as u8) as char
    } else {
        c
    }
}

/// Whether `email` is an automated do-not-reply sender (see `no_reply`).
pub fn is_no_reply_address(email: &str) -> (r: bool)
    ensures
        r == no_reply(email@),
{
    let v = chars_of(email);
    let end = match find_char(&v, '@') {
        Some(k) => k,
        None => v.len(),
    };
    proof {
        if end == v@.len() {
            assert(v@.take(end as int) =~= v@);
        }
    }
    let mut key: Vec<char> = Vec::new();
    let mut i: usize = 0;
    while i < end
        invariant
            end <= v@.len(),
            i <= end,
            key@ == reply_key(v@.take(i as int)),
        decreases end - i,
    {
        proof {
            assert(v@.take(i + 1).drop_last() =~= v@.take(i as int));
        }
        let c = v[i];
        if ('0' <= c && c <= '9') || ('a' <= c && c <= 'z') || ('A' <= c && c <= 'Z') {
            key.push(lower_ascii(c));
        }
        i += 1;
    }
    let noreply = vec!['n', 'o', 'r', 'e', 'p', 'l', 'y'];
    let donotreply = vec!['d', 'o', 'n', 'o', 't', 'r', 'e', 'p', 'l', 'y'];
    proof {
        assert(noreply@ =~= seq!['n', 'o', 'r', 'e', 'p', 'l', 'y']);
        assert(donotreply@ =~= seq!['d', 'o', 'n', 'o', 't', 'r', 'e', 'p', 'l', 'y']);
    }
    contains_chars(&key, &noreply) || contains_chars(&key, &donotreply)
}

/// The first entry of `r` whose email equals `email` in lower case.
pub open spec fn email_index(r: Seq<(Option<Seq<char>>, Seq<char>)>, email: Seq<char>) -> Option<int>
    decreases r.len(),
{
    if r.len() == 0 {
        None
    } else if lowercase(r[0].1) == lowercase(email) {
        Some(0)
    } else {
        match email_index(r.drop_first(), email) {
            Some(k) => Some(k + 1),
            None => None,
        }
    }
}

proof fn lemma_email_index(r: Seq<(Option<Seq<char>>, Seq<char>)>, email: Seq<char>, k: int)
    requires
        0 <= k <= r.len(),
        forall|j: int| 0 <= j < k ==> lowercase(#[trigger] r[j].1) != lowercase(email),
        k < r.len() ==> lowercase(r[k].1) == lowercase(email),
    ensures
        email_index(r, email) == (if k < r.len() {
            Some(k)
        } else {
            None::<int>
        }),
    decreases r.len(),
{
    if r.len() > 0 && k > 0 {
        let t = r.drop_first();
        assert forall|j: int| 0 <= j < k - 1 implies lowercase(#[trigger] t[j].1) != lowercase(
            email,
        ) by {
            assert(t[j] == r[j + 1]);
        }
        if k < r.len() {
            assert(t[k - 1] == r[k]);
        }
        assert(lowercase(r[0].1) != lowercase(email));
        lemma_email_index(t, email, k - 1);
    }
}

/// The address book built from the senders of cached messages, before
/// sorting: automated senders dropped; one entry per email compared in
/// lower case, at its first occurrence; a later occurrence with a name
/// replaces the entry's name.
pub open spec fn merged_senders(addrs: Seq<(Option<Seq<char>>, Seq<char>)>) -> Seq<
    (Option<Seq<char>>, Seq<char>),
>
    decreases addrs.len(),
{
    if addrs.len() == 0 {
        Seq::empty()
    } else {
        let r = merged_senders(addrs.drop_last());
        let a = addrs.last();
        if no_reply(a.1) {
            r
        } else {
            match email_index(r, a.1) {
                Some(k) => if a.0 is Some {
                    r.update(k, (a.0, r[k].1))
                } else {
                    r
                },
                None => r.push(a),
            }
        }
    }
}

/// The key the address book is sorted by: the name, or the email
/// without one, in lower case.
pub open spec fn sender_key(a: (Option<Seq<char>>, Seq<char>)) -> Seq<char> {
    lowercase(
        match a.0 {
            Some(n) => n,
            None => a.1,
        },
    )
}

/// Address-book entries keyed for sorting.
pub open spec fn keyed_senders(v: Seq<(Option<Seq<char>>, Seq<char>)>) -> Seq<
    (Seq<char>, (Option<Seq<char>>, Seq<char>)),
> {
    v.map_values(|a: (Option<Seq<char>>, Seq<char>)| (sender_key(a), a))
}

/// The address book: the merged senders (see `merged_senders`) sorted by
/// `sender_key`, entries with equal keys in merge order.
pub open spec fn address_book(addrs: Seq<(Option<Seq<char>>, Seq<char>)>) -> Seq<
    (Option<Seq<char>>, Seq<char>),
> {
    sort_by_key(keyed_senders(merged_senders(addrs))).map_values(
        |p: (Seq<char>, (Option<Seq<char>>, Seq<char>))| p.1,
    )
}

/// Views of a list of addresses.
pub open spec fn addr_list_view(v: Seq<Address>) -> Seq<(Option<Seq<char>>, Seq<char>)> {
    v.map_values(|a: Address| addr_view(a))
}

/// The senders of every cached message, in order, as one list.
pub open spec fn all_senders(lists: Seq<Vec<Address>>) -> Seq<(Option<Seq<char>>, Seq<char>)>
    decreases lists.len(),
{
    if lists.len() == 0 {
        Seq::empty()
    } else {
        all_senders(lists.drop_last()) + addr_list_view(lists.last()@)
    }
}

/// Inserts a keyed entry into the key-sorted `v` after every entry whose
/// key sorts at or before its own.
fn insert_sender(v: &mut Vec<(Vec<char>, Address)>, x: (Vec<char>, Address))
    ensures
        keyed_view(final(v)@) == insert_by_key(keyed_view(old(v)@), (x.0@, addr_view(x.1))),
{
    let ghost before = keyed_view(v@);
    let mut p = v.len();
    while p > 0 && !lex_le_chars(&v[p - 1].0, &x.0)
        invariant
            p <= v@.len(),
            before == keyed_view(v@),
            forall|k: int| p <= k < v@.len() ==> !lex_le(#[trigger] v@[k].0@, x.0@),
        decreases p,
    {
        p -= 1;
    }
    let ghost item = (x.0@, addr_view(x.1));
    proof {
        crate::text::lemma_insert_by_key_at(before, item, p as int);
    }
    v.insert(p, x);
    proof {
        assert(keyed_view(v@) =~= before.take(p as int).push(item) + before.skip(p as int));
    }
}

/// Views of keyed entries.
pub open spec fn keyed_view(v: Seq<(Vec<char>, Address)>) -> Seq<(Seq<char>, (Option<Seq<char>>, Seq<char>))> {
    v.map_values(|p: (Vec<char>, Address)| (p.0@, addr_view(p.1)))
}

/// The sort key of an address (see `sender_key`).
fn sort_key(a: &Address) -> (r: Vec<char>)
    ensures
        r@ == sender_key(addr_view(*a)),
{
    let k = match &a.name {
        Some(n) => to_lowercase(n.as_str()),
        None => to_lowercase(a.email.as_str()),
    };
    chars_of(k.as_str())
}

/// The address book for compose's recipient suggestions, from the
/// sender lists of every cached message of an account (see
/// `address_book`).
pub fn known_senders(lists: &Vec<Vec<Address>>) -> (r: Vec<Address>)
    ensures
        addr_list_view(r@) == address_book(all_senders(lists@)),
{
    let mut merged: Vec<Address> = Vec::new();
    let mut keys: Vec<String> = Vec::new();
    let mut i: usize = 0;
    while i < lists.len()
        invariant
            i <= lists@.len(),
            merged@.len() == keys@.len(),
            addr_list_view(merged@) == merged_senders(all_senders(lists@.take(i as int))),
            forall|k: int| 0 <= k < keys@.len() ==> (#[trigger] keys@[k])@ == lowercase(merged@[k].email@),
        decreases lists@.len() - i,
    {
        let list = &lists[i];
        let ghost prefix = all_senders(lists@.take(i as int));
        proof {
            assert(lists@.take(i + 1).drop_last() =~= lists@.take(i as int));
            assert(lists@.take(i + 1).last() == lists@[i as int]);
        }
        let mut j: usize = 0;
        proof {
            assert(prefix + addr_list_view(list@).take(0) =~= prefix);
        }
        while j < list.len()
            invariant
                j <= list@.len(),
                merged@.len() == keys@.len(),
                addr_list_view(merged@) == merged_senders(prefix + addr_list_view(list@).take(j as int)),
                forall|k: int| 0 <= k < keys@.len() ==> (#[trigger] keys@[k])@ == lowercase(merged@[k].email@),
            decreases list@.len() - j,
        {
            let a = &list[j];
            let ghost s0 = prefix + addr_list_view(list@).take(j as int);
            proof {
                let s1 = prefix + addr_list_view(list@).take(j + 1);
                assert(s1.drop_last() =~= s0);
                assert(s1.last() == addr_view(*a));
            }
            if !is_no_reply_address(a.email.as_str()) {
                let lk = to_lowercase(a.email.as_str());
                let mut k: usize = 0;
                while k < keys.len() && !crate::text::str_eq(keys[k].as_str(), lk.as_str())
                    invariant
                        k <= keys@.len(),
                        merged@.len() == keys@.len(),
                        forall|m: int| 0 <= m < k ==> (#[trigger] keys@[m])@ != lk@,
                    decreases keys@.len() - k,
                {
                    k += 1;
                }
                let ghost mv = addr_list_view(merged@);
                proof {
                    assert forall|m: int| 0 <= m < k implies lowercase(#[trigger] mv[m].1) != lowercase(a.email@) by {
                        assert(keys@[m]@ == lowercase(merged@[m].email@));
                    }
                    if k < keys@.len() {
                        assert(keys@[k as int]@ == lowercase(merged@[k as int].email@));
                    }
                    lemma_email_index(mv, a.email@, k as int);
                }
                if k < keys.len() {
                    match &a.name {
                        Some(n) => {
                            let e = Address { name: Some(n.clone()), email: merged[k].email.clone() };
                            merged.set(k, e);
                            proof {
                                assert(addr_list_view(merged@) =~= mv.update(k as int, (addr_view(*a).0, mv[k as int].1)));
                            }
                        },
                        None => {},
                    }
                } else {
                    merged.push(a.duplicate());
                    keys.push(lk);
                    proof {
                        assert(addr_list_view(merged@) =~= mv.push(addr_view(*a)));
                    }
                }
            }
            j += 1;
        }
        proof {
            assert(addr_list_view(list@).take(list@.len() as int) =~= addr_list_view(list@));
        }
        i += 1;
    }
    proof {
        assert(lists@.take(lists@.len() as int) =~= lists@);
    }
    let ghost mview = addr_list_view(merged@);
    let mut sorted: Vec<(Vec<char>, Address)> = Vec::new();
    let mut m: usize = 0;
    while m < merged.len()
        invariant
            m <= merged@.len(),
            mview == addr_list_view(merged@),
            keyed_view(sorted@) == sort_by_key(keyed_senders(mview).take(m as int)),
        decreases merged@.len() - m,
    {
        let key = sort_key(&merged[m]);
        proof {
            let t = keyed_senders(mview).take(m + 1);
            assert(t.drop_last() =~= keyed_senders(mview).take(m as int));
            assert(t.last() == (sender_key(mview[m as int]), mview[m as int]));
        }
        insert_sender(&mut sorted, (key, merged[m].duplicate()));
        m += 1;
    }
    proof {
        assert(keyed_senders(mview).take(mview.len() as int) =~= keyed_senders(mview));
    }
    let ghost sv = keyed_view(sorted@);
    let mut out: Vec<Address> = Vec::new();
    let mut q: usize = 0;
    while q < sorted.len()
        invariant
            q <= sorted@.len(),
            sv == keyed_view(sorted@),
            addr_list_view(out@) == sv.take(q as int).map_values(
                |p: (Seq<char>, (Option<Seq<char>>, Seq<char>))| p.1,
            ),
        decreases sorted@.len() - q,
    {
        let ghost before = addr_list_view(out@);
        let e = sorted[q].1.duplicate();
        out.push(e);
        proof {
            assert(addr_list_view(out@) =~= before.push(sv[q as int].1));
            assert(sv.take(q + 1).map_values(|p: (Seq<char>, (Option<Seq<char>>, Seq<char>))| p.1)
                =~= sv.take(q as int).map_values(|p: (Seq<char>, (Option<Seq<char>>, Seq<char>))| p.1).push(sv[q as int].1));
        }
        q += 1;
    }
    proof {
        assert(sv.take(sorted@.len() as int) =~= sv);
    }
    out
}

/// The recipients of an outbox entry as stored: joined with commas.
pub fn join_recipients(recipients: &Vec<String>) -> (r: String)
    ensures
        r@ == join_with(strings_view(recipients@), ','),
{
    match crate::spellcheck::dictionary_argument(recipients) {
        Some(s) => s,
        None => {
            proof {
                assert(strings_view(recipients@).len() == 0);
            }
            String::new()
        },
    }
}

/// The non-empty comma-separated pieces of `s`, in order.
pub open spec fn nonempty_pieces(ps: Seq<Seq<char>>) -> Seq<Seq<char>>
    decreases ps.len(),
{
    if ps.len() == 0 {
        ps
    } else {
        let r = nonempty_pieces(ps.drop_last());
        if ps.last().len() > 0 {
            r.push(ps.last())
        } else {
            r
        }
    }
}

/// The recipients of a stored outbox entry: its comma-separated pieces,
/// empty ones dropped.
pub fn split_recipients(stored: &str) -> (r: Vec<String>)
    ensures
        strings_view(r@) == nonempty_pieces(split_char(stored@, ',')),
{
    let pieces = split_on_char(stored, ',');
    let mut r: Vec<String> = Vec::new();
    let mut i: usize = 0;
    while i < pieces.len()
        invariant
            i <= pieces@.len(),
            strings_view(r@) == nonempty_pieces(strings_view(pieces@).take(i as int)),
        decreases pieces@.len() - i,
    {
        proof {
            let t = strings_view(pieces@).take(i + 1);
            assert(t.drop_last() =~= strings_view(pieces@).take(i as int));
            assert(t.last() == pieces@[i as int]@);
        }
        if pieces[i].unicode_len() > 0 {
            let ghost before = strings_view(r@);
            r.push(pieces[i].clone());
            proof {
                assert(strings_view(r@) =~= before.push(pieces@[i as int]@));
            }
        }
        i += 1;
    }
    proof {
        assert(strings_view(pieces@).take(pieces@.len() as int) =~= strings_view(pieces@));
    }
    r
}

} // verus!
