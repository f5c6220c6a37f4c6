//! The decisions of syncing a folder with its IMAP server: a full or an
//! incremental sync, which sequence numbers or UIDs to fetch, how search
//! criteria and UID sets are written, and how fetched flags read.

use vstd::prelude::*;

use crate::config::{digits, unsigned_decimal};
use crate::spellcheck::join_with;
use crate::text::push_char;
use crate::types::{Flag, Flags};

verus! {

/// How many recently cached messages get their flags re-checked on every
/// sync (catches changes made from another client).
pub const FLAG_REFRESH_WINDOW: u32 = 200;

/// How many older messages one "load more" fetches.
pub const LOAD_MORE_BATCH: u32 = 50;

/// How many server-side search matches are fetched, newest first.
pub const REMOTE_SEARCH_LIMIT: usize = 200;

/// How many cached envelopes are read back for display at most.
pub const DISPLAY_LIMIT: u32 = 5000;

/// How a folder gets synced.
#[derive(Debug, Clone, Copy, PartialEq, Eq, Structural)]
pub enum SyncPlan {
    /// Fetch the newest messages afresh, first dropping the cached ones
    /// when they belong to an earlier `UIDVALIDITY`.
    Full { clear_first: bool },
    /// Fetch only what arrived since the last sync.
    Incremental,
}

/// A full sync is needed unless the saved `UIDVALIDITY` is the server's;
/// the cache is cleared first when one was saved (its UIDs are stale).
pub fn sync_plan(saved_uidvalidity: Option<u32>, server_uidvalidity: u32) -> (r: SyncPlan)
    ensures
        r == (if saved_uidvalidity == Some(server_uidvalidity) {
            SyncPlan::Incremental
        } else {
            SyncPlan::Full { clear_first: saved_uidvalidity is Some }
        }),
{
    match saved_uidvalidity {
        Some(v) => {
            if v == server_uidvalidity {
                SyncPlan::Incremental
            } else {
                SyncPlan::Full { clear_first: true }
            }
        },
        None => SyncPlan::Full { clear_first: false },
    }
}

/// The first sequence number a full sync fetches from a mailbox of
/// `exists` messages: the newest `fetch_limit` of them, never below 1.
pub open spec fn full_sync_start(exists: int, fetch_limit: int) -> int {
    let back = if fetch_limit > 0 {
        fetch_limit - 1
    } else {
        0
    };
    let s = if exists > back {
        exists - back
    } else {
        0
    };
    if s >= 1 {
        s
    } else {
        1
    }
}

/// The sequence-number range (`start`, `end`) a full sync fetches;
/// nothing for an empty mailbox.
pub fn full_sync_range(exists: u32, fetch_limit: u32) -> (r: Option<(u32, u32)>)
    ensures
        exists == 0 ==> r is None,
        exists > 0 ==> r == Some((full_sync_start(exists as int, fetch_limit as int) as u32, exists)),
{
    if exists == 0 {
        return None;
    }
    let back = if fetch_limit > 0 {
        fetch_limit - 1
    } else {
        0
    };
    let s = if exists > back {
        exists - back
    } else {
        0
    };
    Some((if s >= 1 {
        s
    } else {
        1
    }, exists))
}

/// What an incremental sync fetches, given the highest cached UID and the
/// server's next UID.
#[derive(Debug, Clone, Copy, PartialEq, Eq, Structural)]
pub enum NewMail {
    /// The UIDs from `.0` to `.1`, inclusive.
    Range(u32, u32),
    /// Nothing arrived.
    UpToDate,
    /// Nothing is cached (an earlier sync was interrupted): fetch the
    /// whole mailbox as a full sync would, without a size limit.
    Refetch,
}

/// The new-mail fetch of an incremental sync: the UIDs above the highest
/// cached one, up to the one before the server's next UID.
pub fn new_mail_plan(cached_max: Option<u32>, server_uid_next: u32) -> (r: NewMail)
    ensures
        r == (match cached_max {
            Some(m) => if server_uid_next > m + 1 {
                NewMail::Range((m + 1) as u32, (server_uid_next - 1) as u32)
            } else {
                NewMail::UpToDate
            },
            None => NewMail::Refetch,
        }),
{
    match cached_max {
        Some(m) => {
            if m < u32::MAX && server_uid_next > m + 1 {
                NewMail::Range(m + 1, server_uid_next - 1)
            } else {
                NewMail::UpToDate
            }
        },
        None => NewMail::Refetch,
    }
}

/// An IMAP range `start:end`.
pub fn range_set(start: u32, end: u32) -> (r: String)
    ensures
        r@ == digits(start as nat) + seq![':'] + digits(end as nat),
{
    let mut r = unsigned_decimal(start as u64);
    push_char(&mut r, ':');
    let e = unsigned_decimal(end as u64);
    r.append(e.as_str());
    r
}

/// The decimal digits of each UID.
pub open spec fn uid_digits(uids: Seq<u32>) -> Seq<Seq<char>> {
    uids.map_values(|u: u32| digits(u as nat))
}

/// An IMAP UID set listing `uids`, comma-separated.
pub fn uid_list(uids: &Vec<u32>) -> (r: String)
    ensures
        r@ == join_with(uid_digits(uids@), ','),
{
    let mut r = String::new();
    let mut i: usize = 0;
    while i < uids.len()
        invariant
            i <= uids@.len(),
            r@ == join_with(uid_digits(uids@).take(i as int), ','),
        decreases uids@.len() - i,
    {
        proof {
            let t = uid_digits(uids@).take(i + 1);
            assert(t.drop_last() =~= uid_digits(uids@).take(i as int));
            assert(t.last() == digits(uids@[i as int] as nat));
            if i == 0 {
                assert(r@ =~= Seq::<char>::empty());
            }
        }
        if i > 0 {
            push_char(&mut r, ',');
        }
        let d = unsigned_decimal(uids[i] as u64);
        r.append(d.as_str());
        proof {
            if i == 0 {
                assert(r@ =~= digits(uids@[0] as nat));
            }
        }
        i += 1;
    }
    proof {
        assert(uid_digits(uids@).take(uids@.len() as int) =~= uid_digits(uids@));
    }
    r
}

/// The `UID SEARCH` criteria for mail older than the oldest cached UID:
/// none when nothing is cached or UID 1 already is.
pub fn older_mail_criteria(min_uid: Option<u32>) -> (r: Option<String>)
    ensures
        match min_uid {
            Some(m) if m > 1 => r matches Some(c) && c@ == "UID 1:"@ + digits((m - 1) as nat),
            _ => r is None,
        },
{
    match min_uid {
        Some(m) => {
            if m > 1 {
                let mut c = String::from_str("UID 1:");
                let d = unsigned_decimal((m - 1) as u64);
                c.append(d.as_str());
                Some(c)
            } else {
                None
            }
        },
        None => None,
    }
}

/// `x` placed into the descending `sorted` after every element not smaller.
pub open spec fn insert_desc(sorted: Seq<u32>, x: u32) -> Seq<u32>
    decreases sorted.len(),
{
    if sorted.len() == 0 {
        seq![x]
    } else if sorted.last() >= x {
        sorted.push(x)
    } else {
        insert_desc(sorted.drop_last(), x).push(sorted.last())
    }
}

/// `v` in descending order.
pub open spec fn sorted_desc(v: Seq<u32>) -> Seq<u32>
    decreases v.len(),
{
    if v.len() == 0 {
        v
    } else {
        insert_desc(sorted_desc(v.drop_last()), v.last())
    }
}

proof fn lemma_insert_desc_at(sorted: Seq<u32>, x: u32, p: int)
    requires
        0 <= p <= sorted.len(),
        forall|k: int| p <= k < sorted.len() ==> #[trigger] sorted[k] < x,
        p > 0 ==> sorted[p - 1] >= x,
    ensures
        insert_desc(sorted, x) == sorted.take(p).push(x) + sorted.skip(p),
    decreases sorted.len(),
{
    if sorted.len() == 0 {
        assert(sorted.take(p).push(x) + sorted.skip(p) =~= seq![x]);
    } else if sorted.last() >= x {
        assert(p == sorted.len());
        assert(sorted.take(p) =~= sorted);
        assert(sorted.take(p).push(x) + sorted.skip(p) =~= sorted.push(x));
    } else {
        let d = sorted.drop_last();
        lemma_insert_desc_at(d, x, p);
        assert(d.take(p) =~= sorted.take(p));
        assert(d.skip(p).push(sorted.last()) =~= sorted.skip(p));
        assert((d.take(p).push(x) + d.skip(p)).push(sorted.last()) =~= sorted.take(p).push(x)
            + sorted.skip(p));
    }
}

/// The `limit` highest UIDs of `candidates`, highest first.
pub fn newest_uids(candidates: &Vec<u32>, limit: usize) -> (r: Vec<u32>)
    ensures
        r@ == sorted_desc(candidates@).take(
            if limit < candidates@.len() {
                limit as int
            } else {
                candidates@.len() as int
            },
        ),
{
    let mut sorted: Vec<u32> = Vec::new();
    let mut i: usize = 0;
    while i < candidates.len()
        invariant
            i <= candidates@.len(),
            sorted@ == sorted_desc(candidates@.take(i as int)),
            sorted@.len() == i,
        decreases candidates@.len() - i,
    {
        let x = candidates[i];
        proof {
            assert(candidates@.take(i + 1).drop_last() =~= candidates@.take(i as int));
            assert(candidates@.take(i + 1).last() == x);
        }
        let mut p = sorted.len();
        while p > 0 && sorted[p - 1] < x
            invariant
                p <= sorted@.len(),
                forall|k: int| p <= k < sorted@.len() ==> #[trigger] sorted@[k] < x,
            decreases p,
        {
            p -= 1;
        }
        let ghost before = sorted@;
        proof {
            lemma_insert_desc_at(before, x, p as int);
        }
        sorted.insert(p, x);
        proof {
            assert(sorted@ =~= before.take(p as int).push(x) + before.skip(p as int));
        }
        i += 1;
    }
    proof {
        assert(candidates@.take(candidates@.len() as int) =~= candidates@);
    }
    let n = if limit < sorted.len() {
        limit
    } else {
        sorted.len()
    };
    let mut r: Vec<u32> = Vec::new();
    let mut k: usize = 0;
    while k < n
        invariant
            n <= sorted@.len(),
            k <= n,
            r@ == sorted@.take(k as int),
        decreases n - k,
    {
        r.push(sorted[k]);
        k += 1;
        assert(r@ =~= sorted@.take(k as int));
    }
    r
}

/// `s` with each backslash and double quote escaped by a backslash.
pub open spec fn escaped(s: Seq<char>) -> Seq<char>
    decreases s.len(),
{
    if s.len() == 0 {
        s
    } else {
        let c = s.last();
        escaped(s.drop_last()) + if c == '\\' || c == '"' {
            seq!['\\', c]
        } else {
            seq![c]
        }
    }
}

/// Quotes a term for use inside an IMAP quoted search string: backslash
/// and double quote, the only characters that need it there, get a
/// backslash in front (backslashes first, so a term ending in `\"` stays
/// well formed).
pub fn escape_search_term(term: &str) -> (r: String)
    ensures
        r@ == escaped(term@),
{
    let v = crate::text::chars_of(term);
    let mut r = String::new();
    let mut i: usize = 0;
    while i < v.len()
        invariant
            i <= v@.len(),
            v@ == term@,
            r@ == escaped(v@.take(i as int)),
        decreases v@.len() - i,
    {
        let c = v[i];
        proof {
            assert(v@.take(i + 1).drop_last() =~= v@.take(i as int));
            assert(v@.take(i + 1).last() == c);
        }
        let ghost before = r@;
        if c == '\\' || c == '"' {
            push_char(&mut r, '\\');
        }
        push_char(&mut r, c);
        proof {
            if c == '\\' || c == '"' {
                assert(r@ =~= before + seq!['\\', c]);
            } else {
                assert(r@ =~= before + seq![c]);
            }
        }
        i += 1;
    }
    proof {
        assert(v@.take(v@.len() as int) =~= v@);
    }
    r
}

/// The `UID SEARCH` criteria for a server search: subject or sender
/// contains the (escaped) query.
pub fn search_criteria(query: &str) -> (r: String)
    ensures
        r@ == "OR SUBJECT \""@ + escaped(query@) + "\" FROM \""@ + escaped(query@) + "\""@,
{
    let e = escape_search_term(query);
    let mut r = String::from_str("OR SUBJECT \"");
    r.append(e.as_str());
    r.append("\" FROM \"");
    r.append(e.as_str());
    r.append("\"");
    r
}

/// The flags named in `fs`.
pub open spec fn flags_of(fs: Seq<Flag>) -> Flags {
    Flags {
        seen: fs.contains(Flag::Seen),
        answered: fs.contains(Flag::Answered),
        flagged: fs.contains(Flag::Flagged),
        deleted: fs.contains(Flag::Deleted),
        draft: fs.contains(Flag::Draft),
    }
}

/// The flags a server reported for a message.
pub fn to_flags(fs: &Vec<Flag>) -> (r: Flags)
    ensures
        r == flags_of(fs@),
        r.seen == fs@.contains(Flag::Seen),
        r.answered == fs@.contains(Flag::Answered),
        r.flagged == fs@.contains(Flag::Flagged),
        r.deleted == fs@.contains(Flag::Deleted),
        r.draft == fs@.contains(Flag::Draft),
{
    let mut out = Flags::default();
    let mut i: usize = 0;
    while i < fs.len()
        invariant
            i <= fs@.len(),
            out == flags_of(fs@.take(i as int)),
        decreases fs@.len() - i,
    {
        let f = fs[i];
        match f {
            Flag::Seen => out.seen = true,
            Flag::Answered => out.answered = true,
            Flag::Flagged => out.flagged = true,
            Flag::Deleted => out.deleted = true,
            Flag::Draft => out.draft = true,
        }
        i += 1;
        proof {
            let t = fs@.take(i as int);
            assert(t =~= fs@.take(i - 1).push(f));
            let q = fs@.take(i - 1);
            assert forall|g: Flag| t.contains(g) == (q.contains(g) || g == f) by {
                if q.contains(g) {
                    let k = choose|k: int| 0 <= k < q.len() && q[k] == g;
                    assert(t[k] == g);
                }
                if g == f {
                    assert(t[t.len() - 1] == f);
                }
                if t.contains(g) {
                    let k = choose|k: int| 0 <= k < t.len() && t[k] == g;
                    if k < q.len() {
                        assert(q[k] == g);
                    }
                }
            }
        }
    }
    proof {
        assert(fs@.take(fs@.len() as int) =~= fs@);
    }
    out
}

} // verus!
