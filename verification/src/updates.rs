//! How the results of background work (syncs, body fetches, sends,
//! deletes, server searches, spellcheck passes) change the interface.
//! The caller routes each result to the account it belongs to and only
//! hands over those for the account being shown.

use vstd::prelude::*;

use crate::app::{
    App, BodyState, ComposeState, ListState, keys_by_line, last_row, visible_len, visible_of,
};
use crate::config::{digits, unsigned_decimal};
use crate::keys::{app_ok, selected_uid_of};
use crate::send::SendOutcome;
use crate::text::{str_eq, strings_view, trim, trimmed};
use crate::types::{Address, Envelope, Message};

verus! {

/// Work to start after taking in a result.
#[derive(Debug, PartialEq, Eq, Structural)]
pub enum Followup {
    Nothing,
    /// Reload the account's sender book (new mail may bring new senders).
    RefreshSenders,
    /// Reload the account's cached envelopes.
    ReloadEnvelopes,
}

/// `k` is the first index of an envelope with `uid` in `envs`.
pub open spec fn first_with_uid(envs: Seq<Envelope>, uid: u32, k: int) -> bool {
    &&& 0 <= k < envs.len()
    &&& envs[k].uid == uid
    &&& forall|j: int| 0 <= j < k ==> envs[j].uid != uid
}

/// Some envelope of `envs` carries `uid`.
pub open spec fn has_uid(envs: Seq<Envelope>, uid: u32) -> bool {
    exists|j: int| 0 <= j < envs.len() && envs[j].uid == uid
}

/// The first index of an envelope carrying `uid`, if any.
fn position_of_uid(envs: &Vec<Envelope>, uid: u32) -> (r: Option<usize>)
    ensures
        match r {
            Some(k) => first_with_uid(envs@, uid, k as int),
            None => !has_uid(envs@, uid),
        },
{
    let mut i: usize = 0;
    while i < envs.len()
        invariant
            i <= envs@.len(),
            forall|j: int| 0 <= j < i ==> envs@[j].uid != uid,
        decreases envs@.len() - i,
    {
        if envs[i].uid == uid {
            return Some(i);
        }
        i += 1;
    }
    None
}

/// `envs` without the envelopes of `found` whose UID is already in
/// `existing`, order kept.
pub open spec fn unseen(found: Seq<Envelope>, existing: Seq<Envelope>) -> Seq<Envelope>
    decreases found.len(),
{
    if found.len() == 0 {
        found
    } else {
        let r = unseen(found.drop_last(), existing);
        if has_uid(existing, found.last().uid) {
            r
        } else {
            r.push(found.last())
        }
    }
}

/// `x` placed into the UID-descending `sorted` after every envelope
/// whose UID is not smaller.
pub open spec fn insert_by_uid(sorted: Seq<Envelope>, x: Envelope) -> Seq<Envelope>
    decreases sorted.len(),
{
    if sorted.len() == 0 {
        seq![x]
    } else if sorted.last().uid >= x.uid {
        sorted.push(x)
    } else {
        insert_by_uid(sorted.drop_last(), x).push(sorted.last())
    }
}

/// `items` newest first: by descending UID, equal UIDs keeping their
/// order (a stable sort).
pub open spec fn newest_first(items: Seq<Envelope>) -> Seq<Envelope>
    decreases items.len(),
{
    if items.len() == 0 {
        items
    } else {
        insert_by_uid(newest_first(items.drop_last()), items.last())
    }
}

/// Where `insert_by_uid` puts `x`.
proof fn lemma_insert_by_uid_at(sorted: Seq<Envelope>, x: Envelope, p: int)
    requires
        0 <= p <= sorted.len(),
        forall|k: int| p <= k < sorted.len() ==> #[trigger] sorted[k].uid < x.uid,
        p > 0 ==> sorted[p - 1].uid >= x.uid,
    ensures
        insert_by_uid(sorted, x) == sorted.take(p).push(x) + sorted.skip(p),
    decreases sorted.len(),
{
    if sorted.len() == 0 {
        assert(sorted.take(p).push(x) + sorted.skip(p) =~= seq![x]);
    } else if sorted.last().uid >= x.uid {
        assert(p == sorted.len());
        assert(sorted.take(p) =~= sorted);
        assert(sorted.take(p).push(x) + sorted.skip(p) =~= sorted.push(x));
    } else {
        let d = sorted.drop_last();
        lemma_insert_by_uid_at(d, x, p);
        assert(d.take(p) =~= sorted.take(p));
        assert(d.skip(p).push(sorted.last()) =~= sorted.skip(p));
        assert((d.take(p).push(x) + d.skip(p)).push(sorted.last()) =~= sorted.take(p).push(x)
            + sorted.skip(p));
    }
}

/// Sorts `v` newest first (see `newest_first`).
fn sort_newest_first(v: Vec<Envelope>) -> (r: Vec<Envelope>)
    ensures
        r@ == newest_first(v@),
{
    let ghost orig = v@;
    let mut rest = v;
    let n0 = rest.len();
    assert(orig.len() == n0);
    let mut out: Vec<Envelope> = Vec::new();
    let mut i: usize = 0;
    while rest.len() > 0
        invariant
            orig.len() <= usize::MAX,
            i + rest@.len() == orig.len(),
            rest@ == orig.skip(i as int),
            out@ == newest_first(orig.take(i as int)),
        decreases rest@.len(),
    {
        let x = rest.remove(0);
        proof {
            assert(orig.take(i + 1).drop_last() =~= orig.take(i as int));
            assert(orig.take(i + 1).last() == x);
        }
        let mut p = out.len();
        while p > 0 && out[p - 1].uid < x.uid
            invariant
                p <= out@.len(),
                forall|k: int| p <= k < out@.len() ==> #[trigger] out@[k].uid < x.uid,
            decreases p,
        {
            p -= 1;
        }
        let ghost before = out@;
        proof {
            lemma_insert_by_uid_at(before, x, p as int);
        }
        out.insert(p, x);
        proof {
            assert(out@ =~= before.take(p as int).push(x) + before.skip(p as int));
        }
        i += 1;
        proof {
            assert(rest@ =~= orig.skip(i as int));
        }
    }
    proof {
        assert(orig.take(orig.len() as int) =~= orig);
    }
    out
}

/// The found envelopes whose UID is not among `existing` (see `unseen`).
fn keep_unseen(found: Vec<Envelope>, existing: &Vec<Envelope>) -> (r: Vec<Envelope>)
    ensures
        r@ == unseen(found@, existing@),
{
    let ghost orig = found@;
    let mut rest = found;
    let n0 = rest.len();
    assert(orig.len() == n0);
    let mut out: Vec<Envelope> = Vec::new();
    let mut i: usize = 0;
    while rest.len() > 0
        invariant
            orig.len() <= usize::MAX,
            i + rest@.len() == orig.len(),
            rest@ == orig.skip(i as int),
            out@ == unseen(orig.take(i as int), existing@),
        decreases rest@.len(),
    {
        let x = rest.remove(0);
        proof {
            assert(orig.take(i + 1).drop_last() =~= orig.take(i as int));
            assert(orig.take(i + 1).last() == x);
        }
        match position_of_uid(existing, x.uid) {
            Some(_) => {},
            None => {
                out.push(x);
            },
        }
        i += 1;
        proof {
            assert(rest@ =~= orig.skip(i as int));
        }
    }
    proof {
        assert(orig.take(orig.len() as int) =~= orig);
    }
    out
}

/// The selection after a resync to `envs`, given what was selected
/// before: the first row holding the previously selected UID, or the
/// top.
pub open spec fn kept_selection(envs: Seq<Envelope>, before: Option<u32>, selected: int) -> bool {
    match before {
        Some(u) if has_uid(envs, u) => first_with_uid(envs, u, selected),
        _ => selected == 0,
    }
}

/// The status after a server search for `query` found `n` new envelopes.
pub open spec fn server_search_status(query: Seq<char>, n: nat) -> Seq<char> {
    if n == 0 {
        "No matches found on the server for \""@ + query + "\"."@
    } else {
        "Found "@ + digits(n) + " more match(es) on the server."@
    }
}

impl App {
    /// Takes the envelopes of a finished sync: they replace the list,
    /// which counts as loaded, keeping the selection on the message it
    /// was on (see `kept_selection`); the sender book should be reloaded.
    /// A failed sync puts the list in error.
    pub fn sync_done(&mut self, result: Result<Vec<Envelope>, String>) -> (r: Followup)
        ensures
            match result {
                Ok(envs) => {
                    &&& *final(self) == (App {
                        envelopes: envs,
                        list_state: ListState::Loaded,
                        selected: final(self).selected,
                        ..*old(self)
                    })
                    &&& kept_selection(envs@, selected_uid_of(*old(self)), final(self).selected as int)
                    &&& r == Followup::RefreshSenders
                },
                Err(e) => *final(self) == (App { list_state: ListState::Error(e), ..*old(self) })
                    && r == Followup::Nothing,
            },
    {
        match result {
            Ok(envs) => {
                let before = self.selected_uid();
                proof {
                    assert(before == selected_uid_of(*old(self)));
                }
                let selected = match before {
                    Some(u) => match position_of_uid(&envs, u) {
                        Some(k) => k,
                        None => 0,
                    },
                    None => 0,
                };
                self.envelopes = envs;
                self.list_state = ListState::Loaded;
                self.selected = selected;
                Followup::RefreshSenders
            },
            Err(e) => {
                self.list_state = ListState::Error(e);
                Followup::Nothing
            },
        }
    }

    /// Takes an account's cached envelopes (read after switching to it
    /// or after new mail arrived): an empty cache still counts as loading,
    /// since a sync is on its way.
    pub fn envelopes_loaded(&mut self, result: Result<Vec<Envelope>, String>)
        ensures
            match result {
                Ok(envs) => *final(self) == (App {
                    list_state: (if envs@.len() == 0 {
                        ListState::Loading
                    } else {
                        ListState::Loaded
                    }),
                    envelopes: envs,
                    ..*old(self)
                }),
                Err(e) => *final(self) == (App { list_state: ListState::Error(e), ..*old(self) }),
            },
    {
        match result {
            Ok(envs) => {
                self.list_state = if envs.len() == 0 {
                    ListState::Loading
                } else {
                    ListState::Loaded
                };
                self.envelopes = envs;
            },
            Err(e) => {
                self.list_state = ListState::Error(e);
            },
        }
    }

    /// Takes a fetched message body; it is shown only if that message is
    /// still the selected one (its first attachment highlighted).
    pub fn body_loaded(&mut self, uid: u32, result: Result<Message, String>)
        ensures
            selected_uid_of(*old(self)) == Some(uid) ==> match result {
                Ok(m) => *final(self) == (App {
                    selected_attachment: 0,
                    body: BodyState::Loaded(m),
                    ..*old(self)
                }),
                Err(e) => *final(self) == (App { body: BodyState::Error(e), ..*old(self) }),
            },
            selected_uid_of(*old(self)) != Some(uid) ==> *final(self) == *old(self),
    {
        match self.selected_uid() {
            Some(u) => {
                if u == uid {
                    match result {
                        Ok(m) => {
                            self.selected_attachment = 0;
                            self.body = BodyState::Loaded(m);
                        },
                        Err(e) => {
                            self.body = BodyState::Error(e);
                        },
                    }
                }
            },
            None => {},
        }
    }

    /// Takes the outcome of sending the draft: sent or queued closes the
    /// compose view with a note saying which; a failure stays in the
    /// compose view, which is no longer sending and shows the error.
    pub fn send_finished(&mut self, result: Result<SendOutcome, String>)
        ensures
            match result {
                Ok(o) => {
                    &&& *final(self) == (App {
                        compose: None,
                        status_message: final(self).status_message,
                        ..*old(self)
                    })
                    &&& final(self).status_message matches Some(m) && m@ == (match o {
                        SendOutcome::Sent => "Sent."@,
                        SendOutcome::Queued => "Offline \u{2014} queued, will retry."@,
                    })
                },
                Err(e) => match old(self).compose {
                    Some(c) => *final(self) == (App {
                        compose: Some(ComposeState { sending: false, error: Some(e), ..c }),
                        ..*old(self)
                    }),
                    None => *final(self) == *old(self),
                },
            },
    {
        match result {
            Ok(o) => {
                self.compose = None;
                let status = match o {
                    SendOutcome::Sent => String::from_str("Sent."),
                    SendOutcome::Queued => String::from_str("Offline \u{2014} queued, will retry."),
                };
                self.set_status(status);
            },
            Err(e) => {
                match self.compose.take() {
                    Some(mut c) => {
                        c.sending = false;
                        c.error = Some(e);
                        self.compose = Some(c);
                    },
                    None => {},
                }
            },
        }
    }

    /// Takes the outcome of deleting message `uid`: on success it leaves
    /// the list (the selection staying within what is shown) with a note;
    /// a failure is reported as `"Delete failed: <error>"`.
    pub fn message_deleted(&mut self, uid: u32, result: Result<(), String>)
        ensures
            match result {
                Ok(()) => {
                    let n = visible_of(crate::app::without_uid(old(self).envelopes@, uid), old(self).search).len() as int;
                    &&& final(self).envelopes@ == crate::app::without_uid(old(self).envelopes@, uid)
                    &&& *final(self) == (App {
                        envelopes: final(self).envelopes,
                        selected: (if old(self).selected < n {
                            old(self).selected as int
                        } else {
                            last_row(n)
                        }) as usize,
                        status_message: final(self).status_message,
                        ..*old(self)
                    })
                    &&& final(self).status_message matches Some(m) && m@ == "Message deleted."@
                },
                Err(e) => *final(self) == (App {
                    status_message: final(self).status_message,
                    ..*old(self)
                }) && (final(self).status_message matches Some(m) && m@ == "Delete failed: "@ + e@),
            },
    {
        match result {
            Ok(()) => {
                self.remove_envelope(uid);
                self.set_status(String::from_str("Message deleted."));
            },
            Err(e) => {
                let mut status = String::from_str("Delete failed: ");
                status.append(e.as_str());
                self.set_status(status);
            },
        }
    }

    /// Takes the outcome of fetching older mail: the fetch is over; none
    /// found means nothing older exists; some found means the cached list
    /// should be reloaded; a failure is reported.
    pub fn older_fetched(&mut self, result: Result<usize, String>) -> (r: Followup)
        ensures
            match result {
                Ok(n) => if n == 0 {
                    *final(self) == (App { loading_more: false, has_more_older: false, ..*old(self) })
                        && r == Followup::Nothing
                } else {
                    *final(self) == (App { loading_more: false, ..*old(self) }) && r
                        == Followup::ReloadEnvelopes
                },
                Err(e) => {
                    &&& *final(self) == (App {
                        loading_more: false,
                        status_message: final(self).status_message,
                        ..*old(self)
                    })
                    &&& final(self).status_message matches Some(m) && m@
                        == "Couldn't load more mail: "@ + e@
                    &&& r == Followup::Nothing
                },
            },
    {
        self.loading_more = false;
        match result {
            Ok(n) => {
                if n == 0 {
                    self.has_more_older = false;
                    Followup::Nothing
                } else {
                    Followup::ReloadEnvelopes
                }
            },
            Err(e) => {
                let mut status = String::from_str("Couldn't load more mail: ");
                status.append(e.as_str());
                self.set_status(status);
                Followup::Nothing
            },
        }
    }

    /// Takes the account's sender book, for recipient suggestions.
    pub fn senders_loaded(&mut self, senders: Vec<Address>)
        ensures
            *final(self) == (App { known_senders: senders, ..*old(self) }),
    {
        self.known_senders = senders;
    }

    /// Takes the misspelled word keys of one body line (see
    /// `ComposeState::set_line_misspellings`); dropped when the compose
    /// view has closed.
    pub fn line_checked(&mut self, line: usize, words: Vec<String>)
        requires
            line < usize::MAX,
        ensures
            match old(self).compose {
                Some(c) => {
                    let old_v = keys_by_line(c.misspelled_by_line@);
                    &&& final(self).compose matches Some(d) && d == (ComposeState {
                        misspelled_by_line: d.misspelled_by_line,
                        ..c
                    }) && keys_by_line(d.misspelled_by_line@) == (if line < old_v.len() {
                        old_v.update(line as int, strings_view(words@))
                    } else {
                        old_v + Seq::new(
                            (line - old_v.len()) as nat,
                            |i: int| Seq::<Seq<char>>::empty(),
                        ).push(strings_view(words@))
                    })
                    &&& *final(self) == (App { compose: final(self).compose, ..*old(self) })
                },
                None => *final(self) == *old(self),
            },
    {
        match self.compose.take() {
            Some(mut c) => {
                c.set_line_misspellings(line, words);
                self.compose = Some(c);
            },
            None => {},
        }
    }

    /// Takes the misspelled word keys of every body line at once; dropped
    /// when the compose view has closed.
    pub fn body_checked(&mut self, by_line: Vec<Vec<String>>)
        ensures
            match old(self).compose {
                Some(c) => *final(self) == (App {
                    compose: Some(ComposeState { misspelled_by_line: by_line, ..c }),
                    ..*old(self)
                }),
                None => *final(self) == *old(self),
            },
    {
        match self.compose.take() {
            Some(mut c) => {
                c.set_all_misspellings(by_line);
                self.compose = Some(c);
            },
            None => {},
        }
    }

    /// Takes the outcome of a server search for `query`, if the search box
    /// still holds that query (trimmed): envelopes not cached yet join the
    /// list, newest first, with a note of how many; none new, or a
    /// failure, is reported. A result for an old query is dropped.
    pub fn server_search_done(&mut self, query: &str, result: Result<Vec<Envelope>, String>)
        ensures
            ({
                let relevant = old(self).search matches Some(s) && trim(s.value@) == query@;
                if !relevant {
                    *final(self) == *old(self)
                } else {
                    match result {
                        Ok(found) => {
                            let fresh = unseen(found@, old(self).envelopes@);
                            &&& final(self).status_message matches Some(m) && m@
                                == server_search_status(query@, fresh.len())
                            &&& final(self).envelopes@ == (if fresh.len() == 0 {
                                old(self).envelopes@
                            } else {
                                newest_first(old(self).envelopes@ + fresh)
                            })
                            &&& *final(self) == (App {
                                envelopes: final(self).envelopes,
                                status_message: final(self).status_message,
                                ..*old(self)
                            })
                        },
                        Err(e) => *final(self) == (App {
                            status_message: final(self).status_message,
                            ..*old(self)
                        }) && (final(self).status_message matches Some(m) && m@
                            == "Server search failed: "@ + e@),
                    }
                }
            }),
    {
        let relevant = match &self.search {
            Some(s) => {
                let t = trimmed(s.value.as_str());
                str_eq(t.as_str(), query)
            },
            None => false,
        };
        if !relevant {
            return;
        }
        match result {
            Ok(found) => {
                let fresh = keep_unseen(found, &self.envelopes);
                if fresh.len() == 0 {
                    let mut status = String::from_str("No matches found on the server for \"");
                    status.append(query);
                    status.append("\".");
                    self.set_status(status);
                } else {
                    let mut status = String::from_str("Found ");
                    let count = unsigned_decimal(fresh.len() as u64);
                    status.append(count.as_str());
                    status.append(" more match(es) on the server.");
                    self.set_status(status);
                    let mut all: Vec<Envelope> = Vec::new();
                    std::mem::swap(&mut all, &mut self.envelopes);
                    let ghost before = all@;
                    let mut fresh = fresh;
                    all.append(&mut fresh);
                    self.envelopes = sort_newest_first(all);
                }
            },
            Err(e) => {
                let mut status = String::from_str("Server search failed: ");
                status.append(e.as_str());
                self.set_status(status);
            },
        }
    }
}

} // verus!
