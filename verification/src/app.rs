//! The state of the message list and of the compose view, and how keys
//! move through it.

use vstd::prelude::*;

use crate::attach::AttachmentEntry;
use crate::editable::{join_lines, TextArea, TextInput};
use crate::filebrowser::FileBrowser;
use crate::smtp::Draft;
use crate::fuzzy::{addrs_view, best_matches, best_of};
use crate::text::{
    all_ws, chars_of, contains_seq, has_prefix, lemma_split_last, lowercase, push_char, rfind_char,
    split_char, str_contains, str_starts_with, strings_view, substring, to_lowercase, trim,
    trimmed,
};
use crate::types::Address;
use crate::types::has_non_ws;
use crate::types::{Envelope, Message};

verus! {

/// What the reading pane shows.
pub enum BodyState {
    Empty,
    Loading,
    Loaded(Message),
    Error(String),
}

/// Whether the message list is loading, loaded, or failed.
pub enum ListState {
    Loading,
    Loaded,
    Error(String),
}

/// The compose view's fields, in Tab order.
#[derive(Debug, Clone, Copy, PartialEq, Eq, Structural)]
pub enum ComposeField {
    To,
    Cc,
    Bcc,
    Subject,
    Attachments,
    Body,
}

/// The field after `f` in Tab order, wrapping from Body to To.
pub open spec fn field_after(f: ComposeField) -> ComposeField {
    match f {
        ComposeField::To => ComposeField::Cc,
        ComposeField::Cc => ComposeField::Bcc,
        ComposeField::Bcc => ComposeField::Subject,
        ComposeField::Subject => ComposeField::Attachments,
        ComposeField::Attachments => ComposeField::Body,
        ComposeField::Body => ComposeField::To,
    }
}

/// The field before `f` in Tab order, wrapping from To to Body.
pub open spec fn field_before(f: ComposeField) -> ComposeField {
    match f {
        ComposeField::To => ComposeField::Body,
        ComposeField::Cc => ComposeField::To,
        ComposeField::Bcc => ComposeField::Cc,
        ComposeField::Subject => ComposeField::Bcc,
        ComposeField::Attachments => ComposeField::Subject,
        ComposeField::Body => ComposeField::Attachments,
    }
}

/// Everything the compose view holds.
pub struct ComposeState {
    pub to: TextInput,
    pub cc: TextInput,
    pub bcc: TextInput,
    pub subject: TextInput,
    pub body: TextArea,
    pub focus: ComposeField,
    pub attachments: Vec<AttachmentEntry>,
    pub attachment_selected: usize,
    /// `Some` while the "attach a file" prompt is open, with the error of
    /// the last attempt, if any.
    pub attach_prompt: Option<(TextInput, Option<String>)>,
    pub sending: bool,
    pub error: Option<String>,
    /// The recipient suggestions showing under the focused address field.
    pub suggestions: Suggestions,
    /// For each body line, the lookup keys of its misspelled words.
    pub misspelled_by_line: Vec<Vec<String>>,
}

/// A dropdown of suggested recipients and which one is highlighted.
pub struct Suggestions {
    pub items: Vec<Address>,
    pub selected: usize,
}

impl Suggestions {
    /// No suggestions.
    pub fn empty() -> (r: Self)
        ensures
            r.items@.len() == 0,
            r.selected == 0,
    {
        Suggestions { items: Vec::new(), selected: 0 }
    }

    /// Highlights the previous suggestion, stopping at the first.
    pub fn move_up(&mut self)
        ensures
            final(self).selected == (if old(self).selected > 0 {
                old(self).selected - 1
            } else {
                0
            }),
            final(self).items == old(self).items,
    {
        if self.selected > 0 {
            self.selected = self.selected - 1;
        }
    }

    /// Highlights the next suggestion, stopping at the last.
    pub fn move_down(&mut self)
        ensures
            final(self).selected == (if old(self).items@.len() == 0 {
                old(self).selected as int
            } else if old(self).selected + 1 < old(self).items@.len() {
                old(self).selected + 1
            } else {
                old(self).items@.len() - 1
            }),
            final(self).items == old(self).items,
    {
        if self.items.len() > 0 {
            self.selected = if self.selected < self.items.len() - 1 {
                self.selected + 1
            } else {
                self.items.len() - 1
            };
        }
    }

    /// Dismisses the dropdown.
    pub fn clear(&mut self)
        ensures
            final(self).items@.len() == 0,
            final(self).selected == 0,
    {
        self.items = Vec::new();
        self.selected = 0;
    }
}

/// `d` is `c` after accepting the highlighted suggestion (see
/// `ComposeState::accept_suggestion`).
pub open spec fn accepted(c: ComposeState, d: ComposeState) -> bool {
    &&& d.suggestions.items@.len() == 0
    &&& d.suggestions.selected == 0
    &&& {
        let base = ComposeState { suggestions: d.suggestions, ..c };
        match c.recipient_field() {
            Some(t) if c.suggestions.selected < c.suggestions.items@.len() => {
                let email = c.suggestions.items@[c.suggestions.selected as int].email@;
                let v = with_fragment_replaced(t.value@, email);
                &&& d == base.with_recipient_field(
                    TextInput { value: d.recipient_field().unwrap().value, cursor: v.len() as usize },
                )
                &&& d.recipient_field().unwrap().value@ == v
            },
            _ => d == base,
        }
    }
}

/// The suggestions for the fragment being typed in `c`'s focused address
/// field (see `ComposeState::refresh_suggestions`).
pub open spec fn suggestions_for(c: ComposeState, known: Seq<Address>) -> Seq<(Option<Seq<char>>, Seq<char>)> {
    match c.recipient_field() {
        Some(t) => {
            let frag = recipient_fragment(t.value@);
            if frag.len() == 0 {
                Seq::empty()
            } else {
                best_of(frag, addrs_view(known), SUGGESTION_LIMIT as int)
            }
        },
        None => Seq::empty(),
    }
}

/// The misspelled word keys of each body line.
pub open spec fn keys_by_line(v: Seq<Vec<String>>) -> Seq<Seq<Seq<char>>> {
    v.map_values(|w: Vec<String>| strings_view(w@))
}

/// How many recipient suggestions the dropdown shows at most.
pub const SUGGESTION_LIMIT: usize = 5;

/// The recipient being typed in an address field: the text after its
/// last comma, trimmed.
pub open spec fn recipient_fragment(field: Seq<char>) -> Seq<char> {
    trim(split_char(field, ',').last())
}

/// The address field `field` with its last recipient replaced by
/// `email`: kept up to and including the last comma, then a space and
/// `email`; just `email` when there is no comma.
pub open spec fn with_fragment_replaced(field: Seq<char>, email: Seq<char>) -> Seq<char> {
    let last = split_char(field, ',').last();
    if split_char(field, ',').len() > 1 {
        field.take(field.len() - last.len()) + seq![' '] + email
    } else {
        email
    }
}

/// The combined size of attachments.
pub open spec fn total_size(atts: Seq<AttachmentEntry>) -> int
    decreases atts.len(),
{
    if atts.len() == 0 {
        0
    } else {
        total_size(atts.drop_last()) + atts.last().size_bytes
    }
}

/// Removing an attachment takes its size off the total.
pub proof fn lemma_total_size_remove(atts: Seq<AttachmentEntry>, i: int)
    requires
        0 <= i < atts.len(),
    ensures
        total_size(atts) == total_size(atts.remove(i)) + atts[i].size_bytes,
        total_size(atts.remove(i)) <= total_size(atts),
    decreases atts.len(),
{
    if i == atts.len() - 1 {
        assert(atts.remove(i) =~= atts.drop_last());
    } else {
        let d = atts.drop_last();
        lemma_total_size_remove(d, i);
        assert(atts.remove(i) =~= d.remove(i).push(atts.last()));
        assert(atts.remove(i).drop_last() =~= d.remove(i));
        assert(d[i] == atts[i]);
    }
}

/// The fragment being typed in an address field (see `recipient_fragment`).
fn fragment_of(field: &str) -> (r: String)
    ensures
        r@ == recipient_fragment(field@),
{
    let v = chars_of(field);
    let start = match rfind_char(&v, ',') {
        Some(k) => {
            proof {
                lemma_split_last(field@, ',', k as int);
                assert(k < v@.len());
            }
            k + 1
        },
        None => {
            proof {
                lemma_split_last(field@, ',', -1);
            }
            0
        },
    };
    proof {
        assert(v@.subrange(start as int, v@.len() as int) =~= field@.skip(start as int));
    }
    let last = substring(field, start, v.len());
    trimmed(last.as_str())
}

/// `field` with its last recipient replaced (see `with_fragment_replaced`).
fn replace_fragment(field: &str, email: &str) -> (r: String)
    ensures
        r@ == with_fragment_replaced(field@, email@),
{
    let v = chars_of(field);
    match rfind_char(&v, ',') {
        Some(k) => {
            proof {
                lemma_split_last(field@, ',', k as int);
                assert(v@.subrange(0, k + 1) =~= field@.take(field@.len() - field@.skip(k + 1).len()));
            }
            let mut r = substring(field, 0, k + 1);
            push_char(&mut r, ' ');
            r.append(email);
            r
        },
        None => {
            proof {
                lemma_split_last(field@, ',', -1);
            }
            String::from_str(email)
        },
    }
}

/// An empty single-line field with the cursor at 0.
pub open spec fn input_is_empty(t: TextInput) -> bool {
    t.value@.len() == 0 && t.cursor == 0
}

impl ComposeState {
    /// A compose view with every field empty, focus on To.
    pub fn blank() -> (r: Self)
        ensures
            input_is_empty(r.to) && input_is_empty(r.cc) && input_is_empty(r.bcc)
                && input_is_empty(r.subject),
            r.body.view_lines() == seq![Seq::<char>::empty()],
            r.body.lines@.len() == 1,
            r.body.cursor_row == 0 && r.body.cursor_col == 0,
            r.focus == ComposeField::To,
            r.attachments@.len() == 0,
            r.attachment_selected == 0,
            r.attach_prompt is None,
            !r.sending,
            r.error is None,
            r.suggestions.items@.len() == 0,
            r.suggestions.selected == 0,
            r.misspelled_by_line@.len() == 0,
    {
        let body = TextArea::default();
        assert(body.view_lines().len() == body.lines@.len());
        ComposeState {
            to: TextInput::default(),
            cc: TextInput::default(),
            bcc: TextInput::default(),
            subject: TextInput::default(),
            body,
            focus: ComposeField::To,
            attachments: Vec::new(),
            attachment_selected: 0,
            attach_prompt: None,
            sending: false,
            error: None,
            suggestions: Suggestions::empty(),
            misspelled_by_line: Vec::new(),
        }
    }

    /// Moves focus to the next field (Tab).
    pub fn next_field(&mut self)
        ensures
            *final(self) == (ComposeState { focus: field_after(old(self).focus), ..*old(self) }),
    {
        self.focus = match self.focus {
            ComposeField::To => ComposeField::Cc,
            ComposeField::Cc => ComposeField::Bcc,
            ComposeField::Bcc => ComposeField::Subject,
            ComposeField::Subject => ComposeField::Attachments,
            ComposeField::Attachments => ComposeField::Body,
            ComposeField::Body => ComposeField::To,
        };
    }

    /// Moves focus to the previous field (Shift+Tab).
    pub fn prev_field(&mut self)
        ensures
            *final(self) == (ComposeState { focus: field_before(old(self).focus), ..*old(self) }),
    {
        self.focus = match self.focus {
            ComposeField::To => ComposeField::Body,
            ComposeField::Cc => ComposeField::To,
            ComposeField::Bcc => ComposeField::Cc,
            ComposeField::Subject => ComposeField::Bcc,
            ComposeField::Attachments => ComposeField::Subject,
            ComposeField::Body => ComposeField::Attachments,
        };
    }

    /// The draft to send: the four fields' text and the body's lines
    /// joined with newlines.
    pub fn to_draft(&self) -> (r: Draft)
        ensures
            r.to@ == self.to.value@,
            r.cc@ == self.cc.value@,
            r.bcc@ == self.bcc.value@,
            r.subject@ == self.subject.value@,
            r.body@ == join_lines(self.body.view_lines()),
    {
        Draft {
            to: self.to.value.clone(),
            cc: self.cc.value.clone(),
            bcc: self.bcc.value.clone(),
            subject: self.subject.value.clone(),
            body: self.body.text(),
        }
    }

    /// A reply to `source`, prefilled from its envelope: To is the first
    /// sender's email (empty without one), the subject gets a `"Re: "`
    /// prefix unless it already starts with "re:" in any case, and focus
    /// goes to the body.
    pub fn reply(source: &Envelope) -> (r: Self)
        ensures
            r.to.value@ == (if source.from@.len() > 0 {
                source.from@[0].email@
            } else {
                Seq::<char>::empty()
            }),
            r.to.cursor == r.to.value@.len(),
            r.subject.value@ == (if has_prefix(lowercase(source.subject@), "re:"@) {
                source.subject@
            } else {
                "Re: "@ + source.subject@
            }),
            r.subject.cursor == r.subject.value@.len(),
            r.focus == ComposeField::Body,
            input_is_empty(r.cc) && input_is_empty(r.bcc),
            r.body.view_lines() == seq![Seq::<char>::empty()],
            r.body.lines@.len() == 1,
            r.body.cursor_row == 0 && r.body.cursor_col == 0,
            r.attachments@.len() == 0,
            r.attachment_selected == 0,
            r.attach_prompt is None,
            !r.sending,
            r.error is None,
            r.suggestions.items@.len() == 0,
            r.misspelled_by_line@.len() == 0,
    {
        let to = if source.from.len() > 0 {
            source.from[0].email.clone()
        } else {
            String::new()
        };
        let lowered = to_lowercase(source.subject.as_str());
        let subject = if str_starts_with(lowered.as_str(), "re:") {
            source.subject.clone()
        } else {
            let mut s = String::from_str("Re: ");
            s.append(source.subject.as_str());
            s
        };
        let mut r = Self::blank();
        r.to = TextInput::with_value(to.as_str());
        r.subject = TextInput::with_value(subject.as_str());
        r.focus = ComposeField::Body;
        r
    }

    /// The address field with focus, if the focus is on To, Cc or Bcc.
    pub open spec fn recipient_field(self) -> Option<TextInput> {
        match self.focus {
            ComposeField::To => Some(self.to),
            ComposeField::Cc => Some(self.cc),
            ComposeField::Bcc => Some(self.bcc),
            _ => None,
        }
    }

    /// `self` with the focused address field replaced by `t`.
    pub open spec fn with_recipient_field(self, t: TextInput) -> ComposeState {
        match self.focus {
            ComposeField::To => ComposeState { to: t, ..self },
            ComposeField::Cc => ComposeState { cc: t, ..self },
            ComposeField::Bcc => ComposeState { bcc: t, ..self },
            _ => self,
        }
    }

    /// Recomputes the recipient suggestions for the fragment being typed
    /// in the focused address field (the text after its last comma,
    /// trimmed): the best matches among `known` (see `best_matches`),
    /// highlighting the first. Nothing is suggested for a blank fragment
    /// or outside the address fields.
    pub fn refresh_suggestions(&mut self, known: &Vec<Address>)
        ensures
            final(self).suggestions.selected == 0,
            addrs_view(final(self).suggestions.items@) == suggestions_for(*old(self), known@),
            *final(self) == (ComposeState { suggestions: final(self).suggestions, ..*old(self) }),
    {
        let value: Option<&String> = match self.focus {
            ComposeField::To => Some(&self.to.value),
            ComposeField::Cc => Some(&self.cc.value),
            ComposeField::Bcc => Some(&self.bcc.value),
            _ => None,
        };
        let items = match value {
            Some(v) => {
                let frag = fragment_of(v.as_str());
                if frag.unicode_len() == 0 {
                    Vec::new()
                } else {
                    best_matches(frag.as_str(), known, SUGGESTION_LIMIT)
                }
            },
            None => Vec::new(),
        };
        self.suggestions = Suggestions { items, selected: 0 };
    }

    /// Puts the highlighted suggestion's email in place of the fragment
    /// being typed in the focused address field (after its last comma,
    /// separated by a space) with the cursor at the end, and dismisses
    /// the dropdown. Without a highlighted suggestion only the dropdown
    /// goes.
    pub fn accept_suggestion(&mut self)
        ensures
            accepted(*old(self), *final(self)),
    {
        let sel = self.suggestions.selected;
        if sel < self.suggestions.items.len() {
            let email = self.suggestions.items[sel].email.clone();
            match self.focus {
                ComposeField::To => {
                    let v = replace_fragment(self.to.value.as_str(), email.as_str());
                    self.to = TextInput::with_value(v.as_str());
                },
                ComposeField::Cc => {
                    let v = replace_fragment(self.cc.value.as_str(), email.as_str());
                    self.cc = TextInput::with_value(v.as_str());
                },
                ComposeField::Bcc => {
                    let v = replace_fragment(self.bcc.value.as_str(), email.as_str());
                    self.bcc = TextInput::with_value(v.as_str());
                },
                _ => {},
            }
        }
        self.suggestions.clear();
    }

    /// Records the misspelled word keys of body line `line`, growing the
    /// per-line list with empty entries when it is shorter (a result can
    /// arrive for a line the list has not caught up with).
    pub fn set_line_misspellings(&mut self, line: usize, words: Vec<String>)
        requires
            line < usize::MAX,
        ensures
            ({
                let old_v = keys_by_line(old(self).misspelled_by_line@);
                keys_by_line(final(self).misspelled_by_line@) == (if line < old_v.len() {
                    old_v.update(line as int, strings_view(words@))
                } else {
                    old_v + Seq::new((line - old_v.len()) as nat, |i: int| Seq::<Seq<char>>::empty()).push(strings_view(words@))
                })
            }),
            *final(self) == (ComposeState { misspelled_by_line: final(self).misspelled_by_line, ..*old(self) }),
    {
        let ghost old_v = keys_by_line(self.misspelled_by_line@);
        let mut v: Vec<Vec<String>> = Vec::new();
        std::mem::swap(&mut v, &mut self.misspelled_by_line);
        while v.len() <= line
            invariant
                old_v.len() <= v@.len(),
                v@.len() > old_v.len() ==> v@.len() <= line + 1,
                keys_by_line(v@).take(old_v.len() as int) == old_v,
                forall|i: int| old_v.len() <= i < v@.len() ==> v@[i]@.len() == 0,
            decreases line + 1 - v@.len(),
        {
            v.push(Vec::new());
            assert(keys_by_line(v@).take(old_v.len() as int) =~= old_v);
        }
        let ghost wv = strings_view(words@);
        v.set(line, words);
        proof {
            if line < old_v.len() {
                assert(keys_by_line(v@) =~= old_v.update(line as int, wv));
            } else {
                let want = old_v + Seq::new((line - old_v.len()) as nat, |i: int| Seq::<Seq<char>>::empty()).push(wv);
                assert(v@.len() == line + 1);
                assert forall|i: int| 0 <= i < v@.len() implies keys_by_line(v@)[i] == want[i] by {
                    if i < old_v.len() {
                        assert(keys_by_line(v@).take(old_v.len() as int)[i] == old_v[i]);
                    } else if i < line {
                        assert(strings_view(v@[i]@) =~= Seq::<Seq<char>>::empty());
                    }
                }
                assert(keys_by_line(v@) =~= want);
            }
        }
        self.misspelled_by_line = v;
    }

    /// Replaces the misspelled words of every body line at once.
    pub fn set_all_misspellings(&mut self, by_line: Vec<Vec<String>>)
        ensures
            *final(self) == (ComposeState { misspelled_by_line: by_line, ..*old(self) }),
    {
        self.misspelled_by_line = by_line;
    }

    /// The combined size of the attached files, in bytes (saturating at
    /// `u64::MAX`).
    pub fn attachments_total_bytes(&self) -> (r: u64)
        ensures
            r == (if total_size(self.attachments@) <= u64::MAX {
                total_size(self.attachments@)
            } else {
                u64::MAX as int
            }),
    {
        let mut total: u64 = 0;
        let mut i: usize = 0;
        while i < self.attachments.len()
            invariant
                i <= self.attachments@.len(),
                total == (if total_size(self.attachments@.take(i as int)) <= u64::MAX {
                    total_size(self.attachments@.take(i as int))
                } else {
                    u64::MAX as int
                }),
            decreases self.attachments@.len() - i,
        {
            proof {
                assert(self.attachments@.take(i + 1).drop_last() =~= self.attachments@.take(i as int));
            }
            let size = self.attachments[i].size_bytes;
            total = if total <= u64::MAX - size {
                total + size
            } else {
                u64::MAX
            };
            i += 1;
        }
        proof {
            assert(self.attachments@.take(self.attachments@.len() as int) =~= self.attachments@);
        }
        total
    }

    /// Highlights the previous attachment, stopping at the first.
    pub fn attachment_up(&mut self)
        ensures
            *final(self) == (ComposeState { attachment_selected: (if old(self).attachment_selected > 0 {
                old(self).attachment_selected - 1
            } else {
                0
            }) as usize, ..*old(self) }),
    {
        if self.attachment_selected > 0 {
            self.attachment_selected = self.attachment_selected - 1;
        }
    }

    /// Highlights the next attachment, stopping at the last.
    pub fn attachment_down(&mut self)
        ensures
            *final(self) == (ComposeState { attachment_selected: next_row(old(self).attachment_selected as int, old(self).attachments@.len() as int) as usize, ..*old(self) }),
    {
        if self.attachments.len() > 0 {
            self.attachment_selected = if self.attachment_selected < self.attachments.len() - 1 {
                self.attachment_selected + 1
            } else {
                self.attachments.len() - 1
            };
        }
    }

    /// Removes the selected attachment, keeping the selection on the
    /// same position or, past the new end, on the last one.
    pub fn remove_selected_attachment(&mut self)
        requires
            old(self).attachments@.len() > 0 ==> old(self).attachment_selected < old(
                self,
            ).attachments@.len(),
        ensures
            old(self).attachments@.len() == 0 ==> final(self).attachments == old(self).attachments
                && final(self).attachment_selected == old(self).attachment_selected,
            old(self).attachments@.len() > 0 ==> {
                let n = old(self).attachments@.len() - 1;
                &&& final(self).attachments@ == old(self).attachments@.remove(
                    old(self).attachment_selected as int,
                )
                &&& final(self).attachment_selected == (if old(self).attachment_selected >= n {
                    if n > 0 {
                        n - 1
                    } else {
                        0
                    }
                } else {
                    old(self).attachment_selected as int
                })
            },
            *final(self) == (ComposeState {
                attachments: final(self).attachments,
                attachment_selected: final(self).attachment_selected,
                ..*old(self)
            }),
    {
        if self.attachments.len() == 0 {
            return;
        }
        self.attachments.remove(self.attachment_selected);
        if self.attachment_selected >= self.attachments.len() {
            self.attachment_selected = if self.attachments.len() > 0 {
                self.attachments.len() - 1
            } else {
                0
            };
        }
    }
}


/// Why the directory browser is open.
pub enum BrowserPurpose {
    /// Picking a file to attach to the message being composed.
    AttachToCompose,
    /// Picking where to save a downloaded attachment, with its content.
    SaveAttachment { bytes: Vec<u8> },
}

/// The whole interface state: message list, reading pane, compose view,
/// directory browser, search and status line.
pub struct App {
    pub account_email: String,
    /// Index of the account being shown.
    pub current_account: usize,
    pub list_state: ListState,
    pub envelopes: Vec<Envelope>,
    pub selected: usize,
    pub body: BodyState,
    /// Which attachment of the open message is highlighted.
    pub selected_attachment: usize,
    pub compose: Option<ComposeState>,
    /// The directory browser, while it is open.
    pub file_browser: Option<(FileBrowser, BrowserPurpose)>,
    /// The UID awaiting a delete confirmation.
    pub confirm_delete: Option<u32>,
    /// A first `g` was pressed and a second one would jump to the top.
    pub pending_g: bool,
    /// Older mail may still exist on the server.
    pub has_more_older: bool,
    /// A fetch of older mail is under way.
    pub loading_more: bool,
    /// Everyone mail was received from, for recipient suggestions.
    pub known_senders: Vec<Address>,
    pub status_message: Option<String>,
    /// `Some` whenever a filter is showing; an empty query filters nothing.
    pub search: Option<TextInput>,
    pub search_editing: bool,
    pub should_quit: bool,
}

/// How many rows Ctrl-d and Ctrl-u move the selection.
pub const PAGE_STEP: usize = 10;

/// How long a status message stays on the status line, in milliseconds.
pub const STATUS_TTL_MS: u64 = 5000;

/// How often the screen is redrawn with nothing else happening, in
/// milliseconds, so a resize the terminal never reported still gets
/// picked up.
pub const IDLE_REDRAW_MS: u64 = 500;

/// The last row of a list of `len` rows (the first when it is empty).
pub open spec fn last_row(len: int) -> int {
    if len > 0 {
        len - 1
    } else {
        0
    }
}

/// A page below `selected`, stopping at the last row; unchanged in an
/// empty list.
pub open spec fn page_down_row(selected: int, len: int) -> int {
    if len == 0 {
        selected
    } else if selected + PAGE_STEP < len {
        selected + PAGE_STEP
    } else {
        len - 1
    }
}

/// A page above `selected`, stopping at the first row.
pub open spec fn page_up_row(selected: int) -> int {
    if selected >= PAGE_STEP {
        selected - PAGE_STEP
    } else {
        0
    }
}

/// The number of rows the list shows.
pub open spec fn visible_len(a: App) -> int {
    visible_of(a.envelopes@, a.search).len() as int
}

/// The selection is on the last shown row.
pub open spec fn at_end_of_list(a: App) -> bool {
    visible_len(a) > 0 && a.selected + 1 >= visible_len(a)
}

/// `envs` without the envelopes carrying `uid`, order kept.
pub open spec fn without_uid(envs: Seq<Envelope>, uid: u32) -> Seq<Envelope>
    decreases envs.len(),
{
    if envs.len() == 0 {
        envs
    } else {
        let r = without_uid(envs.drop_last(), uid);
        if envs.last().uid == uid {
            r
        } else {
            r.push(envs.last())
        }
    }
}

/// The row below `selected` in a list of `len` rows, staying on the last
/// row; unchanged in an empty list.
pub open spec fn next_row(selected: int, len: int) -> int {
    if len == 0 {
        selected
    } else if selected + 1 < len {
        selected + 1
    } else {
        len - 1
    }
}

/// The name of an address, or the empty text without one.
pub open spec fn name_or_empty(a: Address) -> Seq<char> {
    match a.name {
        Some(n) => n@,
        None => Seq::empty(),
    }
}

/// Whether an envelope matches a (lower-cased) search needle: its
/// subject, or some sender's email or name, contains it, compared in
/// lower case.
pub open spec fn envelope_matches(e: Envelope, needle: Seq<char>) -> bool {
    ||| contains_seq(lowercase(e.subject@), needle)
    ||| exists|k: int|
        0 <= k < e.from@.len() && (contains_seq(lowercase(#[trigger] e.from@[k].email@), needle)
            || contains_seq(lowercase(name_or_empty(e.from@[k])), needle))
}

/// The indices below `n` of the envelopes matching `needle`, in order.
pub open spec fn matching_indices(envs: Seq<Envelope>, needle: Seq<char>, n: int) -> Seq<usize>
    decreases n,
{
    if n <= 0 {
        Seq::empty()
    } else {
        let rest = matching_indices(envs, needle, n - 1);
        if envelope_matches(envs[n - 1], needle) {
            rest.push((n - 1) as usize)
        } else {
            rest
        }
    }
}

/// `0, 1, ..., n - 1`.
pub open spec fn all_indices(n: int) -> Seq<usize> {
    Seq::new(n as nat, |i: int| i as usize)
}

/// The indices of the envelopes shown: those matching the search query
/// (lower-cased) when a non-blank query is set, otherwise all of them.
pub open spec fn visible_of(envs: Seq<Envelope>, search: Option<TextInput>) -> Seq<usize> {
    match search {
        Some(q) if !all_ws(q.value@) => matching_indices(envs, lowercase(q.value@), envs.len() as int),
        _ => all_indices(envs.len() as int),
    }
}

fn address_matches(a: &Address, needle: &str) -> (r: bool)
    ensures
        r == (contains_seq(lowercase(a.email@), needle@) || contains_seq(
            lowercase(name_or_empty(*a)),
            needle@,
        )),
{
    let email = to_lowercase(a.email.as_str());
    if str_contains(email.as_str(), needle) {
        return true;
    }
    let name = match &a.name {
        Some(n) => to_lowercase(n.as_str()),
        None => to_lowercase(""),
    };
    proof {
        reveal_strlit("");
        if a.name is None {
            assert(name_or_empty(*a) =~= ""@);
        }
    }
    str_contains(name.as_str(), needle)
}

fn envelope_matches_exec(e: &Envelope, needle: &str) -> (r: bool)
    ensures
        r == envelope_matches(*e, needle@),
{
    let subject = to_lowercase(e.subject.as_str());
    if str_contains(subject.as_str(), needle) {
        return true;
    }
    let mut k: usize = 0;
    while k < e.from.len()
        invariant
            k <= e.from@.len(),
            forall|m: int|
                0 <= m < k ==> !(contains_seq(lowercase(#[trigger] e.from@[m].email@), needle@)
                    || contains_seq(lowercase(name_or_empty(e.from@[m])), needle@)),
        decreases e.from@.len() - k,
    {
        if address_matches(&e.from[k], needle) {
            return true;
        }
        k += 1;
    }
    false
}

impl App {
    /// An empty list view for the account `account_email`.
    pub fn new(account_email: String) -> (r: Self)
        ensures
            r.account_email == account_email,
            r.current_account == 0,
            r.list_state is Loading,
            r.envelopes@.len() == 0,
            r.selected == 0,
            r.body is Empty,
            r.selected_attachment == 0,
            r.compose is None,
            r.file_browser is None,
            r.confirm_delete is None,
            !r.pending_g,
            r.has_more_older,
            !r.loading_more,
            r.known_senders@.len() == 0,
            r.status_message is None,
            r.search is None,
            !r.search_editing,
            !r.should_quit,
    {
        App {
            account_email,
            current_account: 0,
            list_state: ListState::Loading,
            envelopes: Vec::new(),
            selected: 0,
            body: BodyState::Empty,
            selected_attachment: 0,
            compose: None,
            file_browser: None,
            confirm_delete: None,
            pending_g: false,
            has_more_older: true,
            loading_more: false,
            known_senders: Vec::new(),
            status_message: None,
            search: None,
            search_editing: false,
            should_quit: false,
        }
    }

    /// Indices into `envelopes` of what the list shows, in display order
    /// (see `visible_of`).
    pub fn visible_indices(&self) -> (r: Vec<usize>)
        ensures
            r@ == visible_of(self.envelopes@, self.search),
    {
        let n = self.envelopes.len();
        let filtering = match &self.search {
            Some(q) => has_non_ws(q.value.as_str()),
            None => false,
        };
        let mut out: Vec<usize> = Vec::new();
        if filtering {
            let q = match &self.search {
                Some(q) => q,
                None => {
                    return out;
                },
            };
            let needle = to_lowercase(q.value.as_str());
            let mut i: usize = 0;
            while i < n
                invariant
                    n == self.envelopes@.len(),
                    i <= n,
                    out@ == matching_indices(self.envelopes@, needle@, i as int),
                decreases n - i,
            {
                if envelope_matches_exec(&self.envelopes[i], needle.as_str()) {
                    out.push(i);
                }
                i += 1;
            }
        } else {
            let mut i: usize = 0;
            while i < n
                invariant
                    n == self.envelopes@.len(),
                    i <= n,
                    out@ == all_indices(i as int),
                decreases n - i,
            {
                out.push(i);
                i += 1;
                assert(out@ =~= all_indices(i as int));
            }
        }
        out
    }

    /// Moves the selection one row down, stopping at the last visible row.
    pub fn select_next(&mut self)
        ensures
            *final(self) == (App { selected: next_row(old(self).selected as int, visible_of(old(self).envelopes@, old(self).search).len() as int) as usize, ..*old(self) }),
    {
        let visible = self.visible_indices();
        if visible.len() == 0 {
            return;
        }
        self.selected = if self.selected < visible.len() - 1 {
            self.selected + 1
        } else {
            visible.len() - 1
        };
    }

    /// Moves the selection one row up, stopping at the top.
    pub fn select_prev(&mut self)
        ensures
            *final(self) == (App { selected: (if old(self).selected > 0 { old(self).selected - 1 } else { 0 }) as usize, ..*old(self) }),
    {
        if self.selected > 0 {
            self.selected = self.selected - 1;
        }
    }

    /// The envelope under the selection, if the selection is on a
    /// visible row.
    pub fn selected_envelope(&self) -> (r: Option<&Envelope>)
        ensures
            ({
                let v = visible_of(self.envelopes@, self.search);
                &&& self.selected < v.len() ==> r == Some(&self.envelopes@[v[self.selected as int] as int])
                &&& self.selected >= v.len() ==> r is None
            }),
    {
        let visible = self.visible_indices();
        if self.selected < visible.len() {
            let i = visible[self.selected];
            proof {
                assert(self.envelopes@.len() == self.envelopes.len());
                lemma_visible_in_range(self.envelopes@, self.search, self.selected as int);
            }
            Some(&self.envelopes[i])
        } else {
            None
        }
    }

    /// The UID of the selected envelope, if any.
    pub fn selected_uid(&self) -> (r: Option<u32>)
        ensures
            ({
                let v = visible_of(self.envelopes@, self.search);
                &&& self.selected < v.len() ==> r == Some(self.envelopes@[v[self.selected as int] as int].uid)
                &&& self.selected >= v.len() ==> r is None
            }),
    {
        match self.selected_envelope() {
            Some(e) => Some(e.uid),
            None => None,
        }
    }

    /// Opens an empty search field for editing, selecting the first row.
    pub fn start_search(&mut self)
        ensures
            final(self).search matches Some(q) && input_is_empty(q),
            *final(self) == (App { search: final(self).search, search_editing: true, selected: 0, ..*old(self) }),
    {
        self.search = Some(TextInput::default());
        self.search_editing = true;
        self.selected = 0;
    }

    /// Removes the search filter, selecting the first row.
    pub fn clear_search(&mut self)
        ensures
            *final(self) == (App { search: None, search_editing: false, selected: 0, ..*old(self) }),
    {
        self.search = None;
        self.search_editing = false;
        self.selected = 0;
    }

    /// Shows `message` on the status line.
    pub fn set_status(&mut self, message: String)
        ensures
            *final(self) == (App { status_message: Some(message), ..*old(self) }),
    {
        self.status_message = Some(message);
    }

    /// Clears a status message once it has been showing for
    /// `STATUS_TTL_MS` milliseconds (`shown_ms` is how long the current
    /// one has been showing), and says how many milliseconds until the
    /// screen should next be redrawn: at most `IDLE_REDRAW_MS`, and no later
    /// than the message is due to clear.
    pub fn expire_status(&mut self, shown_ms: u64) -> (r: u64)
        ensures
            old(self).status_message is None ==> *final(self) == *old(self) && r == IDLE_REDRAW_MS,
            old(self).status_message is Some && shown_ms >= STATUS_TTL_MS ==> *final(self) == (App {
                status_message: None,
                ..*old(self)
            }) && r == IDLE_REDRAW_MS,
            old(self).status_message is Some && shown_ms < STATUS_TTL_MS ==> *final(self) == *old(self)
                && r == (if STATUS_TTL_MS - shown_ms < IDLE_REDRAW_MS {
                STATUS_TTL_MS - shown_ms
            } else {
                IDLE_REDRAW_MS as int
            }),
    {
        if self.status_message.is_none() {
            return IDLE_REDRAW_MS;
        }
        if shown_ms >= STATUS_TTL_MS {
            self.status_message = None;
            return IDLE_REDRAW_MS;
        }
        let left = STATUS_TTL_MS - shown_ms;
        if left < IDLE_REDRAW_MS {
            left
        } else {
            IDLE_REDRAW_MS
        }
    }

    /// Selects the first row.
    pub fn select_top(&mut self)
        ensures
            *final(self) == (App { selected: 0, ..*old(self) }),
    {
        self.selected = 0;
    }

    /// Selects the last shown row.
    pub fn select_bottom(&mut self)
        ensures
            *final(self) == (App { selected: last_row(visible_len(*old(self))) as usize, ..*old(self) }),
    {
        let visible = self.visible_indices();
        self.selected = if visible.len() > 0 {
            visible.len() - 1
        } else {
            0
        };
    }

    /// Moves the selection a page down (see `page_down_row`).
    pub fn select_page_down(&mut self)
        ensures
            *final(self) == (App { selected: page_down_row(old(self).selected as int, visible_len(*old(self))) as usize, ..*old(self) }),
    {
        let visible = self.visible_indices();
        if visible.len() == 0 {
            return;
        }
        let last = visible.len() - 1;
        self.selected = if self.selected < last && last - self.selected >= PAGE_STEP {
            self.selected + PAGE_STEP
        } else {
            last
        };
    }

    /// Moves the selection a page up (see `page_up_row`).
    pub fn select_page_up(&mut self)
        ensures
            *final(self) == (App { selected: page_up_row(old(self).selected as int) as usize, ..*old(self) }),
    {
        self.selected = if self.selected >= PAGE_STEP {
            self.selected - PAGE_STEP
        } else {
            0
        };
    }

    /// Whether the selection is on the last shown row.
    pub fn is_at_end_of_list(&self) -> (r: bool)
        ensures
            r == at_end_of_list(*self),
    {
        let visible = self.visible_indices();
        visible.len() > 0 && self.selected >= visible.len() - 1
    }

    /// Drops the envelopes carrying `uid` from the list, keeping the
    /// selection within the rows still shown.
    pub fn remove_envelope(&mut self, uid: u32)
        ensures
            final(self).envelopes@ == without_uid(old(self).envelopes@, uid),
            ({
                let n = visible_of(without_uid(old(self).envelopes@, uid), old(self).search).len() as int;
                *final(self) == (App {
                    envelopes: final(self).envelopes,
                    selected: (if old(self).selected < n {
                        old(self).selected as int
                    } else {
                        last_row(n)
                    }) as usize,
                    ..*old(self)
                })
            }),
    {
        let mut all: Vec<Envelope> = Vec::new();
        std::mem::swap(&mut all, &mut self.envelopes);
        let ghost orig = all@;
        let n0 = all.len();
        assert(orig.len() == n0);
        let mut kept: Vec<Envelope> = Vec::new();
        let mut i: usize = 0;
        while all.len() > 0
            invariant
                orig.len() <= usize::MAX,
                i + all@.len() == orig.len(),
                all@ == orig.skip(i as int),
                kept@ == without_uid(orig.take(i as int), uid),
            decreases all@.len(),
        {
            let x = all.remove(0);
            proof {
                assert(orig.take(i + 1).drop_last() =~= orig.take(i as int));
                assert(orig.take(i + 1).last() == x);
            }
            if x.uid != uid {
                kept.push(x);
            }
            i += 1;
            proof {
                assert(all@ =~= orig.skip(i as int));
            }
        }
        proof {
            assert(orig.take(orig.len() as int) =~= orig);
        }
        self.envelopes = kept;
        let visible = self.visible_indices();
        if self.selected >= visible.len() {
            self.selected = if visible.len() > 0 {
                visible.len() - 1
            } else {
                0
            };
        }
    }

    /// Forgets everything that belonged to the previously shown account:
    /// its list, selection, open message, search, pending confirmation
    /// and sender book; the list waits for the new account's mail.
    pub fn reset_for_account_switch(&mut self)
        ensures
            final(self).envelopes@.len() == 0,
            final(self).known_senders@.len() == 0,
            *final(self) == (App {
                list_state: ListState::Loading,
                envelopes: final(self).envelopes,
                selected: 0,
                body: BodyState::Empty,
                selected_attachment: 0,
                confirm_delete: None,
                pending_g: false,
                has_more_older: true,
                loading_more: false,
                known_senders: final(self).known_senders,
                search: None,
                search_editing: false,
                ..*old(self)
            }),
    {
        self.list_state = ListState::Loading;
        self.envelopes = Vec::new();
        self.selected = 0;
        self.body = BodyState::Empty;
        self.selected_attachment = 0;
        self.confirm_delete = None;
        self.pending_g = false;
        self.has_more_older = true;
        self.loading_more = false;
        self.known_senders = Vec::new();
        self.search = None;
        self.search_editing = false;
    }
}

/// Every index `matching_indices` yields is below `n`.
pub proof fn lemma_matching_in_range(envs: Seq<Envelope>, needle: Seq<char>, n: int)
    requires
        n <= usize::MAX,
    ensures
        forall|k: int|
            0 <= k < matching_indices(envs, needle, n).len() ==> #[trigger] matching_indices(
                envs,
                needle,
                n,
            )[k] < n,
    decreases n,
{
    if n > 0 {
        lemma_matching_in_range(envs, needle, n - 1);
        let rest = matching_indices(envs, needle, n - 1);
        assert forall|k: int|
            0 <= k < matching_indices(envs, needle, n).len() implies #[trigger] matching_indices(
                envs,
                needle,
                n,
            )[k] < n by {
            if k < rest.len() {
                assert(matching_indices(envs, needle, n)[k] == rest[k]);
            }
        }
    }
}

/// Every visible index names an envelope.
pub proof fn lemma_visible_in_range(envs: Seq<Envelope>, search: Option<TextInput>, k: int)
    requires
        envs.len() <= usize::MAX,
        0 <= k < visible_of(envs, search).len(),
    ensures
        visible_of(envs, search)[k] < envs.len(),
{
    match search {
        Some(q) if !all_ws(q.value@) => {
            lemma_matching_in_range(envs, lowercase(q.value@), envs.len() as int);
        },
        _ => {},
    }
}

} // verus!
