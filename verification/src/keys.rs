//! How a key press changes the interface, and which outside work it asks
//! for. The caller reads keys, performs the returned `Effect` (network,
//! disk, spellchecker) and hands results back through `App`'s methods.

use vstd::prelude::*;

use crate::app::{
    App, BodyState, BrowserPurpose, ComposeField, ComposeState, ListState, Suggestions, accepted,
    at_end_of_list, field_after, field_before, input_is_empty, keys_by_line, last_row, next_row,
    page_down_row, page_up_row, suggestions_for, total_size, visible_len, visible_of,
    lemma_total_size_remove,
};
use crate::filebrowser::{
    Activation, FileBrowser, file_name_of, path_file_name, path_parent, save_target,
};
use crate::config::path_join;
use crate::fuzzy::addrs_view;
use crate::attach::{AttachmentEntry, MAX_ATTACHMENTS_BYTES};
use crate::editable::{TextArea, TextInput, clamp, join_lines};
use crate::smtp::Draft;
use crate::text::{has_prefix, insert_at, lowercase, remove_at, trim, trimmed};
use crate::types::Envelope;

verus! {

/// A key as the interface sees it.
#[derive(Debug, Clone, Copy, PartialEq, Eq, Structural)]
pub enum Key {
    Char(char),
    Enter,
    Esc,
    Tab,
    BackTab,
    Backspace,
    Left,
    Right,
    Up,
    Down,
    Other,
}

/// What key handling reads of the session around the interface: how many
/// accounts there are, which one is shown, and whether a spellchecker is
/// running.
#[derive(Debug, Clone, Copy, PartialEq, Eq, Structural)]
pub struct Session {
    pub accounts: usize,
    pub current: usize,
    pub spellcheck: bool,
}

/// Outside work a key press asks for.
#[derive(Debug)]
pub enum Effect {
    Nothing,
    /// Sync the shown account with its server.
    Sync,
    /// Load the body of this message.
    FetchBody(u32),
    /// Fetch mail older than what is cached.
    FetchOlder,
    /// Delete this message on the server and from the cache.
    DeleteMessage(u32),
    /// Restart the spellchecker for the current keyboard language.
    ReloadSpellchecker,
    /// Offer to save an attachment: open a save-location browser.
    SaveAttachmentAs { filename: String, bytes: Vec<u8> },
    /// The attachment's content was not loaded (too large to hold).
    AttachmentTooLarge { filename: String, size_bytes: u64 },
    /// Make the shown account the one opened by default.
    SetDefaultAccount,
    /// Show this account: load its cached mail and sync it.
    SwitchAccount(usize),
    /// Search the server for this query.
    SearchServer(String),
    /// Send this draft with these attachments.
    Send { draft: Draft, attachments: Vec<AttachmentEntry> },
    /// Open a browser to pick a file to attach.
    BrowseForAttachment,
    /// Recheck one body line.
    CheckLine { index: usize, text: String },
    /// Recheck the whole body.
    CheckBody(String),
    /// The browser moved to another directory: list it and hand the
    /// listing to `FileBrowser::reload`.
    ListDirectory,
    /// Check this file and hand the result to `App::attach_checked`.
    ValidateAttachment(String),
    /// Write these bytes to this path and hand the result to
    /// `App::save_finished`.
    WriteFile { path: String, bytes: Vec<u8> },
}

/// One edit applied to whichever field has focus.
#[derive(Debug, Clone, Copy, PartialEq, Eq, Structural)]
pub enum EditOp {
    Insert(char),
    Backspace,
    Left,
    Right,
}

/// A single-line field is consistent: its cursor lies within its text.
pub open spec fn input_ok(t: TextInput) -> bool {
    t.cursor <= t.value@.len()
}

/// A single-line field can take one more character.
pub open spec fn input_room(t: TextInput) -> bool {
    t.value@.len() < usize::MAX
}

/// The body is consistent: its cursor is on a line, within it.
pub open spec fn area_ok(a: TextArea) -> bool {
    a.row_ok() && a.cursor_col <= a.current().len()
}

/// The body can take one more line and each line one more character.
pub open spec fn area_room(a: TextArea) -> bool {
    &&& a.lines@.len() < usize::MAX
    &&& forall|i: int| 0 <= i < a.lines@.len() ==> (#[trigger] a.lines@[i])@.len() < usize::MAX
}

/// The compose view is consistent: every cursor within its text, the
/// attachment selection on an attachment when there is one, and the
/// attachments within the 20MB cap.
pub open spec fn compose_ok(c: ComposeState) -> bool {
    &&& input_ok(c.to)
    &&& input_ok(c.cc)
    &&& input_ok(c.bcc)
    &&& input_ok(c.subject)
    &&& area_ok(c.body)
    &&& c.attachments@.len() > 0 ==> c.attachment_selected < c.attachments@.len()
    &&& total_size(c.attachments@) <= MAX_ATTACHMENTS_BYTES
}

/// Every field of the compose view has room for one more character.
pub open spec fn compose_room(c: ComposeState) -> bool {
    &&& input_room(c.to)
    &&& input_room(c.cc)
    &&& input_room(c.bcc)
    &&& input_room(c.subject)
    &&& area_room(c.body)
}

/// The interface state is consistent (see `input_ok`, `compose_ok`).
pub open spec fn app_ok(a: App) -> bool {
    &&& a.search matches Some(t) ==> input_ok(t)
    &&& a.compose matches Some(c) ==> compose_ok(c)
    &&& a.file_browser matches Some(fb) ==> (fb.0.filename matches Some(f) ==> input_ok(f))
}

/// Every text field has room for one more character.
pub open spec fn app_room(a: App) -> bool {
    &&& a.search matches Some(t) ==> input_room(t)
    &&& a.compose matches Some(c) ==> compose_room(c)
    &&& a.file_browser matches Some(fb) ==> (fb.0.filename matches Some(f) ==> input_room(f))
}

/// `u` is `t` after `op`.
pub open spec fn input_after(t: TextInput, op: EditOp, u: TextInput) -> bool {
    match op {
        EditOp::Insert(c) => u.value@ == insert_at(
            t.value@,
            clamp(t.cursor as int, t.value@.len() as int),
            c,
        ) && u.cursor == t.cursor + 1,
        EditOp::Backspace => if t.cursor == 0 {
            u == t
        } else {
            u.cursor == t.cursor - 1 && u.value@ == remove_at(t.value@, t.cursor - 1)
        },
        EditOp::Left => u.value == t.value && u.cursor == (if t.cursor > 0 {
            t.cursor - 1
        } else {
            0
        }),
        EditOp::Right => u.value == t.value && u.cursor == clamp(
            t.cursor + 1,
            t.value@.len() as int,
        ),
    }
}

/// `b` is the body `a` after `op` (see `TextArea`'s methods).
pub open spec fn area_after(a: TextArea, op: EditOp, b: TextArea) -> bool {
    let row = a.cursor_row as int;
    let col = a.cursor_col as int;
    match op {
        EditOp::Insert(c) => b.view_lines() == a.view_lines().update(
            row,
            insert_at(a.current(), clamp(col, a.current().len() as int), c),
        ) && b.cursor_row == a.cursor_row && b.cursor_col == col + 1,
        EditOp::Backspace => if col > 0 {
            b.view_lines() == a.view_lines().update(row, remove_at(a.current(), col - 1))
                && b.cursor_row == a.cursor_row && b.cursor_col == col - 1
        } else if row > 0 {
            b.view_lines() == a.view_lines().update(row - 1, a.view_lines()[row - 1] + a.current()).remove(row)
                && b.cursor_row == row - 1 && b.cursor_col == a.view_lines()[row - 1].len()
        } else {
            b == a
        },
        EditOp::Left => b.lines == a.lines && if col > 0 {
            b.cursor_row == a.cursor_row && b.cursor_col == col - 1
        } else if row > 0 {
            b.cursor_row == row - 1 && b.cursor_col == a.view_lines()[row - 1].len()
        } else {
            b == a
        },
        EditOp::Right => b.lines == a.lines && if col < a.current().len() {
            b.cursor_row == a.cursor_row && b.cursor_col == col + 1
        } else if row + 1 < a.lines@.len() {
            b.cursor_row == row + 1 && b.cursor_col == 0
        } else {
            b == a
        },
    }
}

/// `d` is `c` after `op` is applied to the focused field: To, Cc, Bcc and
/// Subject take it as a single-line edit, the body as a multi-line one,
/// and the attachment list ignores it.
pub open spec fn edited(c: ComposeState, op: EditOp, d: ComposeState) -> bool {
    match c.focus {
        ComposeField::To => input_after(c.to, op, d.to) && d == (ComposeState { to: d.to, ..c }),
        ComposeField::Cc => input_after(c.cc, op, d.cc) && d == (ComposeState { cc: d.cc, ..c }),
        ComposeField::Bcc => input_after(c.bcc, op, d.bcc) && d == (ComposeState { bcc: d.bcc, ..c }),
        ComposeField::Subject => input_after(c.subject, op, d.subject) && d == (ComposeState {
            subject: d.subject,
            ..c
        }),
        ComposeField::Attachments => d == c,
        ComposeField::Body => area_after(c.body, op, d.body) && d == (ComposeState {
            body: d.body,
            ..c
        }),
    }
}

/// Applies `op` to a single-line field.
fn edit_input(t: &mut TextInput, op: EditOp)
    requires
        input_ok(*old(t)),
        input_room(*old(t)),
    ensures
        input_after(*old(t), op, *final(t)),
        input_ok(*final(t)),
{
    match op {
        EditOp::Insert(c) => t.insert(c),
        EditOp::Backspace => t.backspace(),
        EditOp::Left => t.left(),
        EditOp::Right => t.right(),
    }
}

/// Applies `op` to the body.
fn edit_area(a: &mut TextArea, op: EditOp)
    requires
        area_ok(*old(a)),
        area_room(*old(a)),
    ensures
        area_after(*old(a), op, *final(a)),
        area_ok(*final(a)),
{
    proof {
        assert(old(a).lines@[old(a).cursor_row as int]@.len() < usize::MAX);
    }
    match op {
        EditOp::Insert(c) => a.insert(c),
        EditOp::Backspace => a.backspace(),
        EditOp::Left => a.left(),
        EditOp::Right => a.right(),
    }
    proof {
        let o = *old(a);
        let row = o.cursor_row as int;
        assert(a.view_lines().len() == a.lines@.len());
        match op {
            EditOp::Insert(c) => {
                let k = clamp(o.cursor_col as int, o.current().len() as int);
                assert(a.view_lines()[row] == insert_at(o.current(), k, c));
                assert(a.lines@[row]@ == a.view_lines()[row]);
            },
            EditOp::Backspace => {
                if o.cursor_col > 0 {
                    assert(a.view_lines()[row] == remove_at(o.current(), o.cursor_col - 1));
                    assert(a.lines@[row]@ == a.view_lines()[row]);
                } else if o.cursor_row > 0 {
                    let joined = o.view_lines()[row - 1] + o.current();
                    assert(a.view_lines()[row - 1] == o.view_lines().update(row - 1, joined)[row - 1]);
                    assert(a.lines@[row - 1]@ == a.view_lines()[row - 1]);
                }
            },
            EditOp::Left => {
                if o.cursor_col == 0 && o.cursor_row > 0 {
                    assert(a.lines@[row - 1]@ == o.view_lines()[row - 1]);
                }
            },
            EditOp::Right => {},
        }
    }
}

/// Applies `op` to whichever field has focus (see `edited`).
pub fn edit_field(compose: &mut ComposeState, op: EditOp)
    requires
        compose_ok(*old(compose)),
        compose_room(*old(compose)),
    ensures
        edited(*old(compose), op, *final(compose)),
        compose_ok(*final(compose)),
{
    match compose.focus {
        ComposeField::To => edit_input(&mut compose.to, op),
        ComposeField::Cc => edit_input(&mut compose.cc, op),
        ComposeField::Bcc => edit_input(&mut compose.bcc, op),
        ComposeField::Subject => edit_input(&mut compose.subject, op),
        ComposeField::Attachments => {},
        ComposeField::Body => edit_area(&mut compose.body, op),
    }
}

/// `b` is the body `a` after moving up a line (see `TextArea::up`).
pub open spec fn area_up(a: TextArea, b: TextArea) -> bool {
    if a.cursor_row > 0 {
        b.lines == a.lines && b.cursor_row == a.cursor_row - 1 && b.cursor_col == clamp(
            a.cursor_col as int,
            a.view_lines()[a.cursor_row - 1].len() as int,
        )
    } else {
        b == a
    }
}

/// `b` is the body `a` after moving down a line (see `TextArea::down`).
pub open spec fn area_down(a: TextArea, b: TextArea) -> bool {
    if a.cursor_row + 1 < a.lines@.len() {
        b.lines == a.lines && b.cursor_row == a.cursor_row + 1 && b.cursor_col == clamp(
            a.cursor_col as int,
            a.view_lines()[a.cursor_row + 1].len() as int,
        )
    } else {
        b == a
    }
}

/// `b` is the body `a` after splitting the line at the cursor (see
/// `TextArea::newline`).
pub open spec fn area_newline(a: TextArea, b: TextArea) -> bool {
    let k = clamp(a.cursor_col as int, a.current().len() as int);
    let row = a.cursor_row as int;
    &&& b.view_lines() == a.view_lines().update(row, a.current().take(k)).insert(
        row + 1,
        a.current().skip(k),
    )
    &&& b.cursor_row == row + 1
    &&& b.cursor_col == 0
}

/// `d` is `c` after removing the selected attachment (see
/// `ComposeState::remove_selected_attachment`).
pub open spec fn attachment_removed(c: ComposeState, d: ComposeState) -> bool {
    if c.attachments@.len() == 0 {
        d == c
    } else {
        let n = c.attachments@.len() - 1;
        &&& d.attachments@ == c.attachments@.remove(c.attachment_selected as int)
        &&& d.attachment_selected == (if c.attachment_selected >= n {
            if n > 0 {
                n - 1
            } else {
                0
            }
        } else {
            c.attachment_selected as int
        })
        &&& d == (ComposeState {
            attachments: d.attachments,
            attachment_selected: d.attachment_selected,
            ..c
        })
    }
}

/// `d` is `c` after `key` in the compose view, before suggestions are
/// refreshed: Tab and Shift+Tab move between fields, typed characters,
/// Backspace, Left and Right edit the focused field (Backspace on the
/// attachment list removes the selected file), Up and Down move in the
/// body or the attachment list, Enter splits a body line or moves to the
/// next field.
pub open spec fn compose_edit(c: ComposeState, key: Key, d: ComposeState) -> bool {
    match key {
        Key::Tab => d == (ComposeState { focus: field_after(c.focus), ..c }),
        Key::BackTab => d == (ComposeState { focus: field_before(c.focus), ..c }),
        Key::Char(ch) => edited(c, EditOp::Insert(ch), d),
        Key::Backspace => if c.focus == ComposeField::Attachments {
            attachment_removed(c, d)
        } else {
            edited(c, EditOp::Backspace, d)
        },
        Key::Left => edited(c, EditOp::Left, d),
        Key::Right => edited(c, EditOp::Right, d),
        Key::Up => match c.focus {
            ComposeField::Body => area_up(c.body, d.body) && d == (ComposeState { body: d.body, ..c }),
            ComposeField::Attachments => d == (ComposeState {
                attachment_selected: (if c.attachment_selected > 0 {
                    c.attachment_selected - 1
                } else {
                    0
                }) as usize,
                ..c
            }),
            _ => d == c,
        },
        Key::Down => match c.focus {
            ComposeField::Body => area_down(c.body, d.body) && d == (ComposeState { body: d.body, ..c }),
            ComposeField::Attachments => d == (ComposeState {
                attachment_selected: next_row(
                    c.attachment_selected as int,
                    c.attachments@.len() as int,
                ) as usize,
                ..c
            }),
            _ => d == c,
        },
        Key::Enter => match c.focus {
            ComposeField::Body => area_newline(c.body, d.body) && d == (ComposeState {
                body: d.body,
                ..c
            }),
            _ => d == (ComposeState { focus: field_after(c.focus), ..c }),
        },
        _ => d == c,
    }
}

/// Applies a compose-view key to the fields (see `compose_edit`).
fn apply_compose_key(c: &mut ComposeState, key: Key)
    requires
        compose_ok(*old(c)),
        compose_room(*old(c)),
    ensures
        compose_edit(*old(c), key, *final(c)),
        compose_ok(*final(c)),
{
    match key {
        Key::Tab => c.next_field(),
        Key::BackTab => c.prev_field(),
        Key::Char(ch) => edit_field(c, EditOp::Insert(ch)),
        Key::Backspace => {
            if c.focus == ComposeField::Attachments {
                proof {
                    if c.attachments@.len() > 0 {
                        lemma_total_size_remove(c.attachments@, c.attachment_selected as int);
                    }
                }
                c.remove_selected_attachment();
            } else {
                edit_field(c, EditOp::Backspace);
            }
        },
        Key::Left => edit_field(c, EditOp::Left),
        Key::Right => edit_field(c, EditOp::Right),
        Key::Up => match c.focus {
            ComposeField::Body => {
                c.body.up();
                proof {
                    assert(c.body.view_lines().len() == c.body.lines@.len());
                }
            },
            ComposeField::Attachments => c.attachment_up(),
            _ => {},
        },
        Key::Down => match c.focus {
            ComposeField::Body => {
                c.body.down();
                proof {
                    assert(c.body.view_lines().len() == c.body.lines@.len());
                }
            },
            ComposeField::Attachments => c.attachment_down(),
            _ => {},
        },
        Key::Enter => match c.focus {
            ComposeField::Body => {
                c.body.newline();
                proof {
                    assert(c.body.view_lines().len() == c.body.lines@.len());
                    assert(c.body.lines@[c.body.cursor_row as int]@ == c.body.view_lines()[c.body.cursor_row as int]);
                }
            },
            _ => c.next_field(),
        },
        _ => {},
    }
}

/// Whether the recipient dropdown is showing: an address field has focus
/// and there are suggestions.
pub open spec fn showing_suggestions(c: ComposeState) -> bool {
    (c.focus == ComposeField::To || c.focus == ComposeField::Cc || c.focus == ComposeField::Bcc)
        && c.suggestions.items@.len() > 0
}

/// Keys the dropdown takes while it is showing.
pub open spec fn dropdown_key(key: Key) -> bool {
    key == Key::Up || key == Key::Down || key == Key::Enter || key == Key::Tab || key == Key::Esc
}

/// `d` is `c` after a dropdown key: Up and Down move the highlight, Enter
/// and Tab accept it, Esc dismisses the dropdown.
pub open spec fn dropdown_after(c: ComposeState, key: Key, d: ComposeState) -> bool {
    match key {
        Key::Up => d == (ComposeState {
            suggestions: Suggestions {
                selected: (if c.suggestions.selected > 0 {
                    c.suggestions.selected - 1
                } else {
                    0
                }) as usize,
                ..c.suggestions
            },
            ..c
        }),
        Key::Down => d == (ComposeState {
            suggestions: Suggestions {
                selected: next_row(
                    c.suggestions.selected as int,
                    c.suggestions.items@.len() as int,
                ) as usize,
                ..c.suggestions
            },
            ..c
        }),
        Key::Esc => d == (ComposeState { suggestions: d.suggestions, ..c })
            && d.suggestions.items@.len() == 0 && d.suggestions.selected == 0,
        _ => accepted(c, d),
    }
}

/// The draft `d` holds `c`'s fields.
pub open spec fn draft_of(c: ComposeState, d: Draft) -> bool {
    &&& d.to@ == c.to.value@
    &&& d.cc@ == c.cc.value@
    &&& d.bcc@ == c.bcc.value@
    &&& d.subject@ == c.subject.value@
    &&& d.body@ == join_lines(c.body.view_lines())
}

/// The spellcheck request after an edit that left the compose view as
/// `d`: with focus on the body and a spellchecker running, a typed
/// character or a Backspace within a line rechecks the cursor's line, a
/// line-joining Backspace (`joins`) or Enter rechecks the whole body.
pub open spec fn check_after(d: ComposeState, key: Key, joins: bool, spellcheck: bool, r: Effect) -> bool {
    let line = r matches Effect::CheckLine { index, text } && index == d.body.cursor_row
        && text@ == d.body.view_lines()[d.body.cursor_row as int];
    let full = r matches Effect::CheckBody(t) && t@ == join_lines(d.body.view_lines());
    if d.focus == ComposeField::Body && spellcheck {
        match key {
            Key::Char(_) => line,
            Key::Backspace => if joins {
                full
            } else {
                line
            },
            Key::Enter => full,
            _ => r is Nothing,
        }
    } else {
        r is Nothing
    }
}

/// A key in the compose view: ignored while sending; Ctrl+S sends (the
/// view stays, marked as sending), Ctrl+A asks to browse for a file,
/// other Ctrl chords are swallowed; the recipient dropdown takes its keys
/// while showing; Esc discards the draft; anything else edits (see
/// `compose_edit`), then the suggestions are recomputed for the
/// (possibly new) fragment and a spellcheck requested (see `check_after`).
pub open spec fn compose_key_post(a: App, key: Key, ctrl: bool, s: Session, b: App, r: Effect) -> bool {
    let c = a.compose.unwrap();
    if c.sending {
        b == a && r is Nothing
    } else if ctrl {
        if key == Key::Char('s') || key == Key::Char('S') {
            &&& b == (App {
                compose: Some(ComposeState { sending: true, error: None, ..c }),
                ..a
            })
            &&& r matches Effect::Send { draft, attachments } && draft_of(c, draft)
                && attachments@ == c.attachments@
        } else if key == Key::Char('a') || key == Key::Char('A') {
            b == a && r is BrowseForAttachment
        } else {
            b == a && r is Nothing
        }
    } else if showing_suggestions(c) && dropdown_key(key) {
        &&& r is Nothing
        &&& b == (App { compose: b.compose, ..a })
        &&& b.compose matches Some(d) && dropdown_after(c, key, d)
    } else if key == Key::Esc {
        b == (App { compose: None, ..a }) && r is Nothing
    } else {
        &&& b == (App { compose: b.compose, ..a })
        &&& b.compose matches Some(d) && {
            let joins = c.focus == ComposeField::Body && key == Key::Backspace && c.body.cursor_col
                == 0 && c.body.cursor_row > 0;
            &&& compose_edit(c, key, ComposeState { suggestions: c.suggestions, ..d })
            &&& addrs_view(d.suggestions.items@) == suggestions_for(d, a.known_senders@)
            &&& d.suggestions.selected == 0
            &&& check_after(d, key, joins, s.spellcheck, r)
        }
    }
}

/// A copy of the attachment list.
fn copy_attachments(v: &Vec<AttachmentEntry>) -> (r: Vec<AttachmentEntry>)
    ensures
        r@ == v@,
{
    let mut r: Vec<AttachmentEntry> = Vec::new();
    let mut i: usize = 0;
    while i < v.len()
        invariant
            i <= v@.len(),
            r@ == v@.take(i as int),
        decreases v@.len() - i,
    {
        let e = AttachmentEntry {
            path: v[i].path.clone(),
            filename: v[i].filename.clone(),
            size_bytes: v[i].size_bytes,
        };
        r.push(e);
        i += 1;
        assert(r@ =~= v@.take(i as int));
    }
    assert(v@.take(v@.len() as int) =~= v@);
    r
}

/// Handles a key while the compose view is open (see `compose_key_post`).
pub fn handle_compose_key(app: &mut App, key: Key, ctrl: bool, session: &Session) -> (r: Effect)
    requires
        old(app).compose is Some,
        app_ok(*old(app)),
        app_room(*old(app)),
    ensures
        compose_key_post(*old(app), key, ctrl, *session, *final(app), r),
        app_ok(*final(app)),
{
    let ghost a = *app;
    let mut c = match app.compose.take() {
        Some(c) => c,
        None => {
            return Effect::Nothing;
        },
    };
    if c.sending {
        app.compose = Some(c);
        return Effect::Nothing;
    }
    if ctrl {
        if key == Key::Char('s') || key == Key::Char('S') {
            c.sending = true;
            c.error = None;
            let draft = c.to_draft();
            let attachments = copy_attachments(&c.attachments);
            app.compose = Some(c);
            return Effect::Send { draft, attachments };
        } else if key == Key::Char('a') || key == Key::Char('A') {
            app.compose = Some(c);
            return Effect::BrowseForAttachment;
        } else {
            app.compose = Some(c);
            return Effect::Nothing;
        }
    }
    let showing = (c.focus == ComposeField::To || c.focus == ComposeField::Cc || c.focus
        == ComposeField::Bcc) && c.suggestions.items.len() > 0;
    if showing {
        if key == Key::Up {
            c.suggestions.move_up();
            app.compose = Some(c);
            return Effect::Nothing;
        } else if key == Key::Down {
            c.suggestions.move_down();
            app.compose = Some(c);
            return Effect::Nothing;
        } else if key == Key::Enter || key == Key::Tab {
            c.accept_suggestion();
            app.compose = Some(c);
            return Effect::Nothing;
        } else if key == Key::Esc {
            c.suggestions.clear();
            app.compose = Some(c);
            return Effect::Nothing;
        }
    }
    if key == Key::Esc {
        return Effect::Nothing;
    }
    let joins = c.focus == ComposeField::Body && key == Key::Backspace && c.body.cursor_col == 0
        && c.body.cursor_row > 0;
    apply_compose_key(&mut c, key);
    c.refresh_suggestions(&app.known_senders);
    let effect = if c.focus == ComposeField::Body && session.spellcheck {
        let row = c.body.cursor_row;
        proof {
            assert(c.body.view_lines().len() == c.body.lines@.len());
        }
        match key {
            Key::Char(_) => Effect::CheckLine { index: row, text: c.body.lines[row].clone() },
            Key::Backspace => {
                if joins {
                    Effect::CheckBody(c.body.text())
                } else {
                    Effect::CheckLine { index: row, text: c.body.lines[row].clone() }
                }
            },
            Key::Enter => Effect::CheckBody(c.body.text()),
            _ => Effect::Nothing,
        }
    } else {
        Effect::Nothing
    };
    app.compose = Some(c);
    effect
}

/// The status shown while the server is searched for `query`.
pub open spec fn searching_status(query: Seq<char>) -> Seq<char> {
    "Searching server for \""@ + query + "\"..."@
}

/// `b` is `a` with `op` applied to the search field (when there is one),
/// the selection going back to the first row when `reset`.
pub open spec fn search_edited(a: App, op: EditOp, reset: bool, b: App) -> bool {
    &&& match a.search {
        Some(t) => b.search matches Some(u) && input_after(t, op, u),
        None => b.search is None,
    }
    &&& b == (App { search: b.search, selected: (if reset { 0 } else { a.selected }), ..a })
}

/// A key while the search query is being typed: Esc drops the filter;
/// Enter stops editing and, when the trimmed query is not blank and
/// nothing cached matches it, asks for a server search; characters and
/// Backspace edit the query and go back to the first row; Left and Right
/// move in it.
pub open spec fn search_key_post(a: App, key: Key, b: App, r: Effect) -> bool {
    match key {
        Key::Esc => b == (App { search: None, search_editing: false, selected: 0, ..a }) && r is Nothing,
        Key::Enter => {
            let a1 = App { search_editing: false, ..a };
            let q = match a.search {
                Some(t) => trim(t.value@),
                None => Seq::empty(),
            };
            if q.len() > 0 && visible_len(a) == 0 {
                &&& b == (App { status_message: b.status_message, ..a1 })
                &&& b.status_message matches Some(m) && m@ == searching_status(q)
                &&& r matches Effect::SearchServer(t) && t@ == q
            } else {
                b == a1 && r is Nothing
            }
        },
        Key::Char(c) => search_edited(a, EditOp::Insert(c), true, b) && r is Nothing,
        Key::Backspace => search_edited(a, EditOp::Backspace, true, b) && r is Nothing,
        Key::Left => search_edited(a, EditOp::Left, false, b) && r is Nothing,
        Key::Right => search_edited(a, EditOp::Right, false, b) && r is Nothing,
        _ => b == a && r is Nothing,
    }
}

/// Applies `op` to the search field, if any.
fn edit_search(app: &mut App, op: EditOp, reset: bool)
    requires
        app_ok(*old(app)),
        app_room(*old(app)),
    ensures
        search_edited(*old(app), op, reset, *final(app)),
        app_ok(*final(app)),
{
    match app.search.take() {
        Some(mut t) => {
            edit_input(&mut t, op);
            app.search = Some(t);
        },
        None => {},
    }
    if reset {
        app.selected = 0;
    }
}

/// Handles a key while the search query is being typed (see
/// `search_key_post`).
pub fn handle_search_key(app: &mut App, key: Key) -> (r: Effect)
    requires
        app_ok(*old(app)),
        app_room(*old(app)),
    ensures
        search_key_post(*old(app), key, *final(app), r),
        app_ok(*final(app)),
{
    match key {
        Key::Esc => {
            app.clear_search();
            Effect::Nothing
        },
        Key::Enter => {
            app.search_editing = false;
            let query = match &app.search {
                Some(s) => trimmed(s.value.as_str()),
                None => String::new(),
            };
            if query.unicode_len() > 0 && app.visible_indices().len() == 0 {
                let mut status = String::from_str("Searching server for \"");
                status.append(query.as_str());
                status.append("\"...");
                app.set_status(status);
                Effect::SearchServer(query)
            } else {
                Effect::Nothing
            }
        },
        Key::Char(c) => {
            edit_search(app, EditOp::Insert(c), true);
            Effect::Nothing
        },
        Key::Backspace => {
            edit_search(app, EditOp::Backspace, true);
            Effect::Nothing
        },
        Key::Left => {
            edit_search(app, EditOp::Left, false);
            Effect::Nothing
        },
        Key::Right => {
            edit_search(app, EditOp::Right, false);
            Effect::Nothing
        },
        _ => Effect::Nothing,
    }
}

/// The directory `activate` moves to from `dir` into the directory row
/// `name`: the parent for `..` (staying put at a root), else the child.
pub open spec fn entered_dir(dir: Seq<char>, name: Seq<char>) -> Seq<char> {
    if name == ".."@ {
        match path_parent(dir) {
            Some(p) => p,
            None => dir,
        }
    } else {
        path_join(dir, name)
    }
}

/// `b` is `a` with its browser replaced by `fb`, same purpose.
pub open spec fn with_browser(a: App, fb: FileBrowser, b: App) -> bool {
    b == (App { file_browser: Some((fb, a.file_browser.unwrap().1)), ..a })
}

/// A key in the directory browser: Esc closes it, Tab switches focus
/// between the list and the filename field. With the filename field
/// focused, characters, Backspace, Left and Right edit it and Enter asks
/// to write the attachment to `save_target`. In the list, j/Down and
/// k/Up move, and Enter activates the selected row: a directory is
/// entered (and must be listed), a picked file is checked for attaching
/// (the browser just closes when there is no draft to attach to), or, when
/// saving, its name goes into the filename field, which takes focus.
pub open spec fn browser_key_post(a: App, key: Key, b: App, r: Effect) -> bool {
    let fb = a.file_browser.unwrap().0;
    let purpose = a.file_browser.unwrap().1;
    if key == Key::Esc {
        b == (App { file_browser: None, ..a }) && r is Nothing
    } else if key == Key::Tab {
        with_browser(
            a,
            FileBrowser {
                filename_focused: (if fb.filename is Some {
                    !fb.filename_focused
                } else {
                    fb.filename_focused
                }),
                ..fb
            },
            b,
        ) && r is Nothing
    } else if fb.filename_focused {
        let op = match key {
            Key::Char(c) => Some(EditOp::Insert(c)),
            Key::Backspace => Some(EditOp::Backspace),
            Key::Left => Some(EditOp::Left),
            Key::Right => Some(EditOp::Right),
            _ => None,
        };
        match op {
            Some(op) => {
                &&& r is Nothing
                &&& b.file_browser matches Some(nb) && with_browser(a, FileBrowser { filename: nb.0.filename, ..fb }, b)
                    && (match fb.filename {
                        Some(f) => (nb.0.filename matches Some(g) && input_after(f, op, g)),
                        None => nb.0.filename is None,
                    })
            },
            None => b == a && (if key == Key::Enter {
                match (purpose, save_target(fb)) {
                    (BrowserPurpose::SaveAttachment { bytes }, Some(t)) => r matches Effect::WriteFile {
                        path,
                        bytes: out,
                    } && path@ == t && out@ == bytes@,
                    _ => r is Nothing,
                }
            } else {
                r is Nothing
            }),
        }
    } else if key == Key::Char('j') || key == Key::Down {
        with_browser(
            a,
            FileBrowser {
                selected: next_row(fb.selected as int, fb.entries@.len() as int) as usize,
                ..fb
            },
            b,
        ) && r is Nothing
    } else if key == Key::Char('k') || key == Key::Up {
        with_browser(
            a,
            FileBrowser {
                selected: (if fb.selected > 0 {
                    fb.selected - 1
                } else {
                    0
                }) as usize,
                ..fb
            },
            b,
        ) && r is Nothing
    } else if key == Key::Enter {
        if fb.selected >= fb.entries@.len() {
            b == a && r is Nothing
        } else {
            let e = fb.entries@[fb.selected as int];
            if e.is_dir {
                &&& b.file_browser matches Some(nb) && nb.0.current_dir@ == entered_dir(fb.current_dir@, e.name@)
                    && with_browser(a, FileBrowser { current_dir: nb.0.current_dir, ..fb }, b)
                &&& r is ListDirectory
            } else {
                let path = path_join(fb.current_dir@, e.name@);
                match purpose {
                    BrowserPurpose::AttachToCompose => if a.compose is None {
                        b == (App { file_browser: None, ..a }) && r is Nothing
                    } else {
                        b == a && (r matches Effect::ValidateAttachment(p) && p@ == path)
                    },
                    BrowserPurpose::SaveAttachment { .. } => {
                        &&& r is Nothing
                        &&& b.file_browser matches Some(nb) && with_browser(
                            a,
                            FileBrowser { filename: nb.0.filename, filename_focused: true, ..fb },
                            b,
                        ) && (match path_file_name(path) {
                            Some(n) => (nb.0.filename matches Some(f) && f.value@ == n && f.cursor
                                == n.len()),
                            None => nb.0.filename == fb.filename,
                        })
                    },
                }
            }
        }
    } else {
        b == a && r is Nothing
    }
}

/// A copy of a byte buffer.
fn copy_bytes(v: &Vec<u8>) -> (r: Vec<u8>)
    ensures
        r@ == v@,
{
    let r = v.clone();
    assert(r@ =~= v@);
    r
}

/// Handles a key while the directory browser is open (see
/// `browser_key_post`).
pub fn handle_browser_key(app: &mut App, key: Key) -> (r: Effect)
    requires
        old(app).file_browser is Some,
        app_ok(*old(app)),
        app_room(*old(app)),
    ensures
        browser_key_post(*old(app), key, *final(app), r),
        app_ok(*final(app)),
{
    let (mut fb, purpose) = match app.file_browser.take() {
        Some(p) => p,
        None => {
            return Effect::Nothing;
        },
    };
    if key == Key::Esc {
        return Effect::Nothing;
    }
    if key == Key::Tab {
        fb.toggle_focus();
        app.file_browser = Some((fb, purpose));
        return Effect::Nothing;
    }
    if fb.filename_focused {
        let op = match key {
            Key::Char(c) => Some(EditOp::Insert(c)),
            Key::Backspace => Some(EditOp::Backspace),
            Key::Left => Some(EditOp::Left),
            Key::Right => Some(EditOp::Right),
            _ => None,
        };
        match op {
            Some(op) => {
                match fb.filename.take() {
                    Some(mut f) => {
                        edit_input(&mut f, op);
                        fb.filename = Some(f);
                    },
                    None => {},
                }
                app.file_browser = Some((fb, purpose));
                return Effect::Nothing;
            },
            None => {},
        }
        let effect = if key == Key::Enter {
            match &purpose {
                BrowserPurpose::SaveAttachment { bytes } => match fb.save_path() {
                    Some(path) => Effect::WriteFile { path, bytes: copy_bytes(bytes) },
                    None => Effect::Nothing,
                },
                BrowserPurpose::AttachToCompose => Effect::Nothing,
            }
        } else {
            Effect::Nothing
        };
        app.file_browser = Some((fb, purpose));
        return effect;
    }
    if key == Key::Char('j') || key == Key::Down {
        fb.move_down();
        app.file_browser = Some((fb, purpose));
        return Effect::Nothing;
    }
    if key == Key::Char('k') || key == Key::Up {
        fb.move_up();
        app.file_browser = Some((fb, purpose));
        return Effect::Nothing;
    }
    if key != Key::Enter {
        app.file_browser = Some((fb, purpose));
        return Effect::Nothing;
    }
    match fb.activate() {
        Activation::Nothing => {
            app.file_browser = Some((fb, purpose));
            Effect::Nothing
        },
        Activation::Entered => {
            app.file_browser = Some((fb, purpose));
            Effect::ListDirectory
        },
        Activation::Picked(path) => {
            match purpose {
                BrowserPurpose::AttachToCompose => {
                    if app.compose.is_none() {
                        Effect::Nothing
                    } else {
                        app.file_browser = Some((fb, BrowserPurpose::AttachToCompose));
                        Effect::ValidateAttachment(path)
                    }
                },
                BrowserPurpose::SaveAttachment { bytes } => {
                    match file_name_of(path.as_str()) {
                        Some(name) => {
                            fb.filename = Some(TextInput::with_value(name.as_str()));
                        },
                        None => {},
                    }
                    fb.filename_focused = true;
                    app.file_browser = Some((fb, BrowserPurpose::SaveAttachment { bytes }));
                    Effect::Nothing
                },
            }
        },
    }
}

/// Whether the list should fetch older mail now: no filter is showing,
/// older mail may exist, none is being fetched, and the selection is on
/// the last row.
pub open spec fn wants_older(a: App) -> bool {
    a.search is None && a.has_more_older && !a.loading_more && at_end_of_list(a)
}

/// `b` and `r` after checking `a` for a fetch of older mail.
pub open spec fn load_more_post(a: App, b: App, r: Effect) -> bool {
    if wants_older(a) {
        b == (App { loading_more: true, ..a }) && r is FetchOlder
    } else {
        b == a && r is Nothing
    }
}

/// Asks for older mail when the selection reached the end of the
/// unfiltered list (see `wants_older`).
fn maybe_load_more(app: &mut App) -> (r: Effect)
    ensures
        load_more_post(*old(app), *final(app), r),
{
    if app.search.is_none() && app.has_more_older && !app.loading_more && app.is_at_end_of_list() {
        app.loading_more = true;
        Effect::FetchOlder
    } else {
        Effect::Nothing
    }
}

/// `b` is `a` switched to account `index` (see
/// `App::reset_for_account_switch`).
pub open spec fn switched(a: App, index: usize, b: App) -> bool {
    &&& b.envelopes@.len() == 0
    &&& b.known_senders@.len() == 0
    &&& b == (App {
        current_account: index,
        list_state: ListState::Loading,
        envelopes: b.envelopes,
        selected: 0,
        body: BodyState::Empty,
        selected_attachment: 0,
        confirm_delete: None,
        pending_g: false,
        has_more_older: true,
        loading_more: false,
        known_senders: b.known_senders,
        search: None,
        search_editing: false,
        ..a
    })
}

/// Shows account `index`.
fn switch_account(app: &mut App, session: &mut Session, index: usize) -> (r: Effect)
    ensures
        switched(*old(app), index, *final(app)),
        *final(session) == (Session { current: index, ..*old(session) }),
        r == Effect::SwitchAccount(index),
{
    session.current = index;
    app.current_account = index;
    app.reset_for_account_switch();
    Effect::SwitchAccount(index)
}

/// What the `a` key asks for: with a message open and an attachment
/// highlighted, saving it, or, when its content was not loaded although
/// it has a size, a notice that it is too large.
pub open spec fn download_effect(a: App, r: Effect) -> bool {
    match a.body {
        BodyState::Loaded(m) if a.selected_attachment < m.attachments@.len() => {
            let at = m.attachments@[a.selected_attachment as int];
            if at.bytes@.len() == 0 && at.size_bytes > 0 {
                r matches Effect::AttachmentTooLarge { filename, size_bytes } && filename@
                    == at.filename@ && size_bytes == at.size_bytes
            } else {
                r matches Effect::SaveAttachmentAs { filename, bytes } && filename@
                    == at.filename@ && bytes@ == at.bytes@
            }
        },
        _ => r is Nothing,
    }
}

/// Decides on downloading the highlighted attachment (see
/// `download_effect`).
fn start_download(app: &App) -> (r: Effect)
    ensures
        download_effect(*app, r),
{
    match &app.body {
        BodyState::Loaded(m) => {
            if app.selected_attachment < m.attachments.len() {
                let at = &m.attachments[app.selected_attachment];
                if at.bytes.len() == 0 && at.size_bytes > 0 {
                    Effect::AttachmentTooLarge {
                        filename: at.filename.clone(),
                        size_bytes: at.size_bytes,
                    }
                } else {
                    Effect::SaveAttachmentAs {
                        filename: at.filename.clone(),
                        bytes: copy_bytes(&at.bytes),
                    }
                }
            } else {
                Effect::Nothing
            }
        },
        _ => Effect::Nothing,
    }
}

/// The UID of the selected envelope, if the selection is on a shown row.
pub open spec fn selected_uid_of(a: App) -> Option<u32> {
    let v = visible_of(a.envelopes@, a.search);
    if a.selected < v.len() {
        Some(a.envelopes@[v[a.selected as int] as int].uid)
    } else {
        None
    }
}

/// Whether `c` is a fresh reply to `e`: addressed to its first sender
/// (nobody when it has none), titled with its subject with `Re: ` put in
/// front unless it already starts with `Re:` in any case, with no Cc,
/// Bcc, body text or attachments.
pub open spec fn reply_to(c: ComposeState, e: Envelope) -> bool {
    &&& c.to.value@ == (if e.from@.len() > 0 {
        e.from@[0].email@
    } else {
        Seq::<char>::empty()
    })
    &&& c.subject.value@ == (if has_prefix(lowercase(e.subject@), "re:"@) {
        e.subject@
    } else {
        "Re: "@ + e.subject@
    })
    &&& input_is_empty(c.cc) && input_is_empty(c.bcc)
    &&& c.body.view_lines() == seq![Seq::<char>::empty()]
    &&& c.attachments@.len() == 0
}

/// The account a digit key `c` picks (`'1'` is the first).
pub open spec fn digit_account(c: char) -> int {
    c as int - '1' as int
}

/// A key in the message list (after a pending `g` was dropped for any
/// key but `g`): q quits; Esc drops the filter or quits; j/Down/n and
/// k/Up/N move; gg goes to the top, G to the bottom; Ctrl-d and Ctrl-u
/// move a page; j, G and Ctrl-d fetch older mail on reaching the end
/// (see `wants_older`); / starts a search; S syncs; c composes; r
/// replies to the selected message; Enter opens it; [ and ] move among
/// its attachments and a saves one; d asks to confirm deleting the
/// selected message; D makes the account the default; Tab, Shift+Tab and
/// 1-9 switch accounts.
pub open spec fn list_key_post(a: App, key: Key, ctrl: bool, s: Session, b: App, s2: Session, r: Effect) -> bool {
    let a0 = if key == Key::Char('g') {
        a
    } else {
        App { pending_g: false, ..a }
    };
    let n = s.accounts as int;
    let same_session = s2 == s;
    if key == Key::Char('q') {
        b == (App { should_quit: true, ..a0 }) && r is Nothing && same_session
    } else if key == Key::Esc {
        (if a.search is Some {
            b == (App { search: None, search_editing: false, selected: 0, ..a0 })
        } else {
            b == (App { should_quit: true, ..a0 })
        }) && r is Nothing && same_session
    } else if key == Key::Char('j') || key == Key::Down || key == Key::Char('n') {
        load_more_post(
            App {
                selected: next_row(a0.selected as int, visible_len(a0)) as usize,
                ..a0
            },
            b,
            r,
        ) && same_session
    } else if key == Key::Char('k') || key == Key::Up || key == Key::Char('N') {
        b == (App {
            selected: (if a0.selected > 0 {
                a0.selected - 1
            } else {
                0
            }) as usize,
            ..a0
        }) && r is Nothing && same_session
    } else if key == Key::Char('g') {
        (if a.pending_g {
            b == (App { pending_g: false, selected: 0, ..a })
        } else {
            b == (App { pending_g: true, ..a })
        }) && r is Nothing && same_session
    } else if key == Key::Char('G') {
        load_more_post(
            App { selected: last_row(visible_len(a0)) as usize, ..a0 },
            b,
            r,
        ) && same_session
    } else if key == Key::Char('d') && ctrl {
        load_more_post(
            App {
                selected: page_down_row(a0.selected as int, visible_len(a0)) as usize,
                ..a0
            },
            b,
            r,
        ) && same_session
    } else if key == Key::Char('u') && ctrl {
        b == (App { selected: page_up_row(a0.selected as int) as usize, ..a0 }) && r is Nothing
            && same_session
    } else if key == Key::Char('/') {
        &&& b.search matches Some(q) && input_is_empty(q)
        &&& b == (App { search: b.search, search_editing: true, selected: 0, ..a0 })
        &&& r is Nothing && same_session
    } else if key == Key::Char('S') {
        b == (App { list_state: ListState::Loading, ..a0 }) && r is Sync && same_session
    } else if key == Key::Char('c') {
        &&& b.compose matches Some(c) && compose_ok(c) && c.focus == ComposeField::To
            && input_is_empty(c.to) && c.attachments@.len() == 0
        &&& b == (App { status_message: None, compose: b.compose, ..a0 })
        &&& r is ReloadSpellchecker && same_session
    } else if key == Key::Char('r') {
        (match selected_uid_of(a0) {
            Some(_) => {
                &&& b.compose matches Some(c) && compose_ok(c) && c.focus == ComposeField::Body
                    && reply_to(c, a0.envelopes@[visible_of(a0.envelopes@, a0.search)[a0.selected as int] as int])
                &&& b == (App { status_message: None, compose: b.compose, ..a0 })
                &&& r is ReloadSpellchecker
            },
            None => b == a0 && r is Nothing,
        }) && same_session
    } else if key == Key::Enter {
        (match selected_uid_of(a0) {
            Some(uid) => b == (App { body: BodyState::Loading, ..a0 }) && r == Effect::FetchBody(uid),
            None => b == a0 && r is Nothing,
        }) && same_session
    } else if key == Key::Char('[') {
        (match a0.body {
            BodyState::Loaded(m) if m.attachments@.len() > 0 => b == (App {
                selected_attachment: (if a0.selected_attachment > 0 {
                    a0.selected_attachment - 1
                } else {
                    0
                }) as usize,
                ..a0
            }),
            _ => b == a0,
        }) && r is Nothing && same_session
    } else if key == Key::Char(']') {
        (match a0.body {
            BodyState::Loaded(m) if m.attachments@.len() > 0 => b == (App {
                selected_attachment: next_row(
                    a0.selected_attachment as int,
                    m.attachments@.len() as int,
                ) as usize,
                ..a0
            }),
            _ => b == a0,
        }) && r is Nothing && same_session
    } else if key == Key::Char('a') {
        b == a0 && download_effect(a0, r) && same_session
    } else if key == Key::Char('d') {
        (match selected_uid_of(a0) {
            Some(uid) => b == (App { confirm_delete: Some(uid), ..a0 }),
            None => b == a0,
        }) && r is Nothing && same_session
    } else if key == Key::Char('D') {
        b == a0 && r is SetDefaultAccount && same_session
    } else if (key == Key::Tab || key == Key::BackTab) && n > 1 {
        let index = (if key == Key::Tab {
            (s.current + 1) % n
        } else {
            (s.current + n - 1) % n
        }) as usize;
        switched(a0, index, b) && s2 == (Session { current: index, ..s }) && r
            == Effect::SwitchAccount(index)
    } else if key matches Key::Char(c) && '1' <= c && c <= '9' && digit_account(c) < n
        && digit_account(c) != s.current {
        let index = digit_account(key->Char_0) as usize;
        switched(a0, index, b) && s2 == (Session { current: index, ..s }) && r
            == Effect::SwitchAccount(index)
    } else {
        b == a0 && r is Nothing && same_session
    }
}

/// Handles a key in the message list (see `list_key_post`).
#[verifier::rlimit(40)]
#[verifier::spinoff_prover]
pub fn handle_list_key(app: &mut App, key: Key, ctrl: bool, session: &mut Session) -> (r: Effect)
    requires
        old(session).current < old(session).accounts,
        app_ok(*old(app)),
    ensures
        list_key_post(*old(app), key, ctrl, *old(session), *final(app), *final(session), r),
        app_ok(*final(app)),
{
    if key != Key::Char('g') {
        app.pending_g = false;
    }
    let n = session.accounts;
    if key == Key::Char('q') {
        app.should_quit = true;
        Effect::Nothing
    } else if key == Key::Esc {
        if app.search.is_some() {
            app.clear_search();
        } else {
            app.should_quit = true;
        }
        Effect::Nothing
    } else if key == Key::Char('j') || key == Key::Down || key == Key::Char('n') {
        app.select_next();
        maybe_load_more(app)
    } else if key == Key::Char('k') || key == Key::Up || key == Key::Char('N') {
        app.select_prev();
        Effect::Nothing
    } else if key == Key::Char('g') {
        if app.pending_g {
            app.pending_g = false;
            app.select_top();
        } else {
            app.pending_g = true;
        }
        Effect::Nothing
    } else if key == Key::Char('G') {
        app.select_bottom();
        maybe_load_more(app)
    } else if key == Key::Char('d') && ctrl {
        app.select_page_down();
        maybe_load_more(app)
    } else if key == Key::Char('u') && ctrl {
        app.select_page_up();
        Effect::Nothing
    } else if key == Key::Char('/') {
        app.start_search();
        Effect::Nothing
    } else if key == Key::Char('S') {
        app.list_state = ListState::Loading;
        Effect::Sync
    } else if key == Key::Char('c') {
        app.status_message = None;
        app.compose = Some(ComposeState::blank());
        Effect::ReloadSpellchecker
    } else if key == Key::Char('r') {
        let reply = match app.selected_envelope() {
            Some(e) => Some(ComposeState::reply(e)),
            None => None,
        };
        match reply {
            Some(c) => {
                app.status_message = None;
                app.compose = Some(c);
                Effect::ReloadSpellchecker
            },
            None => Effect::Nothing,
        }
    } else if key == Key::Enter {
        match app.selected_uid() {
            Some(uid) => {
                app.body = BodyState::Loading;
                Effect::FetchBody(uid)
            },
            None => Effect::Nothing,
        }
    } else if key == Key::Char('[') {
        let has = match &app.body {
            BodyState::Loaded(m) => m.attachments.len() > 0,
            _ => false,
        };
        if has && app.selected_attachment > 0 {
            app.selected_attachment = app.selected_attachment - 1;
        }
        Effect::Nothing
    } else if key == Key::Char(']') {
        let count = match &app.body {
            BodyState::Loaded(m) => m.attachments.len(),
            _ => 0,
        };
        if count > 0 {
            app.selected_attachment = if app.selected_attachment < count - 1 {
                app.selected_attachment + 1
            } else {
                count - 1
            };
        }
        Effect::Nothing
    } else if key == Key::Char('a') {
        start_download(app)
    } else if key == Key::Char('d') {
        match app.selected_uid() {
            Some(uid) => {
                app.confirm_delete = Some(uid);
            },
            None => {},
        }
        Effect::Nothing
    } else if key == Key::Char('D') {
        Effect::SetDefaultAccount
    } else if key == Key::Tab && n > 1 {
        let cur = session.current;
        let index = if cur + 1 == n {
            0
        } else {
            cur + 1
        };
        proof {
            assert(index == (cur + 1) % (n as int)) by (nonlinear_arith)
                requires
                    cur < n,
                    index == (if cur + 1 == n { 0 } else { cur + 1 }),
            ;
        }
        switch_account(app, session, index)
    } else if key == Key::BackTab && n > 1 {
        let cur = session.current;
        let index = if cur == 0 {
            n - 1
        } else {
            cur - 1
        };
        proof {
            assert(index == (cur + n - 1) % (n as int)) by (nonlinear_arith)
                requires
                    cur < n,
                    n > 1,
                    index == (if cur == 0 { n - 1 } else { cur - 1 }),
            ;
        }
        switch_account(app, session, index)
    } else {
        match key {
            Key::Char(c) => {
                if '1' <= c && c <= '9' {
                    let idx = (c as u32 - '1' as u32) as usize;
                    if idx < n && idx != session.current {
                        return switch_account(app, session, idx);
                    }
                }
                Effect::Nothing
            },
            _ => Effect::Nothing,
        }
    }
}

/// What a key does to the interface: the directory browser takes keys
/// while open, then the compose view, then the search field while it is
/// being edited; a pending delete confirmation takes the next key (y or
/// Y deletes, anything else cancels); otherwise the message list does
/// (see the `*_key_post` predicates).
pub open spec fn key_post(a: App, key: Key, ctrl: bool, s: Session, b: App, s2: Session, r: Effect) -> bool {
    if a.file_browser is Some {
        browser_key_post(a, key, b, r) && s2 == s
    } else if a.compose is Some {
        compose_key_post(a, key, ctrl, s, b, r) && s2 == s
    } else if a.search_editing {
        search_key_post(a, key, b, r) && s2 == s
    } else if a.confirm_delete is Some {
        let uid = a.confirm_delete.unwrap();
        s2 == s && if key == Key::Char('y') || key == Key::Char('Y') {
            &&& b == (App { confirm_delete: None, status_message: b.status_message, ..a })
            &&& b.status_message matches Some(m) && m@ == "Deleting..."@
            &&& r == Effect::DeleteMessage(uid)
        } else {
            b == (App { confirm_delete: None, ..a }) && r is Nothing
        }
    } else {
        list_key_post(a, key, ctrl, s, b, s2, r)
    }
}

/// Handles one key press (see `key_post`). The state stays consistent
/// (see `app_ok`) and the shown account stays one of the session's.
pub fn handle_key(app: &mut App, key: Key, ctrl: bool, session: &mut Session) -> (r: Effect)
    requires
        old(session).current < old(session).accounts,
        app_ok(*old(app)),
        app_room(*old(app)),
    ensures
        key_post(*old(app), key, ctrl, *old(session), *final(app), *final(session), r),
        app_ok(*final(app)),
        final(session).current < final(session).accounts,
        final(session).accounts == old(session).accounts,
{
    if app.file_browser.is_some() {
        return handle_browser_key(app, key);
    }
    if app.compose.is_some() {
        return handle_compose_key(app, key, ctrl, session);
    }
    if app.search_editing {
        return handle_search_key(app, key);
    }
    match app.confirm_delete {
        Some(uid) => {
            app.confirm_delete = None;
            if key == Key::Char('y') || key == Key::Char('Y') {
                app.set_status(String::from_str("Deleting..."));
                return Effect::DeleteMessage(uid);
            }
            return Effect::Nothing;
        },
        None => {},
    }
    handle_list_key(app, key, ctrl, session)
}

fn input_fine(t: &TextInput) -> (r: bool)
    ensures
        r == (input_ok(*t) && input_room(*t)),
{
    let n = t.value.unicode_len();
    t.cursor <= n && n < usize::MAX
}

fn area_fine(a: &TextArea) -> (r: bool)
    ensures
        r == (area_ok(*a) && area_room(*a)),
{
    let n = a.lines.len();
    if n == usize::MAX || a.cursor_row >= n {
        return false;
    }
    let mut i: usize = 0;
    while i < n
        invariant
            n == a.lines@.len(),
            i <= n,
            forall|j: int| 0 <= j < i ==> (#[trigger] a.lines@[j])@.len() < usize::MAX,
        decreases n - i,
    {
        if a.lines[i].unicode_len() == usize::MAX {
            return false;
        }
        i += 1;
    }
    a.cursor_col <= a.lines[a.cursor_row].unicode_len()
}

/// Whether the interface state is consistent and every field has room to
/// grow (`app_ok` and `app_room`): what `handle_key` needs of it.
pub fn state_ok(a: &App) -> (r: bool)
    ensures
        r == (app_ok(*a) && app_room(*a)),
{
    match &a.search {
        Some(t) => if !input_fine(t) {
            return false;
        },
        None => {},
    }
    match &a.compose {
        Some(c) => {
            if !(input_fine(&c.to) && input_fine(&c.cc) && input_fine(&c.bcc) && input_fine(
                &c.subject,
            ) && area_fine(&c.body)) {
                return false;
            }
            if c.attachments.len() > 0 && c.attachment_selected >= c.attachments.len() {
                return false;
            }
            if c.attachments_total_bytes() > MAX_ATTACHMENTS_BYTES {
                return false;
            }
        },
        None => {},
    }
    match &a.file_browser {
        Some(fb) => match &fb.0.filename {
            Some(f) => input_fine(f),
            None => true,
        },
        None => true,
    }
}

impl App {
    /// Takes the result of checking a file picked for attaching: on
    /// success it joins the draft's attachments, highlighted, and the
    /// browser closes; a failure shows in the browser. Without a draft
    /// the browser just closes.
    pub fn attach_checked(&mut self, result: Result<AttachmentEntry, String>)
        requires
            app_ok(*old(self)),
            result matches Ok(e) ==> (old(self).compose matches Some(c) ==> total_size(c.attachments@)
                + e.size_bytes <= MAX_ATTACHMENTS_BYTES),
        ensures
            app_ok(*final(self)),
            match old(self).compose {
                None => *final(self) == (App { file_browser: None, ..*old(self) }),
                Some(c) => match result {
                    Ok(e) => *final(self) == (App {
                        compose: Some(ComposeState {
                            attachments: final(self).compose.unwrap().attachments,
                            attachment_selected: c.attachments@.len() as usize,
                            ..c
                        }),
                        file_browser: None,
                        ..*old(self)
                    }) && final(self).compose.unwrap().attachments@ == c.attachments@.push(e),
                    Err(msg) => match old(self).file_browser {
                        Some(fb) => *final(self) == (App {
                            file_browser: Some((FileBrowser { error: Some(msg), ..fb.0 }, fb.1)),
                            ..*old(self)
                        }),
                        None => *final(self) == *old(self),
                    },
                },
            },
    {
        let mut c = match self.compose.take() {
            Some(c) => c,
            None => {
                self.file_browser = None;
                return;
            },
        };
        match result {
            Ok(entry) => {
                let ghost before = c.attachments@;
                c.attachments.push(entry);
                proof {
                    assert(c.attachments@.drop_last() =~= before);
                }
                c.attachment_selected = c.attachments.len() - 1;
                self.file_browser = None;
            },
            Err(msg) => {
                match self.file_browser.take() {
                    Some((mut fb, purpose)) => {
                        fb.error = Some(msg);
                        self.file_browser = Some((fb, purpose));
                    },
                    None => {},
                }
            },
        }
        self.compose = Some(c);
    }

    /// Takes the result of writing a downloaded attachment to `path`:
    /// success closes the browser and says where it was saved; a failure
    /// shows in the browser as `"<path>: <error>"`.
    pub fn save_finished(&mut self, path: String, result: Result<(), String>)
        ensures
            match result {
                Ok(()) => *final(self) == (App {
                    file_browser: None,
                    status_message: final(self).status_message,
                    ..*old(self)
                }) && (final(self).status_message matches Some(m) && m@ == "Saved to "@ + path@),
                Err(e) => match old(self).file_browser {
                    Some(fb) => *final(self) == (App {
                        file_browser: Some((FileBrowser { error: final(self).file_browser.unwrap().0.error, ..fb.0 }, fb.1)),
                        ..*old(self)
                    }) && (final(self).file_browser.unwrap().0.error matches Some(m) && m@ == path@ + ": "@ + e@),
                    None => *final(self) == *old(self),
                },
            },
    {
        match result {
            Ok(()) => {
                let mut status = String::from_str("Saved to ");
                status.append(path.as_str());
                self.set_status(status);
                self.file_browser = None;
            },
            Err(e) => {
                match self.file_browser.take() {
                    Some((mut fb, purpose)) => {
                        let mut msg = path.clone();
                        msg.append(": ");
                        msg.append(e.as_str());
                        fb.error = Some(msg);
                        self.file_browser = Some((fb, purpose));
                    },
                    None => {},
                }
            },
        }
    }
}

} // verus!
