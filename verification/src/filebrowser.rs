//! A keyboard-driven directory browser, shared by "attach a file" (pick
//! an existing file) and "save an attachment" (pick a directory plus a
//! filename). The caller lists directories; the browser decides what is
//! shown, in what order, and what a key press leads to.

use vstd::prelude::*;

use crate::config::{join_path, path_join};
use crate::editable::TextInput;
use crate::text::{
    chars_of, insert_by_key, lemma_insert_by_key_at, lex_le, lex_le_chars, lowercase, push_char,
    sort_by_key, str_eq, to_lowercase, trim, trim_bounds,
};

verus! {

/// One row of the browser.
#[derive(Debug)]
pub struct BrowserEntry {
    pub name: String,
    pub is_dir: bool,
    pub size: u64,
}

/// What the file system reported about one directory entry.
#[derive(Debug, Clone, Copy)]
pub struct EntryMetadata {
    pub is_dir: bool,
    pub len: u64,
}

/// One directory entry as listed, with its metadata when it could be read.
#[derive(Debug)]
pub struct ListedEntry {
    pub name: String,
    pub metadata: Option<EntryMetadata>,
}

/// What activating the selected row led to.
#[derive(Debug)]
pub enum Activation {
    /// No row is selected.
    Nothing,
    /// The browser moved into a directory; list it and hand the listing
    /// to `reload`.
    Entered,
    /// A file was picked: its full path.
    Picked(String),
}

/// The browser's state.
pub struct FileBrowser {
    pub current_dir: String,
    pub entries: Vec<BrowserEntry>,
    pub selected: usize,
    pub error: Option<String>,
    /// Present only when choosing a save location.
    pub filename: Option<TextInput>,
    pub filename_focused: bool,
}

/// Name, directory flag and size of a row.
pub open spec fn entry_view(e: BrowserEntry) -> (Seq<char>, bool, u64) {
    (e.name@, e.is_dir, e.size)
}

/// The rows' views.
pub open spec fn entries_view(v: Seq<BrowserEntry>) -> Seq<(Seq<char>, bool, u64)> {
    v.map_values(|e: BrowserEntry| entry_view(e))
}

/// A listed entry is shown when its name does not start with `.` and its
/// metadata could be read.
pub open spec fn shown(l: ListedEntry) -> bool {
    !(l.name@.len() > 0 && l.name@[0] == '.') && l.metadata is Some
}

/// The shown directories of a listing, keyed by lower-cased name, in
/// listing order.
pub open spec fn dir_items(ls: Seq<ListedEntry>) -> Seq<(Seq<char>, (Seq<char>, bool, u64))>
    decreases ls.len(),
{
    if ls.len() == 0 {
        Seq::empty()
    } else {
        let rest = dir_items(ls.drop_last());
        let l = ls.last();
        if shown(l) && l.metadata.unwrap().is_dir {
            rest.push((lowercase(l.name@), (l.name@, true, 0u64)))
        } else {
            rest
        }
    }
}

/// The shown files of a listing, keyed by lower-cased name, in listing
/// order.
pub open spec fn file_items(ls: Seq<ListedEntry>) -> Seq<(Seq<char>, (Seq<char>, bool, u64))>
    decreases ls.len(),
{
    if ls.len() == 0 {
        Seq::empty()
    } else {
        let rest = file_items(ls.drop_last());
        let l = ls.last();
        if shown(l) && !l.metadata.unwrap().is_dir {
            rest.push((lowercase(l.name@), (l.name@, false, l.metadata.unwrap().len)))
        } else {
            rest
        }
    }
}

/// The `..` row, present when the directory has a parent.
pub open spec fn parent_rows(has_parent: bool) -> Seq<(Seq<char>, bool, u64)> {
    if has_parent {
        seq![(".."@, true, 0u64)]
    } else {
        Seq::empty()
    }
}

/// The rows for a listing: `..` when there is a parent, then the
/// directories, then the files, each group sorted by lower-cased name
/// (stable), dotfiles and entries without metadata left out.
pub open spec fn listing_rows(has_parent: bool, ls: Seq<ListedEntry>) -> Seq<(Seq<char>, bool, u64)> {
    parent_rows(has_parent) + sort_by_key(dir_items(ls)).map_values(
        |p: (Seq<char>, (Seq<char>, bool, u64))| p.1,
    ) + sort_by_key(file_items(ls)).map_values(|p: (Seq<char>, (Seq<char>, bool, u64))| p.1)
}

/// The parent directory of a path (`Path::parent`), a function of the
/// path alone.
pub uninterp spec fn path_parent(p: Seq<char>) -> Option<Seq<char>>;

/// Calls `std::path::Path::parent` on `p`: the path without its last
/// component, or `None` for a root or empty path. The contract names the
/// result `path_parent`.
#[verifier::external_body]
pub(crate) fn parent_of(p: &str) -> (r: Option<String>)
    ensures
        match r {
            Some(q) => path_parent(p@) == Some(q@),
            None => path_parent(p@) is None,
        },
{
    std::path::Path::new(p).parent().map(|q| q.to_string_lossy().into_owned())
}

/// Where a save from `fb` would write: the current directory joined with
/// the trimmed filename; nowhere without a filename field or with a
/// blank filename.
pub open spec fn save_target(fb: FileBrowser) -> Option<Seq<char>> {
    match fb.filename {
        Some(f) if trim(f.value@).len() > 0 => Some(path_join(fb.current_dir@, trim(f.value@))),
        _ => None,
    }
}

/// The last component of a path (`Path::file_name`), a function of the
/// path alone.
pub uninterp spec fn path_file_name(p: Seq<char>) -> Option<Seq<char>>;

/// Calls `std::path::Path::file_name` on `p`: its last component, `None`
/// when it ends in `..` or is a root. The contract names the result
/// `path_file_name`.
#[verifier::external_body]
pub(crate) fn file_name_of(p: &str) -> (r: Option<String>)
    ensures
        match r {
            Some(n) => path_file_name(p@) == Some(n@),
            None => path_file_name(p@) is None,
        },
{
    std::path::Path::new(p).file_name().map(|n| n.to_string_lossy().into_owned())
}

/// Key-and-row views of a list of keyed rows.
pub open spec fn keyed_view(v: Seq<(Vec<char>, BrowserEntry)>) -> Seq<
    (Seq<char>, (Seq<char>, bool, u64)),
> {
    v.map_values(|p: (Vec<char>, BrowserEntry)| (p.0@, entry_view(p.1)))
}

/// Inserts `x` into the key-sorted `v` after every entry whose key sorts
/// at or before `x`'s.
fn insert_keyed(v: &mut Vec<(Vec<char>, BrowserEntry)>, x: (Vec<char>, BrowserEntry))
    ensures
        keyed_view(final(v)@) == insert_by_key(keyed_view(old(v)@), (x.0@, entry_view(x.1))),
{
    let ghost before = keyed_view(v@);
    let mut p = v.len();
    while p > 0 && !lex_le_chars(&v[p - 1].0, &x.0)
        invariant
            p <= v@.len(),
            before == keyed_view(v@),
            forall|k: int| p <= k < v@.len() ==> !lex_le(#[trigger] v@[k].0@, x.0@),
        decreases p,
    {
        p -= 1;
    }
    let ghost item = (x.0@, entry_view(x.1));
    proof {
        lemma_insert_by_key_at(before, item, p as int);
    }
    v.insert(p, x);
    proof {
        assert(keyed_view(v@) =~= before.take(p as int).push(item) + before.skip(p as int));
    }
}

impl FileBrowser {
    /// Replaces the rows with those of a fresh listing of `current_dir`
    /// (see `listing_rows`), selecting the first; a failed listing leaves
    /// only the `..` row and records `"<dir>: <message>"` as the error.
    pub fn reload(&mut self, listing: Result<Vec<ListedEntry>, String>)
        ensures
            final(self).current_dir == old(self).current_dir,
            final(self).selected == 0,
            final(self).filename == old(self).filename,
            final(self).filename_focused == old(self).filename_focused,
            ({
                let has_parent = path_parent(old(self).current_dir@) is Some;
                match listing {
                    Ok(ls) => entries_view(final(self).entries@) == listing_rows(has_parent, ls@)
                        && final(self).error is None,
                    Err(msg) => entries_view(final(self).entries@) == parent_rows(has_parent)
                        && (final(self).error matches Some(e) && e@ == old(self).current_dir@
                        + ": "@ + msg@),
                }
            }),
    {
        let has_parent = match parent_of(self.current_dir.as_str()) {
            Some(_) => true,
            None => false,
        };
        let mut rows: Vec<BrowserEntry> = Vec::new();
        if has_parent {
            rows.push(BrowserEntry { name: String::from_str(".."), is_dir: true, size: 0 });
        }
        proof {
            assert(entries_view(rows@) =~= parent_rows(has_parent));
        }
        self.selected = 0;
        match listing {
            Err(msg) => {
                self.entries = rows;
                let mut e = self.current_dir.clone();
                e.append(": ");
                e.append(msg.as_str());
                self.error = Some(e);
            },
            Ok(ls) => {
                let mut dirs: Vec<(Vec<char>, BrowserEntry)> = Vec::new();
                let mut files: Vec<(Vec<char>, BrowserEntry)> = Vec::new();
                let mut i: usize = 0;
                while i < ls.len()
                    invariant
                        i <= ls@.len(),
                        keyed_view(dirs@) == sort_by_key(dir_items(ls@.take(i as int))),
                        keyed_view(files@) == sort_by_key(file_items(ls@.take(i as int))),
                    decreases ls@.len() - i,
                {
                    let l = &ls[i];
                    let ghost before_d = dir_items(ls@.take(i as int));
                    let ghost before_f = file_items(ls@.take(i as int));
                    proof {
                        assert(ls@.take(i + 1).drop_last() =~= ls@.take(i as int));
                        assert(ls@.take(i + 1).last() == ls@[i as int]);
                    }
                    let n = l.name.as_str().unicode_len();
                    let dot = n > 0 && l.name.as_str().get_char(0) == '.';
                    if !dot {
                        match l.metadata {
                            Some(m) => {
                                let key = chars_of(to_lowercase(l.name.as_str()).as_str());
                                if m.is_dir {
                                    let entry = BrowserEntry {
                                        name: l.name.clone(),
                                        is_dir: true,
                                        size: 0,
                                    };
                                    insert_keyed(&mut dirs, (key, entry));
                                    proof {
                                        let x = (lowercase(l.name@), (l.name@, true, 0u64));
                                        assert(before_d.push(x).drop_last() =~= before_d);
                                        assert(dir_items(ls@.take(i + 1)) == before_d.push(x));
                                    }
                                } else {
                                    let entry = BrowserEntry {
                                        name: l.name.clone(),
                                        is_dir: false,
                                        size: m.len,
                                    };
                                    insert_keyed(&mut files, (key, entry));
                                    proof {
                                        let x = (lowercase(l.name@), (l.name@, false, m.len));
                                        assert(before_f.push(x).drop_last() =~= before_f);
                                        assert(file_items(ls@.take(i + 1)) == before_f.push(x));
                                    }
                                }
                            },
                            None => {},
                        }
                    }
                    i += 1;
                }
                proof {
                    assert(ls@.take(ls@.len() as int) =~= ls@);
                }
                let ghost rows0 = entries_view(rows@);
                let mut k: usize = 0;
                while k < dirs.len()
                    invariant
                        k <= dirs@.len(),
                        entries_view(rows@) == rows0 + keyed_view(dirs@).take(k as int).map_values(
                            |p: (Seq<char>, (Seq<char>, bool, u64))| p.1,
                        ),
                    decreases dirs@.len() - k,
                {
                    let e = BrowserEntry {
                        name: dirs[k].1.name.clone(),
                        is_dir: dirs[k].1.is_dir,
                        size: dirs[k].1.size,
                    };
                    proof {
                        assert(entry_view(e) == keyed_view(dirs@)[k as int].1);
                        assert(keyed_view(dirs@).take(k + 1) =~= keyed_view(dirs@).take(
                            k as int,
                        ).push(keyed_view(dirs@)[k as int]));
                    }
                    let ghost old_rows = rows@;
                    let ghost ev = entry_view(e);
                    rows.push(e);
                    proof {
                        assert(entries_view(rows@) =~= entries_view(old_rows).push(ev));
                        assert(keyed_view(dirs@).take(k + 1).map_values(
                            |p: (Seq<char>, (Seq<char>, bool, u64))| p.1,
                        ) =~= keyed_view(dirs@).take(k as int).map_values(
                            |p: (Seq<char>, (Seq<char>, bool, u64))| p.1,
                        ).push(ev));
                    }
                    k += 1;
                    proof {
                        assert(entries_view(rows@) =~= rows0 + keyed_view(dirs@).take(
                            k as int,
                        ).map_values(|p: (Seq<char>, (Seq<char>, bool, u64))| p.1));
                    }
                }
                proof {
                    assert(keyed_view(dirs@).take(dirs@.len() as int) =~= keyed_view(dirs@));
                }
                let ghost rows1 = entries_view(rows@);
                let mut k: usize = 0;
                while k < files.len()
                    invariant
                        k <= files@.len(),
                        entries_view(rows@) == rows1 + keyed_view(files@).take(k as int).map_values(
                            |p: (Seq<char>, (Seq<char>, bool, u64))| p.1,
                        ),
                    decreases files@.len() - k,
                {
                    let e = BrowserEntry {
                        name: files[k].1.name.clone(),
                        is_dir: files[k].1.is_dir,
                        size: files[k].1.size,
                    };
                    proof {
                        assert(entry_view(e) == keyed_view(files@)[k as int].1);
                        assert(keyed_view(files@).take(k + 1) =~= keyed_view(files@).take(
                            k as int,
                        ).push(keyed_view(files@)[k as int]));
                    }
                    let ghost old_rows = rows@;
                    let ghost ev = entry_view(e);
                    rows.push(e);
                    proof {
                        assert(entries_view(rows@) =~= entries_view(old_rows).push(ev));
                        assert(keyed_view(files@).take(k + 1).map_values(
                            |p: (Seq<char>, (Seq<char>, bool, u64))| p.1,
                        ) =~= keyed_view(files@).take(k as int).map_values(
                            |p: (Seq<char>, (Seq<char>, bool, u64))| p.1,
                        ).push(ev));
                    }
                    k += 1;
                    proof {
                        assert(entries_view(rows@) =~= rows1 + keyed_view(files@).take(
                            k as int,
                        ).map_values(|p: (Seq<char>, (Seq<char>, bool, u64))| p.1));
                    }
                }
                proof {
                    assert(keyed_view(files@).take(files@.len() as int) =~= keyed_view(files@));
                }
                self.entries = rows;
                self.error = None;
            },
        }
    }

    /// A browser on `start_dir`, showing `listing` (see `reload`).
    pub fn open(start_dir: String, listing: Result<Vec<ListedEntry>, String>) -> (r: Self)
        ensures
            r.current_dir == start_dir,
            r.selected == 0,
            r.filename is None,
            !r.filename_focused,
            ({
                let has_parent = path_parent(start_dir@) is Some;
                match listing {
                    Ok(ls) => entries_view(r.entries@) == listing_rows(has_parent, ls@)
                        && r.error is None,
                    Err(msg) => entries_view(r.entries@) == parent_rows(has_parent)
                        && (r.error matches Some(e) && e@ == start_dir@ + ": "@ + msg@),
                }
            }),
    {
        let mut browser = FileBrowser {
            current_dir: start_dir,
            entries: Vec::new(),
            selected: 0,
            error: None,
            filename: None,
            filename_focused: false,
        };
        browser.reload(listing);
        browser
    }

    /// A save-location browser on `start_dir`, with the filename field
    /// prefilled with `default_filename` (cursor at its end).
    pub fn open_for_save(
        start_dir: String,
        listing: Result<Vec<ListedEntry>, String>,
        default_filename: String,
    ) -> (r: Self)
        ensures
            r.current_dir == start_dir,
            r.selected == 0,
            r.filename matches Some(f) && f.value@ == default_filename@ && f.cursor
                == default_filename@.len(),
            !r.filename_focused,
            ({
                let has_parent = path_parent(start_dir@) is Some;
                match listing {
                    Ok(ls) => entries_view(r.entries@) == listing_rows(has_parent, ls@)
                        && r.error is None,
                    Err(msg) => entries_view(r.entries@) == parent_rows(has_parent)
                        && (r.error matches Some(e) && e@ == start_dir@ + ": "@ + msg@),
                }
            }),
    {
        let mut browser = Self::open(start_dir, listing);
        browser.filename = Some(TextInput::with_value(default_filename.as_str()));
        browser
    }

    /// Moves the selection up, stopping at the first row.
    pub fn move_up(&mut self)
        ensures
            *final(self) == (FileBrowser { selected: (if old(self).selected > 0 {
                old(self).selected - 1
            } else {
                0
            }) as usize, ..*old(self) }),
    {
        if self.selected > 0 {
            self.selected = self.selected - 1;
        }
    }

    /// Moves the selection down, stopping at the last row.
    pub fn move_down(&mut self)
        ensures
            *final(self) == (FileBrowser { selected: (if old(self).entries@.len() == 0 {
                old(self).selected as int
            } else if old(self).selected + 1 < old(self).entries@.len() {
                old(self).selected + 1
            } else {
                old(self).entries@.len() - 1
            }) as usize, ..*old(self) }),
    {
        if self.entries.len() > 0 {
            self.selected = if self.selected < self.entries.len() - 1 {
                self.selected + 1
            } else {
                self.entries.len() - 1
            };
        }
    }

    /// Activates the selected row: a directory (including `..`, which
    /// goes to the parent, or stays put at a root) becomes the current
    /// directory, to be listed and handed to `reload`; a file gives its
    /// full path.
    pub fn activate(&mut self) -> (r: Activation)
        ensures
            old(self).selected >= old(self).entries@.len() ==> r is Nothing && *final(self) == *old(
                self,
            ),
            old(self).selected < old(self).entries@.len() ==> {
                let e = old(self).entries@[old(self).selected as int];
                let dir = old(self).current_dir@;
                &&& e.is_dir ==> r is Entered && final(self).current_dir@ == (if e.name@ == ".."@ {
                    match path_parent(dir) {
                        Some(p) => p,
                        None => dir,
                    }
                } else {
                    path_join(dir, e.name@)
                })
                &&& !e.is_dir ==> (r matches Activation::Picked(p) && p@ == path_join(dir, e.name@))
                    && final(self).current_dir == old(self).current_dir
            },
            *final(self) == (FileBrowser { current_dir: final(self).current_dir, ..*old(self) }),
    {
        if self.selected >= self.entries.len() {
            return Activation::Nothing;
        }
        let i = self.selected;
        if self.entries[i].is_dir {
            let new_dir = if str_eq(self.entries[i].name.as_str(), "..") {
                match parent_of(self.current_dir.as_str()) {
                    Some(p) => p,
                    None => self.current_dir.clone(),
                }
            } else {
                join_path(self.current_dir.as_str(), self.entries[i].name.as_str())
            };
            self.current_dir = new_dir;
            Activation::Entered
        } else {
            Activation::Picked(join_path(self.current_dir.as_str(), self.entries[i].name.as_str()))
        }
    }

    /// Where a save would write: the current directory joined with the
    /// trimmed filename; `None` without a filename field or with a blank
    /// filename.
    pub fn save_path(&self) -> (r: Option<String>)
        ensures
            match save_target(*self) {
                Some(t) => r matches Some(p) && p@ == t,
                None => r is None,
            },
    {
        match &self.filename {
            Some(f) => {
                let v = chars_of(f.value.as_str());
                let (a, b) = trim_bounds(&v);
                if a < b {
                    let name = crate::text::substring(f.value.as_str(), a, b);
                    Some(join_path(self.current_dir.as_str(), name.as_str()))
                } else {
                    None
                }
            },
            None => None,
        }
    }

    /// Switches focus between the list and the filename field, when there
    /// is one.
    pub fn toggle_focus(&mut self)
        ensures
            *final(self) == (FileBrowser { filename_focused: (if old(self).filename is Some {
                !old(self).filename_focused
            } else {
                old(self).filename_focused
            }), ..*old(self) }),
    {
        if self.filename.is_some() {
            self.filename_focused = !self.filename_focused;
        }
    }
}

} // verus!
