//! Attaching files to a message being composed: checking a chosen path,
//! and shell-like Tab completion of a typed path. The caller looks at the
//! file system; this module decides what the answers mean.

use vstd::prelude::*;

use crate::config::{join_path, path_join};
use crate::filebrowser::{file_name_of, parent_of, path_file_name, path_parent};
use crate::text::{
    chars_of, has_prefix, insert_by_key, lex_le, lex_le_chars, push_char, sort_by_key,
    str_starts_with, strings_view, substring, trim, trimmed,
};

verus! {

/// A file chosen for attachment: where it is, the name it is sent under,
/// and its size.
#[derive(Debug)]
pub struct AttachmentEntry {
    pub path: String,
    pub filename: String,
    pub size_bytes: u64,
}

/// The most the attachments of one message may add up to, in bytes.
pub const MAX_ATTACHMENTS_BYTES: u64 = 20971520;

/// `input` with a leading `~` (alone or before a `/`) replaced by the
/// home directory, when there is one.
pub open spec fn expanded(input: Seq<char>, home: Option<Seq<char>>) -> Seq<char> {
    if input.len() > 0 && input[0] == '~' && (input.len() == 1 || input[1] == '/')
        && home is Some {
        path_join(home.unwrap(), strip_slashes(input.skip(1)))
    } else {
        input
    }
}

/// `s` without its leading `/` characters.
pub open spec fn strip_slashes(s: Seq<char>) -> Seq<char>
    decreases s.len(),
{
    if s.len() > 0 && s[0] == '/' {
        strip_slashes(s.drop_first())
    } else {
        s
    }
}

proof fn lemma_strip_slashes(s: Seq<char>, k: int)
    requires
        0 <= k <= s.len(),
        forall|j: int| 0 <= j < k ==> s[j] == '/',
        k < s.len() ==> s[k] != '/',
    ensures
        strip_slashes(s) == s.skip(k),
    decreases s.len(),
{
    if k == 0 {
        assert(s.skip(0) =~= s);
    } else {
        let t = s.drop_first();
        assert forall|j: int| 0 <= j < k - 1 implies t[j] == '/' by {
            assert(t[j] == s[j + 1]);
        }
        if k - 1 < t.len() {
            assert(t[k - 1] == s[k]);
        }
        lemma_strip_slashes(t, k - 1);
        assert(t.skip(k - 1) =~= s.skip(k));
    }
}

/// Expands a leading `~` to `home` (see `expanded`), the one shell
/// convenience worth having in a plain path field.
pub fn expand_tilde(input: &str, home: Option<&str>) -> (r: String)
    ensures
        r@ == expanded(
            input@,
            match home {
                Some(h) => Some(h@),
                None => None,
            },
        ),
{
    let v = chars_of(input);
    if v.len() > 0 && v[0] == '~' && (v.len() == 1 || v[1] == '/') {
        match home {
            Some(h) => {
                let mut k: usize = 1;
                while k < v.len() && v[k] == '/'
                    invariant
                        1 <= k <= v@.len(),
                        forall|j: int| 1 <= j < k ==> v@[j] == '/',
                    decreases v@.len() - k,
                {
                    k += 1;
                }
                proof {
                    let t = v@.skip(1);
                    assert forall|j: int| 0 <= j < k - 1 implies t[j] == '/' by {
                        assert(t[j] == v@[j + 1]);
                    }
                    if k < v@.len() {
                        assert(t[k - 1] == v@[k as int]);
                    }
                    lemma_strip_slashes(t, k - 1);
                    assert(t.skip(k - 1) =~= v@.subrange(k as int, v@.len() as int));
                }
                let rest = substring(input, k, v.len());
                return join_path(h, rest.as_str());
            },
            None => {},
        }
    }
    String::from_str(input)
}

/// The path a typed attachment path names: the trimmed input with `~`
/// expanded; a blank input is refused with `"enter a file path"`.
pub fn resolve_input(input: &str, home: Option<&str>) -> (r: Result<String, String>)
    ensures
        trim(input@).len() == 0 <==> r is Err,
        r matches Err(e) ==> e@ == "enter a file path"@,
        r matches Ok(p) ==> p@ == expanded(
            trim(input@),
            match home {
                Some(h) => Some(h@),
                None => None,
            },
        ),
{
    let t = trimmed(input);
    if t.unicode_len() == 0 {
        return Err(String::from_str("enter a file path"));
    }
    Ok(expand_tilde(t.as_str(), home))
}

/// What looking up a path found: a directory or a file of some size, or
/// the reason it could not be read.
#[derive(Debug, Clone, Copy, PartialEq, Eq, Structural)]
pub struct FileStat {
    pub is_dir: bool,
    pub len: u64,
}

/// The name a file is attached under: the path's last component, or the
/// typed text when there is none.
pub open spec fn attach_name(path: Seq<char>, typed: Seq<char>) -> Seq<char> {
    match path_file_name(path) {
        Some(n) => n,
        None => typed,
    }
}

/// The verdict on attaching the file at `path` (typed as `typed`) given
/// what looking it up found, with `existing_total` bytes attached
/// already: an unreadable path gives `"<path>: <reason>"`; a directory
/// gives `"<path> is a directory"`; a file that would take the total
/// past `MAX_ATTACHMENTS_BYTES` gives `"<name> would exceed the 20MB
/// attachment limit"`; anything else is attached under `attach_name`.
pub fn checked_attachment(
    path: &str,
    typed: &str,
    stat: Result<FileStat, String>,
    existing_total: u64,
) -> (r: Result<AttachmentEntry, String>)
    ensures
        match stat {
            Err(reason) => r matches Err(e) && e@ == path@ + ": "@ + reason@,
            Ok(st) => if st.is_dir {
                r matches Err(e) && e@ == path@ + " is a directory"@
            } else if existing_total + st.len > MAX_ATTACHMENTS_BYTES {
                r matches Err(e) && e@ == attach_name(path@, typed@)
                    + " would exceed the 20MB attachment limit"@
            } else {
                r matches Ok(a) && a.path@ == path@ && a.filename@ == attach_name(path@, typed@)
                    && a.size_bytes == st.len
            },
        },
{
    match stat {
        Err(reason) => {
            let mut e = String::from_str(path);
            e.append(": ");
            e.append(reason.as_str());
            Err(e)
        },
        Ok(st) => {
            if st.is_dir {
                let mut e = String::from_str(path);
                e.append(" is a directory");
                return Err(e);
            }
            let name = match file_name_of(path) {
                Some(n) => n,
                None => String::from_str(typed),
            };
            if st.len > MAX_ATTACHMENTS_BYTES || existing_total > MAX_ATTACHMENTS_BYTES - st.len {
                let mut e = name;
                e.append(" would exceed the 20MB attachment limit");
                return Err(e);
            }
            Ok(AttachmentEntry { path: String::from_str(path), filename: name, size_bytes: st.len })
        },
    }
}

/// The directory to list and the partial last component for completing
/// `input` (`~` expanded): for an input ending in `/`, that directory and
/// nothing; otherwise the parent and the last component. An empty
/// directory means the current one.
pub fn completion_target(input: &str, home: Option<&str>) -> (r: (String, String))
    ensures
        ({
            let ex = expanded(
                input@,
                match home {
                    Some(h) => Some(h@),
                    None => None,
                },
            );
            let ends_slash = input@.len() > 0 && input@.last() == '/';
            let dir = if ends_slash {
                ex
            } else {
                match path_parent(ex) {
                    Some(p) => p,
                    None => Seq::empty(),
                }
            };
            let partial = if ends_slash {
                Seq::empty()
            } else {
                match path_file_name(ex) {
                    Some(n) => n,
                    None => Seq::empty(),
                }
            };
            &&& r.0@ == (if dir.len() == 0 {
                seq!['.']
            } else {
                dir
            })
            &&& r.1@ == partial
        }),
{
    let ex = expand_tilde(input, home);
    let n = input.unicode_len();
    let ends_slash = n > 0 && input.get_char(n - 1) == '/';
    let (dir, partial) = if ends_slash {
        (ex, String::new())
    } else {
        let d = match parent_of(ex.as_str()) {
            Some(p) => p,
            None => String::new(),
        };
        let p = match file_name_of(ex.as_str()) {
            Some(f) => f,
            None => String::new(),
        };
        (d, p)
    };
    if dir.unicode_len() == 0 {
        let mut dot = String::new();
        push_char(&mut dot, '.');
        (dot, partial)
    } else {
        (dir, partial)
    }
}

/// The completion candidates in a listing: names starting with
/// `partial`, directories with a `/` appended, in listing order.
pub open spec fn completion_candidates(entries: Seq<(Seq<char>, bool)>, partial: Seq<char>) -> Seq<
    Seq<char>,
>
    decreases entries.len(),
{
    if entries.len() == 0 {
        Seq::empty()
    } else {
        let r = completion_candidates(entries.drop_last(), partial);
        let e = entries.last();
        if has_prefix(e.0, partial) {
            r.push(
                if e.1 {
                    e.0.push('/')
                } else {
                    e.0
                },
            )
        } else {
            r
        }
    }
}

/// Strings sorted (as `str` orders them), keyed by themselves.
pub open spec fn sorted_strings(v: Seq<Seq<char>>) -> Seq<Seq<char>> {
    sort_by_key(v.map_values(|s: Seq<char>| (s, s))).map_values(|p: (Seq<char>, Seq<char>)| p.1)
}

/// The length of the longest common prefix of `a` and `b`.
pub open spec fn common_len(a: Seq<char>, b: Seq<char>) -> nat
    decreases a.len(),
{
    if a.len() > 0 && b.len() > 0 && a[0] == b[0] {
        1 + common_len(a.drop_first(), b.drop_first())
    } else {
        0
    }
}

/// The longest prefix shared by all of `v` (empty for an empty list).
pub open spec fn common_prefix(v: Seq<Seq<char>>) -> Seq<char>
    decreases v.len(),
{
    if v.len() == 0 {
        Seq::empty()
    } else if v.len() == 1 {
        v[0]
    } else {
        let p = common_prefix(v.drop_last());
        p.take(common_len(p, v.last()) as int)
    }
}

proof fn lemma_common_len(a: Seq<char>, b: Seq<char>, k: int)
    requires
        0 <= k <= a.len(),
        k <= b.len(),
        forall|j: int| 0 <= j < k ==> a[j] == b[j],
        k < a.len() && k < b.len() ==> a[k] != b[k],
    ensures
        common_len(a, b) == k,
    decreases a.len(),
{
    if k > 0 {
        assert(a[0] == b[0]);
        let a1 = a.drop_first();
        let b1 = b.drop_first();
        assert forall|j: int| 0 <= j < k - 1 implies a1[j] == b1[j] by {
            assert(a1[j] == a[j + 1] && b1[j] == b[j + 1]);
        }
        if k - 1 < a1.len() && k - 1 < b1.len() {
            assert(a1[k - 1] == a[k] && b1[k - 1] == b[k]);
        }
        lemma_common_len(a1, b1, k - 1);
    }
}

/// The longest prefix all of `strings` share, counted in characters.
pub fn longest_common_prefix(strings: &Vec<String>) -> (r: String)
    ensures
        r@ == common_prefix(strings_view(strings@)),
{
    if strings.len() == 0 {
        return String::new();
    }
    let ghost sv = strings_view(strings@);
    let first = chars_of(strings[0].as_str());
    let mut prefix_len: usize = first.len();
    let mut i: usize = 1;
    proof {
        assert(sv.take(1).len() == 1);
        assert(first@.take(prefix_len as int) =~= first@);
    }
    while i < strings.len()
        invariant
            1 <= i <= strings@.len(),
            sv == strings_view(strings@),
            first@ == sv[0],
            prefix_len <= first@.len(),
            first@.take(prefix_len as int) == common_prefix(sv.take(i as int)),
        decreases strings@.len() - i,
    {
        let s = chars_of(strings[i].as_str());
        let p = prefix_len;
        let mut k: usize = 0;
        while k < p && k < s.len() && first[k] == s[k]
            invariant
                k <= p,
                p <= first@.len(),
                k <= s@.len(),
                forall|j: int| 0 <= j < k ==> first@[j] == s@[j],
            decreases p - k,
        {
            k += 1;
        }
        proof {
            let pre = first@.take(p as int);
            let t = sv.take(i + 1);
            assert(t.drop_last() =~= sv.take(i as int));
            assert(t.last() == s@);
            assert forall|j: int| 0 <= j < k implies pre[j] == s@[j] by {}
            lemma_common_len(pre, s@, k as int);
            assert(pre.take(k as int) =~= first@.take(k as int));
        }
        prefix_len = k;
        i += 1;
    }
    proof {
        assert(sv.take(strings@.len() as int) =~= sv);
    }
    substring(strings[0].as_str(), 0, prefix_len)
}

/// Keyed views of a list of strings.
pub open spec fn self_keyed(v: Seq<(Vec<char>, String)>) -> Seq<(Seq<char>, Seq<char>)> {
    v.map_values(|p: (Vec<char>, String)| (p.0@, p.1@))
}

fn insert_sorted(v: &mut Vec<(Vec<char>, String)>, x: (Vec<char>, String))
    ensures
        self_keyed(final(v)@) == insert_by_key(self_keyed(old(v)@), (x.0@, x.1@)),
{
    let ghost before = self_keyed(v@);
    let mut p = v.len();
    while p > 0 && !lex_le_chars(&v[p - 1].0, &x.0)
        invariant
            p <= v@.len(),
            before == self_keyed(v@),
            forall|k: int| p <= k < v@.len() ==> !lex_le(#[trigger] v@[k].0@, x.0@),
        decreases p,
    {
        p -= 1;
    }
    let ghost item = (x.0@, x.1@);
    proof {
        crate::text::lemma_insert_by_key_at(before, item, p as int);
    }
    v.insert(p, x);
    proof {
        assert(self_keyed(v@) =~= before.take(p as int).push(item) + before.skip(p as int));
    }
}

/// Sorts strings (see `sorted_strings`).
pub fn sort_strings(v: &Vec<String>) -> (r: Vec<String>)
    ensures
        strings_view(r@) == sorted_strings(strings_view(v@)),
{
    let ghost sv = strings_view(v@);
    let mut sorted: Vec<(Vec<char>, String)> = Vec::new();
    let mut i: usize = 0;
    while i < v.len()
        invariant
            i <= v@.len(),
            sv == strings_view(v@),
            self_keyed(sorted@) == sort_by_key(sv.map_values(|s: Seq<char>| (s, s)).take(i as int)),
        decreases v@.len() - i,
    {
        proof {
            let t = sv.map_values(|s: Seq<char>| (s, s)).take(i + 1);
            assert(t.drop_last() =~= sv.map_values(|s: Seq<char>| (s, s)).take(i as int));
            assert(t.last() == (v@[i as int]@, v@[i as int]@));
        }
        let key = chars_of(v[i].as_str());
        insert_sorted(&mut sorted, (key, v[i].clone()));
        i += 1;
    }
    proof {
        assert(sv.map_values(|s: Seq<char>| (s, s)).take(v@.len() as int) =~= sv.map_values(
            |s: Seq<char>| (s, s),
        ));
    }
    let ghost kv = self_keyed(sorted@);
    let mut out: Vec<String> = Vec::new();
    let mut k: usize = 0;
    while k < sorted.len()
        invariant
            k <= sorted@.len(),
            kv == self_keyed(sorted@),
            strings_view(out@) == kv.take(k as int).map_values(|p: (Seq<char>, Seq<char>)| p.1),
        decreases sorted@.len() - k,
    {
        let ghost before = strings_view(out@);
        out.push(sorted[k].1.clone());
        proof {
            assert(strings_view(out@) =~= before.push(kv[k as int].1));
            assert(kv.take(k + 1).map_values(|p: (Seq<char>, Seq<char>)| p.1) =~= kv.take(
                k as int,
            ).map_values(|p: (Seq<char>, Seq<char>)| p.1).push(kv[k as int].1));
        }
        k += 1;
    }
    proof {
        assert(kv.take(sorted@.len() as int) =~= kv);
    }
    out
}

/// The completion of `input` (whose last component is `partial`) against
/// a listing of `(name, is_dir)` entries: the single candidate, or the
/// longest common prefix of the sorted candidates (see
/// `completion_candidates`), put in place of `partial` at the end of
/// `input`; nothing when the listing failed, nothing matches, or the
/// completion adds nothing.
pub open spec fn completion(input: Seq<char>, partial: Seq<char>, entries: Option<Seq<(Seq<char>, bool)>>) -> Option<Seq<char>> {
    match entries {
        None => None,
        Some(es) => {
            let m = sorted_strings(completion_candidates(es, partial));
            if m.len() == 0 {
                None
            } else {
                let suffix = if m.len() == 1 {
                    m[0]
                } else {
                    common_prefix(m)
                };
                if suffix.len() == 0 || suffix == partial {
                    None
                } else {
                    let base = if input.len() >= partial.len() && input.skip(
                        input.len() - partial.len(),
                    ) == partial {
                        input.take(input.len() - partial.len())
                    } else {
                        input
                    };
                    Some(base + suffix)
                }
            }
        },
    }
}

/// Views of a listing.
pub open spec fn listing_view(v: Seq<(String, bool)>) -> Seq<(Seq<char>, bool)> {
    v.map_values(|e: (String, bool)| (e.0@, e.1))
}

/// Shell-style Tab completion of `input` from a listing of the directory
/// it points into (see `completion` and `completion_target`).
pub fn complete(input: &str, partial: &str, entries: Option<Vec<(String, bool)>>) -> (r: Option<String>)
    ensures
        match r {
            Some(c) => completion(
                input@,
                partial@,
                match entries {
                    Some(es) => Some(listing_view(es@)),
                    None => None,
                },
            ) == Some(c@),
            None => completion(
                input@,
                partial@,
                match entries {
                    Some(es) => Some(listing_view(es@)),
                    None => None,
                },
            ) is None,
        },
{
    let es = match entries {
        Some(es) => es,
        None => {
            return None;
        },
    };
    let ghost ev = listing_view(es@);
    let mut cands: Vec<String> = Vec::new();
    let mut i: usize = 0;
    while i < es.len()
        invariant
            i <= es@.len(),
            ev == listing_view(es@),
            strings_view(cands@) == completion_candidates(ev.take(i as int), partial@),
        decreases es@.len() - i,
    {
        proof {
            let t = ev.take(i + 1);
            assert(t.drop_last() =~= ev.take(i as int));
            assert(t.last() == (es@[i as int].0@, es@[i as int].1));
        }
        let name = &es[i].0;
        if str_starts_with(name.as_str(), partial) {
            let ghost before = strings_view(cands@);
            let mut c = name.clone();
            if es[i].1 {
                push_char(&mut c, '/');
            }
            cands.push(c);
            proof {
                assert(strings_view(cands@) =~= before.push(
                    if es@[i as int].1 {
                        es@[i as int].0@.push('/')
                    } else {
                        es@[i as int].0@
                    },
                ));
            }
        }
        i += 1;
    }
    proof {
        assert(ev.take(es@.len() as int) =~= ev);
    }
    let matches = sort_strings(&cands);
    if matches.len() == 0 {
        return None;
    }
    let suffix = if matches.len() == 1 {
        matches[0].clone()
    } else {
        longest_common_prefix(&matches)
    };
    if suffix.unicode_len() == 0 || crate::text::str_eq(suffix.as_str(), partial) {
        return None;
    }
    let n = input.unicode_len();
    let pn = partial.unicode_len();
    let base = if n >= pn {
        let tail = substring(input, n - pn, n);
        if crate::text::str_eq(tail.as_str(), partial) {
            proof {
                assert(input@.subrange(n - pn, n as int) =~= input@.skip(n - pn));
                assert(input@.subrange(0, n - pn) =~= input@.take(n - pn));
            }
            substring(input, 0, n - pn)
        } else {
            proof {
                assert(input@.subrange(n - pn, n as int) =~= input@.skip(n - pn));
            }
            String::from_str(input)
        }
    } else {
        String::from_str(input)
    };
    let mut out = base;
    out.append(suffix.as_str());
    Some(out)
}

} // verus!
