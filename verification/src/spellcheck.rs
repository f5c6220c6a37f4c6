//! Compose's spellcheck, driven through the system `hunspell` binary in
//! its pipe (`-a`) mode. The process itself is run by the caller; this
//! module holds what is decided around it: which locale to name, how a
//! response line reads, and how a flagged word is normalized for lookup.

use vstd::prelude::*;

use crate::attach::{listing_view, sort_strings, sorted_strings};
use crate::config::{join_path, path_join};
use crate::text::{
    alphanumeric, chars_of, find_char, first_word, first_word_of, has_char, has_prefix,
    is_alphanumeric, is_whitespace, lowercase, push_char, skip_ws_forward, split_char,
    split_on_char, str_starts_with, strings_view, substring, to_lowercase, trim, trim_bounds,
    trimmed, before_char, is_ws,
};

verus! {

/// One word Hunspell flagged as misspelled, with the corrections it
/// suggested (empty when it had none).
#[derive(Debug, Clone, PartialEq, Eq)]
pub struct Misspelling {
    pub word: String,
    pub suggestions: Vec<String>,
}

/// The part of a POSIX locale string before its first `.` or `@`
/// (the encoding and modifier suffixes).
pub open spec fn locale_base(raw: Seq<char>) -> Seq<char>
    decreases raw.len(),
{
    if raw.len() == 0 {
        raw
    } else if raw[0] == '.' || raw[0] == '@' {
        Seq::empty()
    } else {
        seq![raw[0]] + locale_base(raw.drop_first())
    }
}

/// The code of `c` folded to ASCII lower case (other characters unchanged).
pub open spec fn ascii_lower(c: char) -> int {
    if 'A' <= c && c <= 'Z' {
        c as int + 32
    } else {
        c as int
    }
}

/// `a` and `b` are equal up to ASCII case (`str::eq_ignore_ascii_case`).
pub open spec fn eq_ignore_ascii_case(a: Seq<char>, b: Seq<char>) -> bool {
    a.len() == b.len() && forall|i: int| 0 <= i < a.len() ==> ascii_lower(a[i]) == ascii_lower(b[i])
}

/// The `language_COUNTRY` part of a locale string, or `None` for a blank
/// one or the placeholder `C`/`POSIX` locale (in any ASCII case).
pub open spec fn locale_of(raw: Seq<char>) -> Option<Seq<char>> {
    let base = trim(locale_base(raw));
    if base.len() == 0 || eq_ignore_ascii_case(base, seq!['C']) || eq_ignore_ascii_case(
        base,
        seq!['P', 'O', 'S', 'I', 'X'],
    ) {
        None
    } else {
        Some(base)
    }
}

/// `locale_base` ends at the first `.` or `@`.
proof fn lemma_locale_base(s: Seq<char>, k: int)
    requires
        0 <= k <= s.len(),
        forall|j: int| 0 <= j < k ==> s[j] != '.' && s[j] != '@',
        k < s.len() ==> (s[k] == '.' || s[k] == '@'),
    ensures
        locale_base(s) == s.take(k),
    decreases s.len(),
{
    if s.len() == 0 {
        assert(s.take(k) =~= s);
    } else if k == 0 {
        assert(s.take(0) =~= Seq::<char>::empty());
    } else {
        let t = s.drop_first();
        assert forall|j: int| 0 <= j < k - 1 implies t[j] != '.' && t[j] != '@' by {
            assert(t[j] == s[j + 1]);
        }
        lemma_locale_base(t, k - 1);
        assert(seq![s[0]] + t.take(k - 1) =~= s.take(k));
    }
}

/// The ASCII-lower-cased code of `c`.
fn ascii_lower_code(c: char) -> (r: u32)
    ensures
        r == ascii_lower(c),
{
    if 'A' <= c && c <= 'Z' {
        (c as u32) + 32
    } else {
        c as u32
    }
}

/// Whether `a` and `b` are equal up to ASCII case.
fn ascii_case_eq(a: &Vec<char>, b: &Vec<char>) -> (r: bool)
    ensures
        r == eq_ignore_ascii_case(a@, b@),
{
    if a.len() != b.len() {
        return false;
    }
    let mut i: usize = 0;
    while i < a.len()
        invariant
            a@.len() == b@.len(),
            i <= a@.len(),
            forall|j: int| 0 <= j < i ==> ascii_lower(a@[j]) == ascii_lower(b@[j]),
        decreases a@.len() - i,
    {
        if ascii_lower_code(a[i]) != ascii_lower_code(b[i]) {
            return false;
        }
        i += 1;
    }
    true
}

/// Strips the encoding/modifier suffix from a POSIX locale string
/// (`"de_DE.UTF-8@euro"` gives `"de_DE"`), rejecting the placeholder
/// `C`/`POSIX` locale and blank strings, which name no language.
pub fn normalize_locale(raw: &str) -> (r: Option<String>)
    ensures
        match r {
            Some(b) => locale_of(raw@) == Some(b@),
            None => locale_of(raw@) is None,
        },
{
    let v = chars_of(raw);
    let mut k: usize = 0;
    while k < v.len() && v[k] != '.' && v[k] != '@'
        invariant
            k <= v@.len(),
            forall|j: int| 0 <= j < k ==> v@[j] != '.' && v@[j] != '@',
        decreases v@.len() - k,
    {
        k += 1;
    }
    proof {
        lemma_locale_base(v@, k as int);
    }
    let base_raw = substring(raw, 0, k);
    let base = trimmed(base_raw.as_str());
    let bv = chars_of(base.as_str());
    let c = vec!['C'];
    let posix = vec!['P', 'O', 'S', 'I', 'X'];
    proof {
        assert(c@ =~= seq!['C']);
        assert(posix@ =~= seq!['P', 'O', 'S', 'I', 'X']);
        assert(v@.subrange(0, k as int) =~= v@.take(k as int));
    }
    if bv.len() == 0 || ascii_case_eq(&bv, &c) || ascii_case_eq(&bv, &posix) {
        None
    } else {
        Some(base)
    }
}

/// The environment variables consulted for the locale, in the order the
/// C library resolves them.
pub open spec fn locale_var(k: int) -> &'static str {
    if k == 0 {
        "LC_ALL"
    } else if k == 1 {
        "LC_MESSAGES"
    } else {
        "LANG"
    }
}

/// The first usable locale among looked-up variable values.
pub open spec fn first_locale(vals: Seq<Option<String>>) -> Option<Seq<char>>
    decreases vals.len(),
{
    if vals.len() == 0 {
        None
    } else {
        let here = match vals[0] {
            Some(v) => locale_of(v@),
            None => None,
        };
        match here {
            Some(l) => Some(l),
            None => first_locale(vals.drop_first()),
        }
    }
}

/// The locale named when no variable gives a usable one.
pub open spec fn fallback_locale() -> Seq<char> {
    seq!['e', 'n', '_', 'U', 'S']
}

/// `first_locale` over one more value.
proof fn lemma_first_locale_push(vals: Seq<Option<String>>, v: Option<String>)
    requires
        first_locale(vals) is None,
    ensures
        first_locale(vals.push(v)) == (match v {
            Some(s) => locale_of(s@),
            None => None,
        }),
    decreases vals.len(),
{
    assert(vals.push(v)[0] == (if vals.len() > 0 { vals[0] } else { v }));
    if vals.len() > 0 {
        assert(vals.push(v).drop_first() =~= vals.drop_first().push(v));
        lemma_first_locale_push(vals.drop_first(), v);
    } else {
        assert(vals.push(v).drop_first() =~= Seq::<Option<String>>::empty());
        assert(first_locale(Seq::<Option<String>>::empty()) is None);
    }
}

/// Reads `LC_ALL`, then `LC_MESSAGES`, then `LANG` through `get_env`
/// and gives the first usable locale (see `normalize_locale`), or
/// `"en_US"` when none is set to one. Stops looking at the first hit.
pub fn detect_locale_from(get_env: impl Fn(&str) -> Option<String>) -> (r: String)
    requires
        forall|name: &str| call_requires(get_env, (name,)),
    ensures
        exists|vals: Seq<Option<String>>|
            {
                &&& 1 <= vals.len() <= 3
                &&& forall|k: int|
                    0 <= k < vals.len() ==> call_ensures(get_env, (locale_var(k),), #[trigger] vals[k])
                &&& vals.len() < 3 ==> first_locale(vals) is Some
                &&& r@ == match first_locale(vals) {
                    Some(l) => l,
                    None => fallback_locale(),
                }
            },
{
    let ghost mut vals: Seq<Option<String>> = Seq::empty();
    let mut i: usize = 0;
    while i < 3
        invariant
            i <= 3,
            vals.len() == i,
            forall|name: &str| call_requires(get_env, (name,)),
            forall|k: int| 0 <= k < vals.len() ==> call_ensures(get_env, (locale_var(k),), #[trigger] vals[k]),
            first_locale(vals) is None,
        decreases 3 - i,
    {
        let name: &str = if i == 0 {
            "LC_ALL"
        } else if i == 1 {
            "LC_MESSAGES"
        } else {
            "LANG"
        };
        let value = get_env(name);
        let ghost old_vals = vals;
        proof {
            lemma_first_locale_push(vals, value);
            vals = vals.push(value);
            assert(vals[i as int] == value);
        }
        let found = match &value {
            Some(v) => normalize_locale(v.as_str()),
            None => None,
        };
        match found {
            Some(l) => {
                proof {
                    assert(forall|k: int| 0 <= k < old_vals.len() ==> vals[k] == old_vals[k]);
                    assert(first_locale(vals) == Some(l@));
                    assert({
                        &&& 1 <= vals.len() <= 3
                        &&& forall|k: int|
                            0 <= k < vals.len() ==> call_ensures(get_env, (locale_var(k),), #[trigger] vals[k])
                        &&& vals.len() < 3 ==> first_locale(vals) is Some
                        &&& l@ == match first_locale(vals) {
                            Some(x) => x,
                            None => fallback_locale(),
                        }
                    });
                }
                return l;
            },
            None => {},
        }
        i += 1;
    }
    let r = String::from_str("en_US");
    proof {
        reveal_strlit("en_US");
        assert(r@ =~= fallback_locale());
        assert({
            &&& 1 <= vals.len() <= 3
            &&& forall|k: int|
                0 <= k < vals.len() ==> call_ensures(get_env, (locale_var(k),), #[trigger] vals[k])
            &&& vals.len() < 3 ==> first_locale(vals) is Some
            &&& r@ == match first_locale(vals) {
                Some(x) => x,
                None => fallback_locale(),
            }
        });
    }
    r
}

/// Where a Linux system normally installs Hunspell/MySpell dictionaries.
pub fn default_search_dirs() -> (r: Vec<String>)
    ensures
        strings_view(r@) == seq![
            "/usr/share/hunspell"@,
            "/usr/share/myspell/dicts"@,
            "/usr/local/share/hunspell"@,
        ],
{
    let r = vec![
        String::from_str("/usr/share/hunspell"),
        String::from_str("/usr/share/myspell/dicts"),
        String::from_str("/usr/local/share/hunspell"),
    ];
    proof {
        assert(strings_view(r@) =~= seq![
            "/usr/share/hunspell"@,
            "/usr/share/myspell/dicts"@,
            "/usr/local/share/hunspell"@,
        ]);
    }
    r
}

/// The pieces of a suggestion list that survive trimming: each piece
/// trimmed, blank ones dropped, order kept.
pub open spec fn kept_pieces(ps: Seq<Seq<char>>) -> Seq<Seq<char>>
    decreases ps.len(),
{
    if ps.len() == 0 {
        Seq::empty()
    } else {
        let r = kept_pieces(ps.drop_last());
        let t = trim(ps.last());
        if t.len() > 0 {
            r.push(t)
        } else {
            r
        }
    }
}

/// What one line of Hunspell's `-a` output says: the flagged word and its
/// suggestions for a `& word count offset: s1, s2` line, the word and no
/// suggestions for a `# word offset` line, nothing for anything else
/// (`*`, `+`, `-` matches, blank lines, malformed lines).
pub open spec fn response_misspelling(line: Seq<char>) -> Option<(Seq<char>, Seq<Seq<char>>)> {
    if has_prefix(line, seq!['&', ' ']) {
        let rest = line.skip(2);
        if has_char(rest, ':') {
            let head = before_char(rest, ':');
            let sugg = rest.skip(head.len() + 1int);
            match first_word(head) {
                Some(w) => Some((w, kept_pieces(split_char(sugg, ',')))),
                None => None,
            }
        } else {
            None
        }
    } else if has_prefix(line, seq!['#', ' ']) {
        match first_word(line.skip(2)) {
            Some(w) => Some((w, Seq::empty())),
            None => None,
        }
    } else {
        None
    }
}

/// Word and suggestions of a `Misspelling`.
pub open spec fn misspelling_view(m: Misspelling) -> (Seq<char>, Seq<Seq<char>>) {
    (m.word@, strings_view(m.suggestions@))
}

/// Trims and filters comma-separated pieces (see `kept_pieces`).
fn keep_pieces(ps: &Vec<String>) -> (r: Vec<String>)
    ensures
        strings_view(r@) == kept_pieces(strings_view(ps@)),
{
    let mut r: Vec<String> = Vec::new();
    let mut i: usize = 0;
    while i < ps.len()
        invariant
            i <= ps@.len(),
            strings_view(r@) == kept_pieces(strings_view(ps@).take(i as int)),
        decreases ps@.len() - i,
    {
        proof {
            let t = strings_view(ps@).take(i + 1);
            assert(t.drop_last() =~= strings_view(ps@).take(i as int));
            assert(t.last() == ps@[i as int]@);
        }
        let t = trimmed(ps[i].as_str());
        if t.unicode_len() > 0 {
            let ghost before = strings_view(r@);
            r.push(t);
            proof {
                assert(strings_view(r@) =~= before.push(t@));
            }
        }
        i += 1;
    }
    proof {
        assert(strings_view(ps@).take(ps@.len() as int) =~= strings_view(ps@));
    }
    r
}

/// Parses one line of Hunspell's `-a` pipe output (see
/// `response_misspelling`).
pub fn parse_response_line(line: &str) -> (r: Option<Misspelling>)
    ensures
        match r {
            Some(m) => response_misspelling(line@) == Some(misspelling_view(m)),
            None => response_misspelling(line@) is None,
        },
{
    let amp = String::from_str("& ");
    let hash = String::from_str("# ");
    proof {
        reveal_strlit("& ");
        reveal_strlit("# ");
        assert(amp@ =~= seq!['&', ' ']);
        assert(hash@ =~= seq!['#', ' ']);
    }
    let n = line.unicode_len();
    if str_starts_with(line, amp.as_str()) {
        let rest = substring(line, 2, n);
        let rv = chars_of(rest.as_str());
        match find_char(&rv, ':') {
            Some(k) => {
                let head = substring(rest.as_str(), 0, k);
                let sugg = substring(rest.as_str(), k + 1, rv.len());
                proof {
                    assert(rest@ =~= line@.skip(2));
                    assert(rv@.subrange(0, k as int) =~= rv@.take(k as int));
                    assert(rv@.subrange(k + 1, rv@.len() as int) =~= rv@.skip(k + 1));
                }
                match first_word_of(head.as_str()) {
                    Some(w) => {
                        let pieces = split_on_char(sugg.as_str(), ',');
                        let kept = keep_pieces(&pieces);
                        Some(Misspelling { word: w, suggestions: kept })
                    },
                    None => None,
                }
            },
            None => {
                proof {
                    assert(rest@ =~= line@.skip(2));
                }
                None
            },
        }
    } else if str_starts_with(line, hash.as_str()) {
        let rest = substring(line, 2, n);
        proof {
            assert(rest@ =~= line@.skip(2));
        }
        match first_word_of(rest.as_str()) {
            Some(w) => {
                let m = Misspelling { word: w, suggestions: Vec::new() };
                proof {
                    assert(strings_view(m.suggestions@) =~= Seq::<Seq<char>>::empty());
                }
                Some(m)
            },
            None => None,
        }
    } else {
        None
    }
}

/// `s` without its leading non-alphanumeric characters.
pub open spec fn strip_lead(s: Seq<char>) -> Seq<char>
    decreases s.len(),
{
    if s.len() > 0 && !alphanumeric(s[0]) {
        strip_lead(s.drop_first())
    } else {
        s
    }
}

/// `s` without its trailing non-alphanumeric characters.
pub open spec fn strip_trail(s: Seq<char>) -> Seq<char>
    decreases s.len(),
{
    if s.len() > 0 && !alphanumeric(s.last()) {
        strip_trail(s.drop_last())
    } else {
        s
    }
}

/// The lookup form of a word: lower-cased, leading and trailing
/// punctuation stripped, inner punctuation kept.
pub open spec fn word_key(w: Seq<char>) -> Seq<char> {
    lowercase(strip_trail(strip_lead(w)))
}

proof fn lemma_strip_lead(s: Seq<char>, a: int)
    requires
        0 <= a <= s.len(),
        forall|j: int| 0 <= j < a ==> !alphanumeric(#[trigger] s[j]),
        a < s.len() ==> alphanumeric(s[a]),
    ensures
        strip_lead(s) == s.skip(a),
    decreases s.len(),
{
    if a == 0 {
        assert(s.skip(0) =~= s);
    } else {
        let t = s.drop_first();
        assert forall|j: int| 0 <= j < a - 1 implies !alphanumeric(#[trigger] t[j]) by {
            assert(t[j] == s[j + 1]);
        }
        if a - 1 < t.len() {
            assert(t[a - 1] == s[a]);
        }
        lemma_strip_lead(t, a - 1);
        assert(t.skip(a - 1) =~= s.skip(a));
    }
}

proof fn lemma_strip_trail(s: Seq<char>, b: int)
    requires
        0 <= b <= s.len(),
        forall|j: int| b <= j < s.len() ==> !alphanumeric(#[trigger] s[j]),
        b > 0 ==> alphanumeric(s[b - 1]),
    ensures
        strip_trail(s) == s.take(b),
    decreases s.len(),
{
    if b == s.len() {
        assert(s.take(b) =~= s);
    } else {
        let t = s.drop_last();
        assert forall|j: int| b <= j < t.len() implies !alphanumeric(#[trigger] t[j]) by {
            assert(t[j] == s[j]);
        }
        if b > 0 {
            assert(t[b - 1] == s[b - 1]);
        }
        assert(!alphanumeric(s[s.len() - 1]));
        lemma_strip_trail(t, b);
        assert(t.take(b) =~= s.take(b));
    }
}

/// Reduces a word to the form misspelled-word lookups are keyed by (see
/// `word_key`): Hunspell may report a word with punctuation attached, and
/// the compose view's tokens keep theirs.
pub fn normalize_word(word: &str) -> (r: String)
    ensures
        r@ == word_key(word@),
{
    let v = chars_of(word);
    let mut a: usize = 0;
    while a < v.len() && !is_alphanumeric(v[a])
        invariant
            a <= v@.len(),
            forall|j: int| 0 <= j < a ==> !alphanumeric(#[trigger] v@[j]),
        decreases v@.len() - a,
    {
        a += 1;
    }
    let mut b: usize = v.len();
    while b > a && !is_alphanumeric(v[b - 1])
        invariant
            a <= b <= v@.len(),
            forall|j: int| b <= j < v@.len() ==> !alphanumeric(#[trigger] v@[j]),
        decreases b,
    {
        b -= 1;
    }
    proof {
        lemma_strip_lead(v@, a as int);
        let t = v@.skip(a as int);
        assert forall|j: int| b - a <= j < t.len() implies !alphanumeric(#[trigger] t[j]) by {
            assert(t[j] == v@[a + j]);
        }
        if b > a {
            assert(t[b - a - 1] == v@[b - 1]);
        }
        lemma_strip_trail(t, b - a);
        assert(t.take(b - a) =~= v@.subrange(a as int, b as int));
    }
    let core = substring(word, a, b);
    to_lowercase(core.as_str())
}

/// The distinct lookup keys of flagged words, in first-flagged order.
pub open spec fn misspelled_keys(ms: Seq<Misspelling>) -> Seq<Seq<char>>
    decreases ms.len(),
{
    if ms.len() == 0 {
        Seq::empty()
    } else {
        let r = misspelled_keys(ms.drop_last());
        let k = word_key(ms.last().word@);
        if r.contains(k) {
            r
        } else {
            r.push(k)
        }
    }
}

/// Whether `v` holds a string equal to `s`.
pub fn contains_string(v: &Vec<String>, s: &str) -> (r: bool)
    ensures
        r == strings_view(v@).contains(s@),
{
    let mut i: usize = 0;
    while i < v.len()
        invariant
            i <= v@.len(),
            forall|j: int| 0 <= j < i ==> v@[j]@ != s@,
        decreases v@.len() - i,
    {
        if crate::text::str_eq(v[i].as_str(), s) {
            proof {
                assert(strings_view(v@)[i as int] == s@);
            }
            return true;
        }
        i += 1;
    }
    proof {
        if strings_view(v@).contains(s@) {
            let j = choose|j: int| 0 <= j < strings_view(v@).len() && strings_view(v@)[j] == s@;
            assert(v@[j]@ == s@);
        }
    }
    false
}

/// The set of lookup keys of the words flagged in one line, without
/// repeats (see `misspelled_keys`).
pub fn misspelled_words(ms: &Vec<Misspelling>) -> (r: Vec<String>)
    ensures
        strings_view(r@) == misspelled_keys(ms@),
{
    let mut r: Vec<String> = Vec::new();
    let mut i: usize = 0;
    while i < ms.len()
        invariant
            i <= ms@.len(),
            strings_view(r@) == misspelled_keys(ms@.take(i as int)),
        decreases ms@.len() - i,
    {
        proof {
            assert(ms@.take(i + 1).drop_last() =~= ms@.take(i as int));
            assert(ms@.take(i + 1).last() == ms@[i as int]);
        }
        let k = normalize_word(ms[i].word.as_str());
        if !contains_string(&r, k.as_str()) {
            let ghost before = strings_view(r@);
            r.push(k);
            proof {
                assert(strings_view(r@) =~= before.push(k@));
            }
        }
        i += 1;
    }
    proof {
        assert(ms@.take(ms@.len() as int) =~= ms@);
    }
    r
}

/// `s` without its trailing `\n` and `\r` characters.
pub open spec fn strip_line_end(s: Seq<char>) -> Seq<char>
    decreases s.len(),
{
    if s.len() > 0 && (s.last() == '\n' || s.last() == '\r') {
        strip_line_end(s.drop_last())
    } else {
        s
    }
}

/// What one line read from Hunspell means for the input line being checked.
#[derive(Debug)]
pub enum ResponseLine {
    /// The blank line (or end of output) that closes a response block.
    End,
    /// A flagged word.
    Flagged(Misspelling),
    /// A word that was accepted, or a line that flags nothing.
    Accepted,
}

/// Reads one raw line of Hunspell output, as `read_line` hands it over
/// (line ending included): blank after stripping `\n`/`\r` ends the
/// block, otherwise it is parsed (see `parse_response_line`).
pub fn read_response_line(raw: &str) -> (r: ResponseLine)
    ensures
        strip_line_end(raw@).len() == 0 <==> r is End,
        strip_line_end(raw@).len() > 0 ==> match r {
            ResponseLine::Flagged(m) => response_misspelling(strip_line_end(raw@)) == Some(
                misspelling_view(m),
            ),
            ResponseLine::Accepted => response_misspelling(strip_line_end(raw@)) is None,
            ResponseLine::End => false,
        },
{
    let v = chars_of(raw);
    let mut b: usize = v.len();
    proof {
        assert(v@.take(v@.len() as int) =~= v@);
    }
    while b > 0 && (v[b - 1] == '\n' || v[b - 1] == '\r')
        invariant
            b <= v@.len(),
            strip_line_end(v@) == strip_line_end(v@.take(b as int)),
        decreases b,
    {
        proof {
            assert(v@.take(b as int).drop_last() =~= v@.take(b - 1));
        }
        b -= 1;
    }
    proof {
        assert(v@.take(v@.len() as int) =~= v@);
        assert(v@.subrange(0, b as int) =~= v@.take(b as int));
    }
    if b == 0 {
        return ResponseLine::End;
    }
    let line = substring(raw, 0, b);
    match parse_response_line(line.as_str()) {
        Some(m) => ResponseLine::Flagged(m),
        None => ResponseLine::Accepted,
    }
}

/// The text sent to Hunspell to check one line: a leading `^` (so a line
/// starting with one of the pipe protocol's command characters is read
/// as text), the line, and a newline.
pub fn check_request(line: &str) -> (r: String)
    ensures
        r@ == seq!['^'] + line@ + seq!['\n'],
{
    let mut r = String::new();
    push_char(&mut r, '^');
    r.append(line);
    push_char(&mut r, '\n');
    proof {
        assert(r@ =~= seq!['^'] + line@ + seq!['\n']);
    }
    r
}

/// `parts` joined with `sep` between neighbours.
pub open spec fn join_with(parts: Seq<Seq<char>>, sep: char) -> Seq<char>
    decreases parts.len(),
{
    if parts.len() == 0 {
        Seq::empty()
    } else if parts.len() == 1 {
        parts[0]
    } else {
        join_with(parts.drop_last(), sep) + seq![sep] + parts.last()
    }
}

/// The value of Hunspell's `-d` flag for the given dictionary base paths
/// (comma-separated); `None` when there are none, as Hunspell cannot run
/// without one.
pub fn dictionary_argument(bases: &Vec<String>) -> (r: Option<String>)
    ensures
        bases@.len() == 0 <==> r is None,
        r matches Some(a) ==> a@ == join_with(strings_view(bases@), ','),
{
    if bases.len() == 0 {
        return None;
    }
    let mut r = bases[0].clone();
    let mut i: usize = 1;
    proof {
        assert(strings_view(bases@).take(1).drop_last().len() == 0);
    }
    while i < bases.len()
        invariant
            1 <= i <= bases@.len(),
            r@ == join_with(strings_view(bases@).take(i as int), ','),
        decreases bases@.len() - i,
    {
        proof {
            let t = strings_view(bases@).take(i + 1);
            assert(t.drop_last() =~= strings_view(bases@).take(i as int));
            assert(t.last() == bases@[i as int]@);
        }
        push_char(&mut r, ',');
        r.append(bases[i].as_str());
        i += 1;
    }
    proof {
        assert(strings_view(bases@).take(bases@.len() as int) =~= strings_view(bases@));
    }
    Some(r)
}

/// What compose asks to have (re)checked next: one body line after an
/// edit within it, or the whole body after an edit that changed the line
/// count (every later line's index moved).
#[derive(Debug, Clone)]
pub enum SpellCheckRequest {
    /// Nothing asked yet.
    Nothing,
    Line { index: usize, text: String },
    Full(String),
}

impl Default for SpellCheckRequest {
    fn default() -> (r: Self)
        ensures
            r is Nothing,
    {
        SpellCheckRequest::Nothing
    }
}


/// The stem of a file named `<stem>.aff` (what `Path::file_stem` gives when
/// `Path::extension` is `aff`); nothing for other names.
pub open spec fn aff_stem(name: Seq<char>) -> Option<Seq<char>> {
    if name.len() > 4 && name.skip(name.len() - 4) == ".aff"@ {
        Some(name.take(name.len() - 4))
    } else {
        None
    }
}

/// A directory listing (`(name, is a file)` pairs) holds a file `name`.
pub open spec fn lists_file(entries: Seq<(Seq<char>, bool)>, name: Seq<char>) -> bool {
    exists|i: int| 0 <= i < entries.len() && #[trigger] entries[i] == (name, true)
}

/// The dictionary stem that entry `e` of a listing stands for: `e` is the
/// file `<stem>.aff` and the listing also holds the file `<stem>.dic`.
pub open spec fn dictionary_stem(entries: Seq<(Seq<char>, bool)>, e: (Seq<char>, bool)) -> Option<
    Seq<char>,
> {
    match aff_stem(e.0) {
        Some(stem) => if e.1 && lists_file(entries, stem + ".dic"@) {
            Some(stem)
        } else {
            None
        },
        None => None,
    }
}

/// The dictionary stems among the first `n` entries, in listing order.
pub open spec fn stems_among(entries: Seq<(Seq<char>, bool)>, n: nat) -> Seq<Seq<char>>
    decreases n,
{
    if n == 0 || n > entries.len() {
        Seq::empty()
    } else {
        let rest = stems_among(entries, (n - 1) as nat);
        match dictionary_stem(entries, entries[n - 1]) {
            Some(stem) => rest.push(stem),
            None => rest,
        }
    }
}

/// The dictionaries of one directory: `dir` joined with each stem, stems
/// in sorted order.
pub open spec fn dictionary_bases_of(dir: Seq<char>, entries: Seq<(Seq<char>, bool)>) -> Seq<
    Seq<char>,
> {
    sorted_strings(stems_among(entries, entries.len())).map_values(
        |stem: Seq<char>| path_join(dir, stem),
    )
}

fn aff_stem_of(name: &str) -> (r: Option<String>)
    ensures
        match aff_stem(name@) {
            Some(stem) => r matches Some(x) && x@ == stem,
            None => r is None,
        },
{
    proof {
        reveal_strlit(".aff");
    }
    let n = name.unicode_len();
    if n > 4 && name.get_char(n - 4) == '.' && name.get_char(n - 3) == 'a' && name.get_char(n - 2)
        == 'f' && name.get_char(n - 1) == 'f' {
        assert(name@.skip(n - 4) =~= ".aff"@);
        Some(substring(name, 0, n - 4))
    } else {
        proof {
            if n > 4 && name@.skip(n - 4) == ".aff"@ {
                assert(name@[n - 4] == name@.skip(n - 4)[0]);
                assert(name@[n - 3] == name@.skip(n - 4)[1]);
                assert(name@[n - 2] == name@.skip(n - 4)[2]);
                assert(name@[n - 1] == name@.skip(n - 4)[3]);
            }
        }
        None
    }
}

fn lists_file_named(entries: &Vec<(String, bool)>, name: &str) -> (r: bool)
    ensures
        r == lists_file(listing_view(entries@), name@),
{
    let ghost lv = listing_view(entries@);
    let mut i: usize = 0;
    while i < entries.len()
        invariant
            i <= entries@.len(),
            lv == listing_view(entries@),
            forall|j: int| 0 <= j < i ==> lv[j] != (name@, true),
        decreases entries@.len() - i,
    {
        if entries[i].1 && crate::text::str_eq(entries[i].0.as_str(), name) {
            assert(lv[i as int] == (name@, true));
            return true;
        }
        assert(lv[i as int] == (entries@[i as int].0@, entries@[i as int].1));
        i += 1;
    }
    false
}

/// The dictionaries that one directory's listing holds, as base paths (the
/// files without `.aff`/`.dic`): each `<stem>.aff` file whose `<stem>.dic`
/// is a file too, joined onto `dir`, in sorted order of the stems.
pub fn dictionary_bases(dir: &str, entries: &Vec<(String, bool)>) -> (r: Vec<String>)
    ensures
        strings_view(r@) == dictionary_bases_of(dir@, listing_view(entries@)),
{
    let ghost lv = listing_view(entries@);
    let mut stems: Vec<String> = Vec::new();
    let mut i: usize = 0;
    while i < entries.len()
        invariant
            i <= entries@.len(),
            lv == listing_view(entries@),
            strings_view(stems@) == stems_among(lv, i as nat),
        decreases entries@.len() - i,
    {
        assert(lv[i as int] == (entries@[i as int].0@, entries@[i as int].1));
        match aff_stem_of(entries[i].0.as_str()) {
            Some(stem) => {
                if entries[i].1 {
                    let mut dic = stem.clone();
                    dic.append(".dic");
                    if lists_file_named(entries, dic.as_str()) {
                        stems.push(stem);
                        assert(strings_view(stems@) =~= stems_among(lv, i as nat).push(stem@));
                    }
                }
            },
            None => {},
        }
        i += 1;
    }
    let sorted = sort_strings(&stems);
    let mut r: Vec<String> = Vec::new();
    let mut k: usize = 0;
    while k < sorted.len()
        invariant
            k <= sorted@.len(),
            strings_view(r@) =~= strings_view(sorted@).take(k as int).map_values(
                |stem: Seq<char>| path_join(dir@, stem),
            ),
        decreases sorted@.len() - k,
    {
        let ghost old_r = strings_view(r@);
        let joined = join_path(dir, sorted[k].as_str());
        r.push(joined);
        proof {
            assert(strings_view(sorted@).take(k + 1) =~= strings_view(sorted@).take(k as int).push(
                sorted@[k as int]@,
            ));
            assert(strings_view(r@) =~= old_r.push(joined@));
            assert(strings_view(sorted@).take(k + 1).map_values(
                |stem: Seq<char>| path_join(dir@, stem),
            ) =~= strings_view(sorted@).take(k as int).map_values(
                |stem: Seq<char>| path_join(dir@, stem),
            ).push(path_join(dir@, sorted@[k as int]@)));
        }
        k += 1;
    }
    proof {
        assert(strings_view(sorted@).take(sorted@.len() as int) =~= strings_view(sorted@));
    }
    r
}

/// Of the candidates (`(base, identity)` pairs, in search order), the bases
/// whose identity no earlier candidate had.
pub open spec fn first_by_identity(c: Seq<(Seq<char>, Seq<char>)>) -> Seq<Seq<char>>
    decreases c.len(),
{
    if c.len() == 0 {
        Seq::empty()
    } else {
        let rest = first_by_identity(c.drop_last());
        if exists|j: int| 0 <= j < c.len() - 1 && #[trigger] c[j].1 == c.last().1 {
            rest
        } else {
            rest.push(c.last().0)
        }
    }
}

/// The view of `(base, identity)` candidates.
pub open spec fn candidates_view(v: Seq<(String, String)>) -> Seq<(Seq<char>, Seq<char>)> {
    v.map_values(|p: (String, String)| (p.0@, p.1@))
}

/// Drops each dictionary that turns out to be the same file as one found
/// before it (same identity, the resolved path of its `.dic`), keeping the
/// search order.
pub fn first_of_each_identity(candidates: &Vec<(String, String)>) -> (r: Vec<String>)
    ensures
        strings_view(r@) == first_by_identity(candidates_view(candidates@)),
{
    let ghost cv = candidates_view(candidates@);
    let mut seen: Vec<String> = Vec::new();
    let mut r: Vec<String> = Vec::new();
    let mut i: usize = 0;
    while i < candidates.len()
        invariant
            i <= candidates@.len(),
            cv == candidates_view(candidates@),
            strings_view(r@) == first_by_identity(cv.take(i as int)),
            forall|s: Seq<char>|
                strings_view(seen@).contains(s) <==> (exists|j: int|
                    0 <= j < i && #[trigger] cv[j].1 == s),
        decreases candidates@.len() - i,
    {
        let ghost t = cv.take(i + 1);
        assert(t.drop_last() =~= cv.take(i as int));
        assert(t.last() == cv[i as int]);
        assert(cv[i as int] == (candidates@[i as int].0@, candidates@[i as int].1@));
        let known = contains_string(&seen, candidates[i].1.as_str());
        proof {
            assert(known <==> exists|j: int| 0 <= j < t.len() - 1 && #[trigger] t[j].1 == t.last().1) by {
                if known {
                    let j = choose|j: int| 0 <= j < i && #[trigger] cv[j].1 == cv[i as int].1;
                    assert(t[j].1 == t.last().1);
                }
                if exists|j: int| 0 <= j < t.len() - 1 && #[trigger] t[j].1 == t.last().1 {
                    let j = choose|j: int| 0 <= j < t.len() - 1 && #[trigger] t[j].1 == t.last().1;
                    assert(cv[j].1 == cv[i as int].1);
                }
            }
        }
        let ghost old_sv = strings_view(seen@);
        if !known {
            r.push(candidates[i].0.clone());
            seen.push(candidates[i].1.clone());
            proof {
                assert(strings_view(r@) =~= first_by_identity(cv.take(i as int)).push(cv[i as int].0));
                let sv = strings_view(seen@);
                assert(sv =~= old_sv.push(cv[i as int].1));
                assert forall|s: Seq<char>|
                    sv.contains(s) <==> (exists|j: int| 0 <= j < i + 1 && #[trigger] cv[j].1 == s) by {
                    if sv.contains(s) {
                        let k = choose|k: int| 0 <= k < sv.len() && sv[k] == s;
                        if k == sv.len() - 1 {
                            assert(cv[i as int].1 == s);
                        } else {
                            assert(old_sv[k] == s);
                            assert(old_sv.contains(s));
                        }
                    }
                    if exists|j: int| 0 <= j < i + 1 && #[trigger] cv[j].1 == s {
                        let j = choose|j: int| 0 <= j < i + 1 && #[trigger] cv[j].1 == s;
                        if j == i {
                            assert(sv[sv.len() - 1] == s);
                        } else {
                            assert(old_sv.contains(s));
                            let k = choose|k: int| 0 <= k < old_sv.len() && old_sv[k] == s;
                            assert(sv[k] == s);
                        }
                    }
                }
            }
        } else {
            proof {
                assert forall|s: Seq<char>|
                    strings_view(seen@).contains(s) <==> (exists|j: int|
                        0 <= j < i + 1 && #[trigger] cv[j].1 == s) by {
                    if exists|j: int| 0 <= j < i + 1 && #[trigger] cv[j].1 == s {
                        let j = choose|j: int| 0 <= j < i + 1 && #[trigger] cv[j].1 == s;
                        if j == i {
                            assert(strings_view(seen@).contains(cv[i as int].1));
                        } else {
                            assert(exists|j: int| 0 <= j < i && #[trigger] cv[j].1 == s);
                        }
                    }
                }
            }
        }
        i += 1;
    }
    proof {
        assert(cv.take(candidates@.len() as int) =~= cv);
    }
    r
}

} // verus!
