//! Character-sequence helpers shared by every module that edits or
//! inspects text. Strings are reasoned about through their `Seq<char>` view.

use vstd::prelude::*;

verus! {

/// Appends one character to a string (`String::push`).
#[verifier::external_body]
pub(crate) fn push_char(s: &mut String, c: char)
    ensures
        final(s)@ == old(s)@.push(c),
{
    s.push(c);
}

/// The characters of `s`, in order.
pub fn chars_of(s: &str) -> (v: Vec<char>)
    ensures
        v@ == s@,
{
    let n = s.unicode_len();
    let mut v: Vec<char> = Vec::new();
    let mut i: usize = 0;
    while i < n
        invariant
            n == s@.len(),
            i <= n,
            v@ == s@.take(i as int),
        decreases n - i,
    {
        v.push(s.get_char(i));
        i += 1;
        assert(v@ =~= s@.take(i as int));
    }
    assert(s@.take(n as int) =~= s@);
    v
}

/// The string made of `v`'s characters, in order.
pub fn string_of(v: &Vec<char>) -> (s: String)
    ensures
        s@ == v@,
{
    let mut s = String::new();
    let mut i: usize = 0;
    while i < v.len()
        invariant
            i <= v.len(),
            s@ == v@.take(i as int),
        decreases v.len() - i,
    {
        push_char(&mut s, v[i]);
        i += 1;
        assert(s@ =~= v@.take(i as int));
    }
    assert(v@.take(v.len() as int) =~= v@);
    s
}


/// `s` with `c` inserted before the character at position `k`.
pub open spec fn insert_at(s: Seq<char>, k: int, c: char) -> Seq<char> {
    s.take(k) + seq![c] + s.skip(k)
}

/// `s` without the character at position `k`.
pub open spec fn remove_at(s: Seq<char>, k: int) -> Seq<char> {
    s.take(k) + s.skip(k + 1)
}

/// A new string: `s` with `c` inserted before character `k`.
pub fn string_insert_char(s: &str, k: usize, c: char) -> (r: String)
    requires
        k <= s@.len(),
    ensures
        r@ == insert_at(s@, k as int, c),
{
    let n = s.unicode_len();
    let mut r = String::from_str(s.substring_char(0, k));
    push_char(&mut r, c);
    r.append(s.substring_char(k, n));
    r
}

/// A new string: `s` without character `k`.
pub fn string_remove_char(s: &str, k: usize) -> (r: String)
    requires
        k < s@.len(),
    ensures
        r@ == remove_at(s@, k as int),
{
    let n = s.unicode_len();
    let mut r = String::from_str(s.substring_char(0, k));
    r.append(s.substring_char(k + 1, n));
    r
}

/// A new string holding the characters of `s` from `from` up to `to`.
pub fn substring(s: &str, from: usize, to: usize) -> (r: String)
    requires
        from <= to <= s@.len(),
    ensures
        r@ == s@.subrange(from as int, to as int),
{
    String::from_str(s.substring_char(from, to))
}


/// Unicode `White_Space`: the characters `char::is_whitespace` accepts and
/// `str::trim` strips.
pub open spec fn is_ws(c: char) -> bool {
    ||| ('\u{9}' <= c && c <= '\u{d}')
    ||| c == ' '
    ||| c == '\u{85}'
    ||| c == '\u{a0}'
    ||| c == '\u{1680}'
    ||| ('\u{2000}' <= c && c <= '\u{200a}')
    ||| c == '\u{2028}'
    ||| c == '\u{2029}'
    ||| c == '\u{202f}'
    ||| c == '\u{205f}'
    ||| c == '\u{3000}'
}

/// Whether `c` is Unicode white space.
pub fn is_whitespace(c: char) -> (r: bool)
    ensures
        r == is_ws(c),
{
    ('\u{9}' <= c && c <= '\u{d}') || c == ' ' || c == '\u{85}' || c == '\u{a0}' || c
        == '\u{1680}' || ('\u{2000}' <= c && c <= '\u{200a}') || c == '\u{2028}' || c
        == '\u{2029}' || c == '\u{202f}' || c == '\u{205f}' || c == '\u{3000}'
}

/// `s` without its leading white space.
pub open spec fn trim_start(s: Seq<char>) -> Seq<char>
    decreases s.len(),
{
    if s.len() > 0 && is_ws(s[0]) {
        trim_start(s.drop_first())
    } else {
        s
    }
}

/// `s` without its trailing white space.
pub open spec fn trim_end(s: Seq<char>) -> Seq<char>
    decreases s.len(),
{
    if s.len() > 0 && is_ws(s.last()) {
        trim_end(s.drop_last())
    } else {
        s
    }
}

/// `s` without leading and trailing white space (`str::trim`).
pub open spec fn trim(s: Seq<char>) -> Seq<char> {
    trim_end(trim_start(s))
}

/// Every character of `s` is white space (so `trim(s)` is empty).
pub open spec fn all_ws(s: Seq<char>) -> bool {
    forall|i: int| 0 <= i < s.len() ==> is_ws(#[trigger] s[i])
}

/// The start index of `trim_start(s)` inside `s`.
pub proof fn lemma_trim_start_skip(s: Seq<char>)
    ensures
        exists|k: int|
            0 <= k <= s.len() && trim_start(s) == s.skip(k) && (forall|i: int|
                0 <= i < k ==> is_ws(#[trigger] s[i])) && (k < s.len() ==> !is_ws(s[k])),
    decreases s.len(),
{
    if s.len() > 0 && is_ws(s[0]) {
        lemma_trim_start_skip(s.drop_first());
        let k = choose|k: int|
            0 <= k <= s.drop_first().len() && trim_start(s.drop_first()) == s.drop_first().skip(k)
                && (forall|i: int| 0 <= i < k ==> is_ws(#[trigger] s.drop_first()[i])) && (k
                < s.drop_first().len() ==> !is_ws(s.drop_first()[k]));
        assert(s.drop_first().skip(k) =~= s.skip(k + 1));
        assert forall|i: int| 0 <= i < k + 1 implies is_ws(#[trigger] s[i]) by {
            if i > 0 {
                assert(s[i] == s.drop_first()[i - 1]);
            }
        }
    } else {
        assert(s.skip(0) =~= s);
    }
}

/// The end index of `trim_end(s)` inside `s`.
pub proof fn lemma_trim_end_take(s: Seq<char>)
    ensures
        exists|k: int|
            0 <= k <= s.len() && trim_end(s) == s.take(k) && (forall|i: int|
                k <= i < s.len() ==> is_ws(#[trigger] s[i])) && (k > 0 ==> !is_ws(s[k - 1])),
    decreases s.len(),
{
    if s.len() > 0 && is_ws(s.last()) {
        lemma_trim_end_take(s.drop_last());
        let k = choose|k: int|
            0 <= k <= s.drop_last().len() && trim_end(s.drop_last()) == s.drop_last().take(k)
                && (forall|i: int| k <= i < s.drop_last().len() ==> is_ws(
                #[trigger] s.drop_last()[i],
            )) && (k > 0 ==> !is_ws(s.drop_last()[k - 1]));
        assert(s.drop_last().take(k) =~= s.take(k));
        assert forall|i: int| k <= i < s.len() implies is_ws(#[trigger] s[i]) by {
            if i < s.len() - 1 {
                assert(s[i] == s.drop_last()[i]);
            }
        }
    } else {
        assert(s.take(s.len() as int) =~= s);
    }
}

/// `trim(s)` is empty exactly when `s` is all white space.
pub proof fn lemma_trim_empty_iff_all_ws(s: Seq<char>)
    ensures
        (trim(s).len() == 0) == all_ws(s),
{
    lemma_trim_start_skip(s);
    let a = choose|k: int|
        0 <= k <= s.len() && trim_start(s) == s.skip(k) && (forall|i: int|
            0 <= i < k ==> is_ws(#[trigger] s[i])) && (k < s.len() ==> !is_ws(s[k]));
    let t = s.skip(a);
    lemma_trim_end_take(t);
    let b = choose|k: int|
        0 <= k <= t.len() && trim_end(t) == t.take(k) && (forall|i: int|
            k <= i < t.len() ==> is_ws(#[trigger] t[i])) && (k > 0 ==> !is_ws(t[k - 1]));
    if trim(s).len() == 0 {
        assert(b == 0);
        assert forall|i: int| 0 <= i < s.len() implies is_ws(#[trigger] s[i]) by {
            if i >= a {
                assert(t[i - a] == s[i]);
            }
        }
    } else {
        assert(b > 0);
        assert(t[b - 1] == s[a + b - 1]);
    }
}

/// The index of the first character of `s` at or after `from` that is
/// not white space (`s.len()` when there is none).
pub fn skip_ws_forward(s: &Vec<char>, from: usize) -> (k: usize)
    requires
        from <= s@.len(),
    ensures
        from <= k <= s@.len(),
        forall|i: int| from <= i < k ==> is_ws(#[trigger] s@[i]),
        k < s@.len() ==> !is_ws(s@[k as int]),
{
    let mut k = from;
    while k < s.len() && is_whitespace(s[k])
        invariant
            from <= k <= s@.len(),
            forall|i: int| from <= i < k ==> is_ws(#[trigger] s@[i]),
        decreases s@.len() - k,
    {
        k += 1;
    }
    k
}

/// Start and end (exclusive) of `trim(v)` inside `v`.
pub fn trim_bounds(v: &Vec<char>) -> (r: (usize, usize))
    ensures
        r.0 <= r.1 <= v@.len(),
        v@.subrange(r.0 as int, r.1 as int) == trim(v@),
{
    let start = skip_ws_forward(v, 0);
    let mut end = v.len();
    while end > start && is_whitespace(v[end - 1])
        invariant
            start <= end <= v@.len(),
            forall|i: int| end <= i < v@.len() ==> is_ws(#[trigger] v@[i]),
        decreases end,
    {
        end -= 1;
    }
    proof {
        lemma_trim_start_skip(v@);
        let a = choose|k: int|
            0 <= k <= v@.len() && trim_start(v@) == v@.skip(k) && (forall|i: int|
                0 <= i < k ==> is_ws(#[trigger] v@[i])) && (k < v@.len() ==> !is_ws(v@[k]));
        assert(a == start as int) by {
            if a < start {
                assert(is_ws(v@[a]));
            }
            if start < a {
                assert(is_ws(v@[start as int]));
            }
        }
        let t = v@.skip(start as int);
        lemma_trim_end_take(t);
        let b = choose|k: int|
            0 <= k <= t.len() && trim_end(t) == t.take(k) && (forall|i: int|
                k <= i < t.len() ==> is_ws(#[trigger] t[i])) && (k > 0 ==> !is_ws(t[k - 1]));
        assert(b == end - start) by {
            if b < end - start {
                assert(t[end - start - 1] == v@[end - 1]);
                assert(is_ws(t[end - start - 1]));
            }
            if end - start < b {
                assert(t[b - 1] == v@[start + b - 1]);
                if end == start {
                    assert(!is_ws(v@[start as int]));
                }
            }
        }
        assert(t.take(b) =~= v@.subrange(start as int, end as int));
    }
    (start, end)
}

/// The characters of `s` without leading and trailing white space.
pub fn trimmed(s: &str) -> (r: String)
    ensures
        r@ == trim(s@),
{
    let v = chars_of(s);
    let (a, b) = trim_bounds(&v);
    substring(s, a, b)
}

/// Unicode lower-case mapping of a whole string (`str::to_lowercase`).
pub uninterp spec fn lowercase(s: Seq<char>) -> Seq<char>;

/// Calls `str::to_lowercase`. Its result is the Unicode lower-case mapping
/// of `s`, a function of `s` alone; the contract names it `lowercase`
/// and says nothing more about it.
#[verifier::external_body]
pub(crate) fn to_lowercase(s: &str) -> (r: String)
    ensures
        r@ == lowercase(s@),
{
    s.to_lowercase()
}

/// Unicode `Alphabetic` or `Numeric` (`char::is_alphanumeric`).
pub uninterp spec fn alphanumeric(c: char) -> bool;

/// Calls `char::is_alphanumeric`, a function of `c` alone; the contract
/// names its result `alphanumeric`.
#[verifier::external_body]
pub(crate) fn is_alphanumeric(c: char) -> (r: bool)
    ensures
        r == alphanumeric(c),
{
    c.is_alphanumeric()
}

/// Whether two character sequences are equal, compared character by character.
pub fn chars_eq(a: &Vec<char>, b: &Vec<char>) -> (r: bool)
    ensures
        r == (a@ == b@),
{
    if a.len() != b.len() {
        return false;
    }
    let mut i: usize = 0;
    while i < a.len()
        invariant
            a@.len() == b@.len(),
            i <= a@.len(),
            forall|j: int| 0 <= j < i ==> a@[j] == b@[j],
        decreases a@.len() - i,
    {
        if a[i] != b[i] {
            return false;
        }
        i += 1;
    }
    assert(a@ =~= b@);
    true
}

/// Whether two strings hold the same characters.
pub fn str_eq(a: &str, b: &str) -> (r: bool)
    ensures
        r == (a@ == b@),
{
    let va = chars_of(a);
    let vb = chars_of(b);
    chars_eq(&va, &vb)
}


/// `p` is a prefix of `s`.
pub open spec fn has_prefix(s: Seq<char>, p: Seq<char>) -> bool {
    p.len() <= s.len() && s.take(p.len() as int) == p
}

/// `needle` occurs in `hay` as a contiguous run (`str::contains`).
pub open spec fn contains_seq(hay: Seq<char>, needle: Seq<char>) -> bool {
    exists|i: int|
        0 <= i && i + needle.len() <= hay.len() && #[trigger] hay.subrange(i, i + needle.len())
            == needle
}

/// Whether `hay` starts with the characters `p`.
pub fn starts_with_chars(hay: &Vec<char>, p: &Vec<char>) -> (r: bool)
    ensures
        r == has_prefix(hay@, p@),
{
    if p.len() > hay.len() {
        return false;
    }
    let mut i: usize = 0;
    while i < p.len()
        invariant
            p@.len() <= hay@.len(),
            i <= p@.len(),
            forall|j: int| 0 <= j < i ==> hay@[j] == p@[j],
        decreases p@.len() - i,
    {
        if hay[i] != p[i] {
            assert(hay@.take(p@.len() as int)[i as int] != p@[i as int]);
            return false;
        }
        i += 1;
    }
    assert(hay@.take(p@.len() as int) =~= p@);
    true
}

/// Whether `needle` occurs at position `at` of `hay`.
fn occurs_at(hay: &Vec<char>, needle: &Vec<char>, at: usize) -> (r: bool)
    requires
        at + needle@.len() <= hay@.len(),
    ensures
        r == (hay@.subrange(at as int, at + needle@.len()) == needle@),
{
    let mut j: usize = 0;
    while j < needle.len()
        invariant
            at + needle@.len() <= hay@.len(),
            hay@.len() == hay.len(),
            j <= needle@.len(),
            forall|k: int| 0 <= k < j ==> hay@[at + k] == needle@[k],
        decreases needle@.len() - j,
    {
        if hay[at + j] != needle[j] {
            assert(hay@.subrange(at as int, at + needle@.len())[j as int] != needle@[j as int]);
            return false;
        }
        j += 1;
    }
    assert(hay@.subrange(at as int, at + needle@.len()) =~= needle@);
    true
}

/// Whether `needle` occurs anywhere in `hay`.
pub fn contains_chars(hay: &Vec<char>, needle: &Vec<char>) -> (r: bool)
    ensures
        r == contains_seq(hay@, needle@),
{
    if needle.len() > hay.len() {
        return false;
    }
    let last = hay.len() - needle.len();
    let mut i: usize = 0;
    while i <= last
        invariant_except_break
            last + needle@.len() == hay@.len(),
            i <= last,
            forall|k: int|
                0 <= k < i ==> #[trigger] hay@.subrange(k, k + needle@.len()) != needle@,
        ensures
            forall|k: int|
                0 <= k <= last ==> #[trigger] hay@.subrange(k, k + needle@.len()) != needle@,
        decreases last + 1 - i,
    {
        if occurs_at(hay, needle, i) {
            return true;
        }
        if i == last {
            break;
        }
        i += 1;
    }
    false
}

/// Whether `needle` occurs anywhere in `hay`.
pub fn str_contains(hay: &str, needle: &str) -> (r: bool)
    ensures
        r == contains_seq(hay@, needle@),
{
    let h = chars_of(hay);
    let n = chars_of(needle);
    contains_chars(&h, &n)
}

/// Whether `s` starts with `p`.
pub fn str_starts_with(s: &str, p: &str) -> (r: bool)
    ensures
        r == has_prefix(s@, p@),
{
    let a = chars_of(s);
    let b = chars_of(p);
    starts_with_chars(&a, &b)
}


/// The pieces of `s` between the occurrences of `c` (`str::split` on one
/// character): `k` occurrences give `k + 1` pieces, some possibly empty.
pub open spec fn split_char(s: Seq<char>, c: char) -> Seq<Seq<char>>
    decreases s.len(),
{
    if s.len() == 0 {
        seq![Seq::empty()]
    } else {
        let init = split_char(s.drop_last(), c);
        if s.last() == c {
            init.push(Seq::empty())
        } else {
            init.update(init.len() - 1, init.last().push(s.last()))
        }
    }
}

/// `split_char` always gives at least one piece.
pub proof fn lemma_split_char_len(s: Seq<char>, c: char)
    ensures
        split_char(s, c).len() >= 1,
    decreases s.len(),
{
    if s.len() > 0 {
        lemma_split_char_len(s.drop_last(), c);
    }
}

/// The views of a list of strings.
pub open spec fn strings_view(v: Seq<String>) -> Seq<Seq<char>> {
    v.map_values(|p: String| p@)
}

/// Splits `s` at every occurrence of `c` (see `split_char`).
pub fn split_on_char(s: &str, c: char) -> (r: Vec<String>)
    ensures
        strings_view(r@) == split_char(s@, c),
{
    let v = chars_of(s);
    let mut done: Vec<String> = Vec::new();
    let mut cur = String::new();
    let mut i: usize = 0;
    proof {
        assert(s@.take(0) =~= Seq::<char>::empty());
        assert(strings_view(done@).push(cur@) =~= seq![Seq::<char>::empty()]);
    }
    while i < v.len()
        invariant
            i <= v@.len(),
            v@ == s@,
            strings_view(done@).push(cur@) == split_char(s@.take(i as int), c),
        decreases v@.len() - i,
    {
        let ghost before = strings_view(done@);
        let ghost cur0 = cur@;
        proof {
            lemma_split_char_len(s@.take(i as int), c);
            assert(s@.take(i + 1).drop_last() =~= s@.take(i as int));
            assert(s@.take(i + 1).last() == v@[i as int]);
        }
        if v[i] == c {
            done.push(cur);
            cur = String::new();
            proof {
                assert(strings_view(done@) =~= before.push(cur0));
            }
        } else {
            push_char(&mut cur, v[i]);
            proof {
                assert(before.push(cur0).update(before.len() as int, cur0.push(v@[i as int]))
                    =~= before.push(cur@));
            }
        }
        i += 1;
    }
    proof {
        assert(s@.take(v@.len() as int) =~= s@);
    }
    let ghost before = strings_view(done@);
    done.push(cur);
    proof {
        assert(strings_view(done@) =~= before.push(cur@));
    }
    done
}

/// The last piece of `split_char(s, c)` is what follows the last `c`
/// (all of `s` when there is none), and there is more than one piece
/// exactly when `c` occurs.
pub proof fn lemma_split_last(s: Seq<char>, c: char, k: int)
    requires
        -1 <= k < s.len(),
        k >= 0 ==> s[k] == c,
        forall|j: int| k < j < s.len() ==> s[j] != c,
    ensures
        split_char(s, c).len() >= 1,
        split_char(s, c).last() == s.skip(k + 1),
        (split_char(s, c).len() > 1) == (k >= 0),
    decreases s.len(),
{
    lemma_split_char_len(s, c);
    if s.len() == 0 {
        assert(s.skip(0) =~= Seq::<char>::empty());
    } else if k == s.len() - 1 {
        lemma_split_char_len(s.drop_last(), c);
        assert(s.skip(k + 1) =~= Seq::<char>::empty());
    } else {
        let d = s.drop_last();
        assert forall|j: int| k < j < d.len() implies d[j] != c by {
            assert(d[j] == s[j]);
        }
        if k >= 0 {
            assert(d[k] == s[k]);
        }
        lemma_split_last(d, c, k);
        assert(d.skip(k + 1).push(s.last()) =~= s.skip(k + 1));
    }
}

/// The index of the last `c` in `v`, if any.
pub fn rfind_char(v: &Vec<char>, c: char) -> (r: Option<usize>)
    ensures
        match r {
            Some(k) => k < v@.len() && v@[k as int] == c && (forall|j: int|
                k < j < v@.len() ==> v@[j] != c),
            None => forall|j: int| 0 <= j < v@.len() ==> v@[j] != c,
        },
{
    let mut i: usize = v.len();
    while i > 0
        invariant
            i <= v@.len(),
            forall|j: int| i <= j < v@.len() ==> v@[j] != c,
        decreases i,
    {
        if v[i - 1] == c {
            return Some(i - 1);
        }
        i -= 1;
    }
    None
}

/// The part of `s` before the first occurrence of `c` (all of `s` when
/// `c` does not occur).
pub open spec fn before_char(s: Seq<char>, c: char) -> Seq<char>
    decreases s.len(),
{
    if s.len() == 0 {
        s
    } else if s[0] == c {
        Seq::empty()
    } else {
        seq![s[0]] + before_char(s.drop_first(), c)
    }
}

/// `c` occurs in `s`.
pub open spec fn has_char(s: Seq<char>, c: char) -> bool {
    exists|k: int| 0 <= k < s.len() && s[k] == c
}

/// `before_char` is the prefix up to the first occurrence.
pub proof fn lemma_before_char(s: Seq<char>, c: char, k: int)
    requires
        0 <= k <= s.len(),
        forall|j: int| 0 <= j < k ==> s[j] != c,
        k < s.len() ==> s[k] == c,
    ensures
        before_char(s, c) == s.take(k),
    decreases s.len(),
{
    if s.len() == 0 {
        assert(s.take(k) =~= s);
    } else if k == 0 {
        assert(s.take(0) =~= Seq::<char>::empty());
    } else {
        let t = s.drop_first();
        assert forall|j: int| 0 <= j < k - 1 implies t[j] != c by {
            assert(t[j] == s[j + 1]);
        }
        lemma_before_char(t, c, k - 1);
        assert(seq![s[0]] + t.take(k - 1) =~= s.take(k));
    }
}

/// The index of the first `c` in `v`, if any.
pub fn find_char(v: &Vec<char>, c: char) -> (r: Option<usize>)
    ensures
        match r {
            Some(k) => k < v@.len() && v@[k as int] == c && (forall|j: int|
                0 <= j < k ==> v@[j] != c) && before_char(v@, c) == v@.take(k as int),
            None => !has_char(v@, c) && before_char(v@, c) == v@,
        },
{
    let mut i: usize = 0;
    while i < v.len()
        invariant
            i <= v@.len(),
            forall|j: int| 0 <= j < i ==> v@[j] != c,
        decreases v@.len() - i,
    {
        if v[i] == c {
            proof {
                lemma_before_char(v@, c, i as int);
            }
            return Some(i);
        }
        i += 1;
    }
    proof {
        lemma_before_char(v@, c, v@.len() as int);
        assert(v@.take(v@.len() as int) =~= v@);
    }
    None
}

/// Length of the leading run of non-white-space characters of `s`.
pub open spec fn word_len(s: Seq<char>) -> nat
    decreases s.len(),
{
    if s.len() > 0 && !is_ws(s[0]) {
        1 + word_len(s.drop_first())
    } else {
        0
    }
}

/// The first white-space-delimited word of `s`
/// (`str::split_whitespace().next()`).
pub open spec fn first_word(s: Seq<char>) -> Option<Seq<char>> {
    let t = trim_start(s);
    if t.len() == 0 {
        None
    } else {
        Some(t.take(word_len(t) as int))
    }
}

/// A run of `m` non-white-space characters ended by white space or the
/// end of `s` is `word_len(s)` long.
pub proof fn lemma_word_len(s: Seq<char>, m: int)
    requires
        0 <= m <= s.len(),
        forall|j: int| 0 <= j < m ==> !is_ws(#[trigger] s[j]),
        m < s.len() ==> is_ws(s[m]),
    ensures
        word_len(s) == m,
    decreases s.len(),
{
    if m > 0 {
        let t = s.drop_first();
        assert forall|j: int| 0 <= j < m - 1 implies !is_ws(#[trigger] t[j]) by {
            assert(t[j] == s[j + 1]);
        }
        lemma_word_len(t, m - 1);
    }
}

/// Where `trim_start(v)` starts: the first non-white-space index.
pub proof fn lemma_trim_start_at(v: Seq<char>, a: int)
    requires
        0 <= a <= v.len(),
        forall|i: int| 0 <= i < a ==> is_ws(#[trigger] v[i]),
        a < v.len() ==> !is_ws(v[a]),
    ensures
        trim_start(v) == v.skip(a),
{
    lemma_trim_start_skip(v);
    let k = choose|k: int|
        0 <= k <= v.len() && trim_start(v) == v.skip(k) && (forall|i: int|
            0 <= i < k ==> is_ws(#[trigger] v[i])) && (k < v.len() ==> !is_ws(v[k]));
    if k < a {
        assert(is_ws(v[k]));
    }
    if a < k {
        assert(is_ws(v[a]));
    }
}

/// The first white-space-delimited word of `s`, if any.
pub fn first_word_of(s: &str) -> (r: Option<String>)
    ensures
        match r {
            Some(w) => first_word(s@) == Some(w@),
            None => first_word(s@) is None,
        },
{
    let v = chars_of(s);
    let a = skip_ws_forward(&v, 0);
    proof {
        lemma_trim_start_at(v@, a as int);
    }
    if a == v.len() {
        return None;
    }
    let mut b = a;
    while b < v.len() && !is_whitespace(v[b])
        invariant
            a <= b <= v@.len(),
            forall|j: int| a <= j < b ==> !is_ws(#[trigger] v@[j]),
        decreases v@.len() - b,
    {
        b += 1;
    }
    proof {
        let t = v@.skip(a as int);
        assert forall|j: int| 0 <= j < b - a implies !is_ws(#[trigger] t[j]) by {
            assert(t[j] == v@[a + j]);
        }
        if b < v@.len() {
            assert(t[b - a] == v@[b as int]);
        }
        lemma_word_len(t, b - a);
        assert(t.take(b - a) =~= v@.subrange(a as int, b as int));
    }
    Some(substring(s, a, b))
}

/// `a` sorts before or equal to `b`, character by character by code
/// point, a proper prefix first (the order of `str`'s `Ord`).
pub open spec fn lex_le(a: Seq<char>, b: Seq<char>) -> bool
    decreases a.len(),
{
    if a.len() == 0 {
        true
    } else if b.len() == 0 {
        false
    } else if (a[0] as int) < (b[0] as int) {
        true
    } else if (a[0] as int) > (b[0] as int) {
        false
    } else {
        lex_le(a.drop_first(), b.drop_first())
    }
}

/// Whether `a` sorts before or equal to `b` (see `lex_le`).
pub fn lex_le_chars(a: &Vec<char>, b: &Vec<char>) -> (r: bool)
    ensures
        r == lex_le(a@, b@),
{
    let mut i: usize = 0;
    proof {
        assert(a@.skip(0) =~= a@);
        assert(b@.skip(0) =~= b@);
    }
    while i < a.len() && i < b.len() && a[i] == b[i]
        invariant
            i <= a@.len(),
            i <= b@.len(),
            lex_le(a@, b@) == lex_le(a@.skip(i as int), b@.skip(i as int)),
        decreases a@.len() - i,
    {
        proof {
            let sa = a@.skip(i as int);
            let sb = b@.skip(i as int);
            assert(sa.drop_first() =~= a@.skip(i + 1));
            assert(sb.drop_first() =~= b@.skip(i + 1));
            assert(sa[0] == sb[0]);
        }
        i += 1;
    }
    proof {
        let sa = a@.skip(i as int);
        let sb = b@.skip(i as int);
        if i == a.len() {
            assert(sa.len() == 0);
        } else if i == b.len() {
            assert(sb.len() == 0);
        } else {
            assert(sa[0] == a@[i as int]);
            assert(sb[0] == b@[i as int]);
            assert(a@[i as int] != b@[i as int]);
        }
    }
    if i == a.len() {
        true
    } else if i == b.len() {
        false
    } else {
        a[i] < b[i]
    }
}

/// `x` placed into the key-ascending `sorted` after every entry whose key
/// is at most `x`'s (so earlier entries win ties).
pub open spec fn insert_by_key<T>(sorted: Seq<(Seq<char>, T)>, x: (Seq<char>, T)) -> Seq<
    (Seq<char>, T),
>
    decreases sorted.len(),
{
    if sorted.len() == 0 {
        seq![x]
    } else if lex_le(sorted.last().0, x.0) {
        sorted.push(x)
    } else {
        insert_by_key(sorted.drop_last(), x).push(sorted.last())
    }
}

/// `items` in ascending key order; items with equal keys keep their
/// relative order (a stable sort by key).
pub open spec fn sort_by_key<T>(items: Seq<(Seq<char>, T)>) -> Seq<(Seq<char>, T)>
    decreases items.len(),
{
    if items.len() == 0 {
        Seq::empty()
    } else {
        insert_by_key(sort_by_key(items.drop_last()), items.last())
    }
}

/// Where `insert_by_key` puts `x`: scanning from the end, past every
/// entry whose key sorts strictly after `x`'s.
pub proof fn lemma_insert_by_key_at<T>(sorted: Seq<(Seq<char>, T)>, x: (Seq<char>, T), p: int)
    requires
        0 <= p <= sorted.len(),
        forall|k: int| p <= k < sorted.len() ==> !lex_le(#[trigger] sorted[k].0, x.0),
        p > 0 ==> lex_le(sorted[p - 1].0, x.0),
    ensures
        insert_by_key(sorted, x) == sorted.take(p).push(x) + sorted.skip(p),
    decreases sorted.len(),
{
    if sorted.len() == 0 {
        assert(sorted.take(p).push(x) + sorted.skip(p) =~= seq![x]);
    } else if lex_le(sorted.last().0, x.0) {
        assert(p == sorted.len());
        assert(sorted.take(p) =~= sorted);
        assert(sorted.take(p).push(x) + sorted.skip(p) =~= sorted.push(x));
    } else {
        let d = sorted.drop_last();
        lemma_insert_by_key_at(d, x, p);
        assert(d.take(p) =~= sorted.take(p));
        assert(d.skip(p).push(sorted.last()) =~= sorted.skip(p));
        assert((d.take(p).push(x) + d.skip(p)).push(sorted.last()) =~= sorted.take(p).push(x)
            + sorted.skip(p));
    }
}


/// `lex_le` orders any two sequences one way or the other.
pub proof fn lemma_lex_le_total(a: Seq<char>, b: Seq<char>)
    ensures
        lex_le(a, b) || lex_le(b, a),
    decreases a.len(),
{
    if a.len() > 0 && b.len() > 0 && a[0] == b[0] {
        lemma_lex_le_total(a.drop_first(), b.drop_first());
    }
}

/// `lex_le` is transitive.
pub proof fn lemma_lex_le_trans(a: Seq<char>, b: Seq<char>, c: Seq<char>)
    requires
        lex_le(a, b),
        lex_le(b, c),
    ensures
        lex_le(a, c),
    decreases a.len(),
{
    if a.len() > 0 && b.len() > 0 && c.len() > 0 && a[0] == b[0] && b[0] == c[0] {
        lemma_lex_le_trans(a.drop_first(), b.drop_first(), c.drop_first());
    }
}

/// The keys of `v` never decrease.
pub open spec fn keys_sorted<T>(v: Seq<(Seq<char>, T)>) -> bool {
    forall|a: int, b: int| 0 <= a < b < v.len() ==> lex_le(#[trigger] v[a].0, #[trigger] v[b].0)
}

/// Inserting into a key-sorted sequence keeps it sorted and adds exactly
/// the new entry.
#[verifier::spinoff_prover]
pub proof fn lemma_insert_by_key<T>(r: Seq<(Seq<char>, T)>, x: (Seq<char>, T))
    requires
        keys_sorted(r),
    ensures
        keys_sorted(insert_by_key(r, x)),
        insert_by_key(r, x).len() == r.len() + 1,
        forall|e: (Seq<char>, T)| #[trigger] insert_by_key(r, x).contains(e) <==> (r.contains(e) || e
            == x),
    decreases r.len(),
{
    let ir = insert_by_key(r, x);
    if r.len() == 0 {
        assert(ir =~= seq![x]);
        assert forall|e: (Seq<char>, T)| #[trigger] ir.contains(e) <==> (r.contains(e) || e == x) by {
            if ir.contains(e) {
                let i = choose|i: int| 0 <= i < ir.len() && ir[i] == e;
                assert(i == 0);
            }
            if e == x {
                assert(ir[0] == e);
            }
        }
    } else if lex_le(r.last().0, x.0) {
        assert(ir =~= r.push(x));
        assert forall|a: int, b: int| 0 <= a < b < ir.len() implies lex_le(
            #[trigger] ir[a].0,
            #[trigger] ir[b].0,
        ) by {
            if b == r.len() {
                if a < r.len() - 1 {
                    assert(lex_le(r[a].0, r[r.len() - 1].0));
                    lemma_lex_le_trans(r[a].0, r[r.len() - 1].0, x.0);
                }
            } else {
                assert(lex_le(r[a].0, r[b].0));
            }
        }
        assert forall|e: (Seq<char>, T)| #[trigger] ir.contains(e) <==> (r.contains(e) || e == x) by {
            if ir.contains(e) {
                let i = choose|i: int| 0 <= i < ir.len() && ir[i] == e;
                if i < r.len() {
                    assert(r[i] == e);
                }
            }
            if r.contains(e) {
                let i = choose|i: int| 0 <= i < r.len() && r[i] == e;
                assert(ir[i] == e);
            }
            if e == x {
                assert(ir[r.len() as int] == e);
            }
        }
    } else {
        let d = r.drop_last();
        let last = r.last();
        lemma_lex_le_total(last.0, x.0);
        assert forall|a: int, b: int| 0 <= a < b < d.len() implies lex_le(
            #[trigger] d[a].0,
            #[trigger] d[b].0,
        ) by {
            assert(lex_le(r[a].0, r[b].0));
        }
        lemma_insert_by_key(d, x);
        let id = insert_by_key(d, x);
        assert(ir =~= id.push(last));
        assert forall|a: int| 0 <= a < id.len() implies lex_le(#[trigger] id[a].0, last.0) by {
            assert(id.contains(id[a]));
            if d.contains(id[a]) {
                let i = choose|i: int| 0 <= i < d.len() && d[i] == id[a];
                assert(lex_le(r[i].0, r[r.len() - 1].0));
            }
        }
        assert forall|a: int, b: int| 0 <= a < b < ir.len() implies lex_le(
            #[trigger] ir[a].0,
            #[trigger] ir[b].0,
        ) by {
            if b == id.len() {
                assert(lex_le(id[a].0, last.0));
            } else {
                assert(lex_le(id[a].0, id[b].0));
            }
        }
        assert forall|e: (Seq<char>, T)| #[trigger] ir.contains(e) <==> (r.contains(e) || e == x) by {
            if ir.contains(e) {
                let i = choose|i: int| 0 <= i < ir.len() && ir[i] == e;
                if i < id.len() {
                    assert(id[i] == e);
                    assert(id.contains(e));
                    if d.contains(e) {
                        let j = choose|j: int| 0 <= j < d.len() && d[j] == e;
                        assert(r[j] == e);
                    }
                } else {
                    assert(r[r.len() - 1] == e);
                }
            }
            if r.contains(e) {
                let i = choose|i: int| 0 <= i < r.len() && r[i] == e;
                if i < d.len() {
                    assert(d[i] == e);
                    assert(d.contains(e));
                    assert(id.contains(e));
                    let j = choose|j: int| 0 <= j < id.len() && id[j] == e;
                    assert(ir[j] == e);
                } else {
                    assert(ir[id.len() as int] == e);
                }
            }
            if e == x {
                assert(id.contains(e));
                let j = choose|j: int| 0 <= j < id.len() && id[j] == e;
                assert(ir[j] == e);
            }
        }
    }
}

/// Sorting by key gives a key-sorted sequence of the same length holding
/// the same entries.
pub proof fn lemma_sort_by_key<T>(items: Seq<(Seq<char>, T)>)
    ensures
        keys_sorted(sort_by_key(items)),
        sort_by_key(items).len() == items.len(),
        forall|e: (Seq<char>, T)| #[trigger] sort_by_key(items).contains(e) <==> items.contains(e),
    decreases items.len(),
{
    if items.len() > 0 {
        let d = items.drop_last();
        lemma_sort_by_key(d);
        lemma_insert_by_key(sort_by_key(d), items.last());
        assert forall|e: (Seq<char>, T)| #[trigger] sort_by_key(items).contains(e) <==> items.contains(
            e,
        ) by {
            if items.contains(e) {
                let i = choose|i: int| 0 <= i < items.len() && items[i] == e;
                if i < d.len() {
                    assert(d[i] == e);
                    assert(d.contains(e));
                }
            }
            if d.contains(e) {
                let i = choose|i: int| 0 <= i < d.len() && d[i] == e;
                assert(items[i] == e);
            }
            if e == items.last() {
                assert(items[items.len() - 1] == e);
            }
        }
    } else {
        assert forall|e: (Seq<char>, T)| #[trigger] sort_by_key(items).contains(e) <==> items.contains(
            e,
        ) by {}
    }
}

/// Entries at different positions of `v` stand in relation `differ`.
pub open spec fn pairwise<T>(v: Seq<T>, differ: spec_fn(T, T) -> bool) -> bool {
    forall|a: int, b: int| 0 <= a < v.len() && 0 <= b < v.len() && a != b ==> differ(
        #[trigger] v[a],
        #[trigger] v[b],
    )
}

/// Sorting by key keeps a relation that held between the entries at any
/// two positions.
#[verifier::spinoff_prover]
pub proof fn lemma_sort_by_key_pairwise<T>(
    items: Seq<(Seq<char>, T)>,
    differ: spec_fn((Seq<char>, T), (Seq<char>, T)) -> bool,
)
    requires
        pairwise(items, differ),
    ensures
        pairwise(sort_by_key(items), differ),
    decreases items.len(),
{
    if items.len() > 0 {
        let d = items.drop_last();
        let x = items.last();
        assert forall|a: int, b: int| 0 <= a < d.len() && 0 <= b < d.len() && a != b implies differ(
            #[trigger] d[a],
            #[trigger] d[b],
        ) by {
            assert(differ(items[a], items[b]));
        }
        lemma_sort_by_key_pairwise(d, differ);
        lemma_sort_by_key(d);
        let sd = sort_by_key(d);
        assert forall|i: int| 0 <= i < sd.len() implies differ(#[trigger] sd[i], x) && differ(x, sd[i])
            by {
            assert(sd.contains(sd[i]));
            assert(d.contains(sd[i]));
            let j = choose|j: int| 0 <= j < d.len() && d[j] == sd[i];
            assert(differ(items[j], items[items.len() - 1]));
            assert(differ(items[items.len() - 1], items[j]));
        }
        lemma_insert_pairwise(sd, x, differ);
    }
}

#[verifier::spinoff_prover]
proof fn lemma_insert_pairwise<T>(
    r: Seq<(Seq<char>, T)>,
    x: (Seq<char>, T),
    differ: spec_fn((Seq<char>, T), (Seq<char>, T)) -> bool,
)
    requires
        pairwise(r, differ),
        forall|i: int| 0 <= i < r.len() ==> differ(#[trigger] r[i], x) && differ(x, r[i]),
    ensures
        pairwise(insert_by_key(r, x), differ),
    decreases r.len(),
{
    let ir = insert_by_key(r, x);
    if r.len() == 0 {
        assert(ir =~= seq![x]);
    } else if lex_le(r.last().0, x.0) {
        assert(ir =~= r.push(x));
        assert forall|a: int, b: int| 0 <= a < ir.len() && 0 <= b < ir.len() && a != b implies differ(
            #[trigger] ir[a],
            #[trigger] ir[b],
        ) by {
            if a == r.len() {
                assert(differ(x, r[b]));
            } else if b == r.len() {
                assert(differ(r[a], x));
            } else {
                assert(differ(r[a], r[b]));
            }
        }
    } else {
        let d = r.drop_last();
        let last = r.last();
        assert forall|a: int, b: int| 0 <= a < d.len() && 0 <= b < d.len() && a != b implies differ(
            #[trigger] d[a],
            #[trigger] d[b],
        ) by {
            assert(differ(r[a], r[b]));
        }
        assert forall|i: int| 0 <= i < d.len() implies differ(#[trigger] d[i], x) && differ(x, d[i])
            by {
            assert(d[i] == r[i]);
        }
        lemma_insert_pairwise(d, x, differ);
        assert forall|i: int| 0 <= i < d.len() implies #[trigger] d[i] == r[i] by {}
        lemma_insert_by_key_any(d, x);
        let id = insert_by_key(d, x);
        assert(ir =~= id.push(last));
        assert forall|a: int| 0 <= a < id.len() implies differ(#[trigger] id[a], last) && differ(
            last,
            id[a],
        ) by {
            assert(id.contains(id[a]));
            if d.contains(id[a]) {
                let i = choose|i: int| 0 <= i < d.len() && d[i] == id[a];
                assert(differ(r[i], r[r.len() - 1]));
                assert(differ(r[r.len() - 1], r[i]));
            } else {
                assert(id[a] == x);
                assert(differ(r[r.len() - 1], x));
                assert(differ(x, r[r.len() - 1]));
            }
        }
        assert forall|a: int, b: int| 0 <= a < ir.len() && 0 <= b < ir.len() && a != b implies differ(
            #[trigger] ir[a],
            #[trigger] ir[b],
        ) by {
            if a == id.len() {
                assert(differ(last, id[b]));
            } else if b == id.len() {
                assert(differ(id[a], last));
            } else {
                assert(differ(id[a], id[b]));
            }
        }
    }
}

/// What `insert_by_key` holds, whether or not its input is sorted: the
/// entries of `r` and `x`.
#[verifier::spinoff_prover]
proof fn lemma_insert_by_key_any<T>(r: Seq<(Seq<char>, T)>, x: (Seq<char>, T))
    ensures
        forall|e: (Seq<char>, T)| #[trigger] insert_by_key(r, x).contains(e) ==> (r.contains(e) || e
            == x),
    decreases r.len(),
{
    let ir = insert_by_key(r, x);
    if r.len() == 0 {
        assert(ir =~= seq![x]);
        assert forall|e: (Seq<char>, T)| #[trigger] ir.contains(e) implies (r.contains(e) || e == x) by {
            let i = choose|i: int| 0 <= i < ir.len() && ir[i] == e;
            assert(i == 0);
        }
    } else if lex_le(r.last().0, x.0) {
        assert(ir =~= r.push(x));
        assert forall|e: (Seq<char>, T)| #[trigger] ir.contains(e) implies (r.contains(e) || e == x) by {
            let i = choose|i: int| 0 <= i < ir.len() && ir[i] == e;
            if i < r.len() {
                assert(r[i] == e);
            }
        }
    } else {
        let d = r.drop_last();
        lemma_insert_by_key_any(d, x);
        let id = insert_by_key(d, x);
        assert(ir =~= id.push(r.last()));
        assert forall|e: (Seq<char>, T)| #[trigger] ir.contains(e) implies (r.contains(e) || e == x) by {
            let i = choose|i: int| 0 <= i < ir.len() && ir[i] == e;
            if i < id.len() {
                assert(id[i] == e);
                assert(id.contains(e));
                if d.contains(e) {
                    let j = choose|j: int| 0 <= j < d.len() && d[j] == e;
                    assert(r[j] == e);
                }
            } else {
                assert(r[r.len() - 1] == e);
            }
        }
    }
}

} // verus!
