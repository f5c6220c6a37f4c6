//! What the compose view shows that is decided rather than drawn: the
//! word tokens of a body line, which of them are underlined as
//! misspelled, and which header row holds the text cursor.

use vstd::prelude::*;

use crate::app::{ComposeField, ComposeState};
use crate::editable::TextInput;
use crate::spellcheck::{contains_string, normalize_word, word_key};
use crate::text::{chars_of, is_whitespace, is_ws, strings_view, substring};

verus! {

/// The maximal runs of non-white-space characters of `s`, as
/// `(start, end)` character positions, left to right.
pub open spec fn word_spans(s: Seq<char>) -> Seq<(int, int)>
    decreases s.len(),
{
    if s.len() == 0 {
        Seq::empty()
    } else {
        let r = word_spans(s.drop_last());
        let n = s.len() - 1;
        if is_ws(s.last()) {
            r
        } else if n > 0 && !is_ws(s[n - 1]) {
            r.update(r.len() - 1, (r.last().0, n + 1))
        } else {
            r.push((n, n + 1))
        }
    }
}

/// Spans lie inside `s`, are non-empty, and come in order with a gap
/// between neighbours.
pub open spec fn spans_ok(len: int, sp: Seq<(int, int)>) -> bool {
    &&& forall|k: int| 0 <= k < sp.len() ==> 0 <= #[trigger] sp[k].0 < sp[k].1 <= len
    &&& forall|k: int, l: int| 0 <= k < l < sp.len() ==> #[trigger] sp[k].1 < #[trigger] sp[l].0
}

/// The shape of `word_spans`: well formed, and the last span reaches the
/// end exactly when the last character is not white space.
pub proof fn lemma_word_spans(s: Seq<char>)
    ensures
        spans_ok(s.len() as int, word_spans(s)),
        s.len() > 0 && !is_ws(s.last()) ==> word_spans(s).len() > 0 && word_spans(s).last().1
            == s.len(),
        word_spans(s).len() > 0 ==> word_spans(s).last().1 <= s.len(),
        s.len() > 0 && is_ws(s.last()) ==> (word_spans(s).len() == 0 || word_spans(s).last().1
            < s.len()),
    decreases s.len(),
{
    if s.len() > 0 {
        let t = s.drop_last();
        lemma_word_spans(t);
        let n = s.len() - 1;
        if n > 0 {
            assert(t.last() == s[n - 1]);
        }
    }
}

/// UTF-8 length of one character.
pub open spec fn char_width(c: char) -> nat {
    if (c as int) < 0x80 {
        1
    } else if (c as int) < 0x800 {
        2
    } else if (c as int) < 0x10000 {
        3
    } else {
        4
    }
}

/// UTF-8 length of a character sequence.
pub open spec fn byte_len(s: Seq<char>) -> nat
    decreases s.len(),
{
    if s.len() == 0 {
        0
    } else {
        byte_len(s.drop_last()) + char_width(s.last())
    }
}

/// `byte_len` grows with the prefix taken.
proof fn lemma_byte_len_mono(s: Seq<char>, i: int, j: int)
    requires
        0 <= i <= j <= s.len(),
    ensures
        byte_len(s.take(i)) <= byte_len(s.take(j)),
    decreases j - i,
{
    if i < j {
        lemma_byte_len_mono(s, i, j - 1);
        assert(s.take(j).drop_last() =~= s.take(j - 1));
    }
}

/// UTF-8 length of `c`.
fn utf8_width(c: char) -> (r: usize)
    ensures
        r == char_width(c),
{
    let code = c as u32;
    if code < 0x80 {
        1
    } else if code < 0x800 {
        2
    } else if code < 0x10000 {
        3
    } else {
        4
    }
}

/// The tokens of `line`: each maximal run of non-white-space characters
/// with the UTF-8 byte offset where it starts. Punctuation stays attached.
pub open spec fn line_tokens(line: Seq<char>) -> Seq<(int, Seq<char>)> {
    word_spans(line).map_values(
        |sp: (int, int)| (byte_len(line.take(sp.0)) as int, line.subrange(sp.0, sp.1)),
    )
}

/// Character spans of the words of `v` (see `word_spans`).
fn spans_of(v: &Vec<char>) -> (r: Vec<(usize, usize)>)
    ensures
        r@.map_values(|p: (usize, usize)| (p.0 as int, p.1 as int)) == word_spans(v@),
{
    let mut r: Vec<(usize, usize)> = Vec::new();
    let mut i: usize = 0;
    while i < v.len()
        invariant
            i <= v@.len(),
            r@.map_values(|p: (usize, usize)| (p.0 as int, p.1 as int)) == word_spans(
                v@.take(i as int),
            ),
        decreases v@.len() - i,
    {
        let ghost before = r@.map_values(|p: (usize, usize)| (p.0 as int, p.1 as int));
        proof {
            let t = v@.take(i + 1);
            assert(t.drop_last() =~= v@.take(i as int));
            assert(t.last() == v@[i as int]);
            if i > 0 {
                assert(t[i - 1] == v@[i - 1]);
                assert(v@.take(i as int).last() == v@[i - 1]);
            }
            lemma_word_spans(v@.take(i as int));
        }
        if is_whitespace(v[i]) {
        } else if i > 0 && !is_whitespace(v[i - 1]) {
            let last = r.len() - 1;
            let start = r[last].0;
            r.set(last, (start, i + 1));
            proof {
                assert(r@.map_values(|p: (usize, usize)| (p.0 as int, p.1 as int)) =~= before.update(
                    last as int,
                    (before.last().0, i + 1),
                ));
            }
        } else {
            r.push((i, i + 1));
            proof {
                assert(r@.map_values(|p: (usize, usize)| (p.0 as int, p.1 as int)) =~= before.push(
                    (i as int, i + 1),
                ));
            }
        }
        i += 1;
    }
    proof {
        assert(v@.take(v@.len() as int) =~= v@);
    }
    r
}

/// The tokens of `line` with their byte offsets (see `line_tokens`).
/// The offsets are UTF-8 byte positions, so `line` must be addressable.
pub fn tokens(line: &str) -> (r: Vec<(usize, String)>)
    requires
        byte_len(line@) <= usize::MAX,
    ensures
        r@.map_values(|p: (usize, String)| (p.0 as int, p.1@)) == line_tokens(line@),
{
    let v = chars_of(line);
    let spans = spans_of(&v);
    proof {
        lemma_word_spans(v@);
    }
    let ghost sp = spans@.map_values(|p: (usize, usize)| (p.0 as int, p.1 as int));
    let mut r: Vec<(usize, String)> = Vec::new();
    let mut k: usize = 0;
    let mut pos: usize = 0;
    let mut bytes: usize = 0;
    while k < spans.len()
        invariant
            k <= spans@.len(),
            v@ == line@,
            byte_len(line@) <= usize::MAX,
            sp == spans@.map_values(|p: (usize, usize)| (p.0 as int, p.1 as int)),
            sp == word_spans(line@),
            spans_ok(line@.len() as int, sp),
            k < spans@.len() ==> pos <= spans@[k as int].0,
            pos <= line@.len(),
            bytes == byte_len(line@.take(pos as int)),
            r@.map_values(|p: (usize, String)| (p.0 as int, p.1@)) == line_tokens(line@).take(
                k as int,
            ),
        decreases spans@.len() - k,
    {
        let (a, b) = spans[k];
        proof {
            assert(sp[k as int] == (a as int, b as int));
        }
        while pos < a
            invariant
                pos <= a <= line@.len(),
                v@ == line@,
                byte_len(line@) <= usize::MAX,
                bytes == byte_len(line@.take(pos as int)),
            decreases a - pos,
        {
            proof {
                assert(line@.take(pos + 1).drop_last() =~= line@.take(pos as int));
                lemma_byte_len_mono(line@, pos + 1, line@.len() as int);
                assert(line@.take(line@.len() as int) =~= line@);
            }
            bytes = bytes + utf8_width(v[pos]);
            pos += 1;
        }
        let word = substring(line, a, b);
        let ghost before = r@.map_values(|p: (usize, String)| (p.0 as int, p.1@));
        r.push((bytes, word));
        proof {
            assert(r@.map_values(|p: (usize, String)| (p.0 as int, p.1@)) =~= before.push(
                line_tokens(line@)[k as int],
            ));
            assert(line_tokens(line@).take(k + 1) =~= line_tokens(line@).take(k as int).push(
                line_tokens(line@)[k as int],
            ));
            if k + 1 < spans@.len() {
                assert(sp[k as int].1 < sp[k + 1].0);
            }
        }
        k += 1;
    }
    proof {
        assert(line_tokens(line@).take(spans@.len() as int) =~= line_tokens(line@));
    }
    r
}

/// The spans of `sp` whose word (in lookup form) is among `keys`.
pub open spec fn keep_flagged(line: Seq<char>, keys: Seq<Seq<char>>, sp: Seq<(int, int)>) -> Seq<
    (int, int),
>
    decreases sp.len(),
{
    if sp.len() == 0 {
        Seq::empty()
    } else {
        let r = keep_flagged(line, keys, sp.drop_last());
        let x = sp.last();
        if keys.contains(word_key(line.subrange(x.0, x.1))) {
            r.push(x)
        } else {
            r
        }
    }
}

/// The pieces of `line` from position `from` on: unflagged gaps and the
/// flagged spans `fl`, in order, and the unflagged tail.
pub open spec fn pieces_from(line: Seq<char>, fl: Seq<(int, int)>, from: int) -> Seq<
    (Seq<char>, bool),
>
    decreases fl.len(),
{
    if fl.len() == 0 {
        if from < line.len() {
            seq![(line.skip(from), false)]
        } else {
            Seq::empty()
        }
    } else {
        let a = fl[0].0;
        let b = fl[0].1;
        let gap: Seq<(Seq<char>, bool)> = if a > from {
            seq![(line.subrange(from, a), false)]
        } else {
            Seq::empty()
        };
        gap + seq![(line.subrange(a, b), true)] + pieces_from(line, fl.drop_first(), b)
    }
}

/// How a body line is rendered against the set of misspelled word keys:
/// each token whose lookup form is misspelled becomes a flagged piece
/// (punctuation and all), the text between stays unflagged; a line with
/// nothing flagged is one unflagged piece.
pub open spec fn highlighted(line: Seq<char>, keys: Seq<Seq<char>>) -> Seq<(Seq<char>, bool)> {
    let fl = keep_flagged(line, keys, word_spans(line));
    if keys.len() == 0 || fl.len() == 0 {
        seq![(line, false)]
    } else {
        pieces_from(line, fl, 0)
    }
}

/// The texts of rendered pieces, concatenated.
pub open spec fn concat_pieces(ps: Seq<(Seq<char>, bool)>) -> Seq<char>
    decreases ps.len(),
{
    if ps.len() == 0 {
        Seq::empty()
    } else {
        ps[0].0 + concat_pieces(ps.drop_first())
    }
}

/// Keeping only flagged spans keeps them well formed and ordered.
pub proof fn lemma_keep_flagged(line: Seq<char>, keys: Seq<Seq<char>>, sp: Seq<(int, int)>)
    requires
        spans_ok(line.len() as int, sp),
    ensures
        spans_ok(line.len() as int, keep_flagged(line, keys, sp)),
        keep_flagged(line, keys, sp).len() > 0 ==> sp.len() > 0 && keep_flagged(
            line,
            keys,
            sp,
        ).last().1 <= sp.last().1,
    decreases sp.len(),
{
    if sp.len() > 0 {
        let d = sp.drop_last();
        assert(spans_ok(line.len() as int, d)) by {
            assert forall|k: int| 0 <= k < d.len() implies 0 <= #[trigger] d[k].0 < d[k].1
                <= line.len() by {
                assert(d[k] == sp[k]);
            }
            assert forall|k: int, l: int| 0 <= k < l < d.len() implies #[trigger] d[k].1
                < #[trigger] d[l].0 by {
                assert(d[k] == sp[k] && d[l] == sp[l]);
            }
        }
        lemma_keep_flagged(line, keys, d);
        let r = keep_flagged(line, keys, d);
        let x = sp.last();
        if keys.contains(word_key(line.subrange(x.0, x.1))) {
            let q = r.push(x);
            if r.len() > 0 {
                assert(d.last() == sp[sp.len() - 2]);
                assert(sp[sp.len() - 2].1 < sp[sp.len() - 1].0);
            }
            assert forall|k: int, l: int| 0 <= k < l < q.len() implies #[trigger] q[k].1
                < #[trigger] q[l].0 by {
                if l == q.len() - 1 {
                    if k < r.len() - 1 {
                        assert(r[k].1 < r[r.len() - 1].0);
                    }
                } else {
                    assert(q[k] == r[k] && q[l] == r[l]);
                }
            }
            assert forall|k: int| 0 <= k < q.len() implies 0 <= #[trigger] q[k].0 < q[k].1
                <= line.len() by {
                if k < r.len() {
                    assert(q[k] == r[k]);
                }
            }
        } else {
            if r.len() > 0 {
                assert(d.last() == sp[sp.len() - 2]);
                assert(sp[sp.len() - 2].1 < sp[sp.len() - 1].0);
            }
        }
    }
}

proof fn lemma_concat_single(p: (Seq<char>, bool))
    ensures
        concat_pieces(seq![p]) == p.0,
{
    let q = seq![p];
    assert(q.drop_first() =~= Seq::<(Seq<char>, bool)>::empty());
    assert(concat_pieces(q.drop_first()) == Seq::<char>::empty());
    assert(q[0] == p);
    assert(p.0 + Seq::<char>::empty() =~= p.0);
}

/// The rendered pieces from `from` on spell out the rest of the line.
proof fn lemma_pieces_from(line: Seq<char>, fl: Seq<(int, int)>, from: int)
    requires
        spans_ok(line.len() as int, fl),
        0 <= from <= line.len(),
        fl.len() > 0 ==> from <= fl[0].0,
    ensures
        concat_pieces(pieces_from(line, fl, from)) == line.skip(from),
    decreases fl.len(),
{
    if fl.len() == 0 {
        if from < line.len() {
            lemma_concat_single((line.skip(from), false));
        } else {
            assert(line.skip(from) =~= Seq::<char>::empty());
        }
    } else {
        let a = fl[0].0;
        let b = fl[0].1;
        let rest = fl.drop_first();
        assert(spans_ok(line.len() as int, rest)) by {
            assert forall|k: int| 0 <= k < rest.len() implies 0 <= #[trigger] rest[k].0
                < rest[k].1 <= line.len() by {
                assert(rest[k] == fl[k + 1]);
            }
            assert forall|k: int, l: int| 0 <= k < l < rest.len() implies #[trigger] rest[k].1
                < #[trigger] rest[l].0 by {
                assert(rest[k] == fl[k + 1] && rest[l] == fl[l + 1]);
            }
        }
        if rest.len() > 0 {
            assert(fl[0].1 < fl[1].0);
        }
        lemma_pieces_from(line, rest, b);
        let tail = pieces_from(line, rest, b);
        let mid: Seq<(Seq<char>, bool)> = seq![(line.subrange(a, b), true)] + tail;
        assert(mid.drop_first() =~= tail);
        assert(concat_pieces(mid) == line.subrange(a, b) + line.skip(b));
        if a > from {
            let all = seq![(line.subrange(from, a), false)] + mid;
            assert(all.drop_first() =~= mid);
            assert(pieces_from(line, fl, from) =~= all);
            assert(line.subrange(from, a) + (line.subrange(a, b) + line.skip(b)) =~= line.skip(
                from,
            ));
        } else {
            assert(pieces_from(line, fl, from) =~= mid);
            assert(line.subrange(a, b) + line.skip(b) =~= line.skip(from));
        }
    }
}

/// Rendering a line with spellcheck highlighting never changes its text:
/// the pieces, concatenated, are the line.
pub proof fn law_highlight_keeps_text(line: Seq<char>, keys: Seq<Seq<char>>)
    ensures
        concat_pieces(highlighted(line, keys)) == line,
{
    let fl = keep_flagged(line, keys, word_spans(line));
    lemma_word_spans(line);
    lemma_keep_flagged(line, keys, word_spans(line));
    if keys.len() == 0 || fl.len() == 0 {
        lemma_concat_single((line, false));
    } else {
        lemma_pieces_from(line, fl, 0);
        assert(line.skip(0) =~= line);
    }
}

/// The pieces of `line` with misspelled tokens marked (see
/// `highlighted`); `misspelled` holds word keys (see `normalize_word`).
pub fn spellcheck_line(line: &str, misspelled: &Vec<String>) -> (r: Vec<(String, bool)>)
    ensures
        r@.map_values(|p: (String, bool)| (p.0@, p.1)) == highlighted(
            line@,
            strings_view(misspelled@),
        ),
{
    let ghost keys = strings_view(misspelled@);
    let whole = String::from_str(line);
    if misspelled.len() == 0 {
        let r = vec![(whole, false)];
        proof {
            assert(r@.map_values(|p: (String, bool)| (p.0@, p.1)) =~= seq![(line@, false)]);
        }
        return r;
    }
    let v = chars_of(line);
    let spans = spans_of(&v);
    let ghost sp = spans@.map_values(|p: (usize, usize)| (p.0 as int, p.1 as int));
    proof {
        lemma_word_spans(v@);
    }
    let mut fl: Vec<(usize, usize)> = Vec::new();
    let mut k: usize = 0;
    while k < spans.len()
        invariant
            k <= spans@.len(),
            v@ == line@,
            keys == strings_view(misspelled@),
            sp == spans@.map_values(|p: (usize, usize)| (p.0 as int, p.1 as int)),
            sp == word_spans(line@),
            spans_ok(line@.len() as int, sp),
            fl@.map_values(|p: (usize, usize)| (p.0 as int, p.1 as int)) == keep_flagged(
                line@,
                keys,
                sp.take(k as int),
            ),
        decreases spans@.len() - k,
    {
        let (a, b) = spans[k];
        proof {
            assert(sp[k as int] == (a as int, b as int));
            assert(sp.take(k + 1).drop_last() =~= sp.take(k as int));
            assert(sp.take(k + 1).last() == sp[k as int]);
        }
        let word = substring(line, a, b);
        let key = normalize_word(word.as_str());
        if contains_string(misspelled, key.as_str()) {
            let ghost before = fl@.map_values(|p: (usize, usize)| (p.0 as int, p.1 as int));
            fl.push((a, b));
            proof {
                assert(fl@.map_values(|p: (usize, usize)| (p.0 as int, p.1 as int)) =~= before.push(
                    (a as int, b as int),
                ));
            }
        }
        k += 1;
    }
    proof {
        assert(sp.take(spans@.len() as int) =~= sp);
    }
    let ghost flv = fl@.map_values(|p: (usize, usize)| (p.0 as int, p.1 as int));
    if fl.len() == 0 {
        let r = vec![(whole, false)];
        proof {
            assert(r@.map_values(|p: (String, bool)| (p.0@, p.1)) =~= seq![(line@, false)]);
        }
        return r;
    }
    proof {
        lemma_keep_flagged(line@, keys, sp);
    }
    let n = v.len();
    let mut out: Vec<(String, bool)> = Vec::new();
    let mut last_end: usize = 0;
    let mut j: usize = 0;
    proof {
        assert(flv.skip(0) =~= flv);
        assert(out@.map_values(|p: (String, bool)| (p.0@, p.1)) + pieces_from(line@, flv, 0)
            =~= pieces_from(line@, flv, 0));
    }
    while j < fl.len()
        invariant
            j <= fl@.len(),
            n == line@.len(),
            flv == fl@.map_values(|p: (usize, usize)| (p.0 as int, p.1 as int)),
            spans_ok(line@.len() as int, flv),
            last_end <= n,
            j < fl@.len() ==> last_end <= flv[j as int].0,
            out@.map_values(|p: (String, bool)| (p.0@, p.1)) + pieces_from(
                line@,
                flv.skip(j as int),
                last_end as int,
            ) == pieces_from(line@, flv, 0),
        decreases fl@.len() - j,
    {
        let (a, b) = fl[j];
        let ghost before = out@.map_values(|p: (String, bool)| (p.0@, p.1));
        proof {
            assert(flv[j as int] == (a as int, b as int));
            let rest = flv.skip(j as int);
            assert(rest[0] == flv[j as int]);
            assert(rest.drop_first() =~= flv.skip(j + 1));
            if j + 1 < fl@.len() {
                assert(flv[j as int].1 < flv[j + 1].0);
            }
        }
        if a > last_end {
            let gap = substring(line, last_end, a);
            out.push((gap, false));
        }
        let tok = substring(line, a, b);
        out.push((tok, true));
        proof {
            let gap_piece: Seq<(Seq<char>, bool)> = if a > last_end {
                seq![(line@.subrange(last_end as int, a as int), false)]
            } else {
                Seq::empty()
            };
            assert(out@.map_values(|p: (String, bool)| (p.0@, p.1)) =~= before + gap_piece + seq![
                (line@.subrange(a as int, b as int), true),
            ]);
        }
        last_end = b;
        j += 1;
    }
    let ghost before = out@.map_values(|p: (String, bool)| (p.0@, p.1));
    if last_end < n {
        let tail = substring(line, last_end, n);
        out.push((tail, false));
        proof {
            assert(line@.subrange(last_end as int, n as int) =~= line@.skip(last_end as int));
            assert(out@.map_values(|p: (String, bool)| (p.0@, p.1)) =~= before + seq![
                (line@.skip(last_end as int), false),
            ]);
        }
    }
    proof {
        assert(flv.skip(fl@.len() as int) =~= Seq::<(int, int)>::empty());
        if last_end >= n {
            assert(before + Seq::<(Seq<char>, bool)>::empty() =~= before);
        }
    }
    out
}

/// The header row (To, Cc, Bcc, Subject) holding the text cursor, with
/// that row's field; `None` while the attachments or the body has focus.
pub fn focused_input_row(compose: &ComposeState) -> (r: Option<(u16, &TextInput)>)
    ensures
        match compose.focus {
            ComposeField::To => r == Some((0u16, &compose.to)),
            ComposeField::Cc => r == Some((1u16, &compose.cc)),
            ComposeField::Bcc => r == Some((2u16, &compose.bcc)),
            ComposeField::Subject => r == Some((3u16, &compose.subject)),
            _ => r is None,
        },
{
    match compose.focus {
        ComposeField::To => Some((0, &compose.to)),
        ComposeField::Cc => Some((1, &compose.cc)),
        ComposeField::Bcc => Some((2, &compose.bcc)),
        ComposeField::Subject => Some((3, &compose.subject)),
        ComposeField::Attachments | ComposeField::Body => None,
    }
}

} // verus!
