//! Properties that relate several operations of the library: what one
//! edit undoes of another, what reading back gives of writing, and the
//! order results come in.

use vstd::prelude::*;

use crate::app::{
    App, ComposeField, all_indices, envelope_matches, field_after, field_before, matching_indices,
    visible_of,
};
use crate::editable::{TextArea, TextInput, clamp, join_lines};
use crate::types::Envelope;
use crate::keys::{
    EditOp, Effect, Key, Session, area_after, area_newline, area_ok, input_after, input_ok, key_post,
    list_key_post, selected_uid_of,
};
use crate::attach::sorted_strings;
use crate::spellcheck::{dictionary_stem, first_by_identity, join_with, stems_among};
use crate::store::{
    address_book, email_index, keyed_senders, merged_senders, no_reply, nonempty_pieces, sender_key,
};
use crate::sync::{escaped, flags_of, full_sync_start, insert_desc, sorted_desc};
use crate::compose_view::{
    highlighted, keep_flagged, lemma_keep_flagged, lemma_word_spans, pieces_from, spans_ok, word_spans,
};
use crate::imap::shown_body;
use crate::spellcheck::word_key;
use crate::types::Flag;
use crate::fuzzy::{best_of, candidates, find_from, fuzzy_score, insert_ranked, label_of, rank, run_points};
use crate::text::{
    all_ws, has_prefix, insert_at, lemma_sort_by_key, lemma_sort_by_key_pairwise, lex_le, lowercase,
    remove_at, sort_by_key, split_char,
};

verus! {

/// Typing a character and then Backspace gives a single-line field back
/// its text and cursor.
pub proof fn law_backspace_undoes_insert(t: TextInput, c: char, u: TextInput, w: TextInput)
    requires
        input_ok(t),
        input_after(t, EditOp::Insert(c), u),
        input_after(u, EditOp::Backspace, w),
    ensures
        w.value@ == t.value@,
        w.cursor == t.cursor,
{
    let v = t.value@;
    let k = t.cursor as int;
    assert(clamp(k, v.len() as int) == k);
    assert(remove_at(insert_at(v, k, c), k) =~= v);
}

/// Enter and then Backspace in the body give back its lines, with the
/// cursor where Enter split the line. `area_newline` and
/// `area_after(.., Backspace, ..)` are what `TextArea::newline` and
/// `TextArea::backspace` promise; Enter needs room for one more line.
pub proof fn law_backspace_undoes_newline(a: TextArea, b: TextArea, c: TextArea)
    requires
        area_ok(a),
        a.lines@.len() < usize::MAX,
        area_newline(a, b),
        area_after(b, EditOp::Backspace, c),
    ensures
        c.view_lines() == a.view_lines(),
        c.cursor_row == a.cursor_row,
        c.cursor_col == a.cursor_col,
{
    let row = a.cursor_row as int;
    let cur = a.current();
    let k = a.cursor_col as int;
    assert(a.view_lines().len() == a.lines@.len());
    assert(a.view_lines()[row] == cur);
    assert(clamp(k, cur.len() as int) == k);
    let l = a.view_lines();
    let bl = l.update(row, cur.take(k)).insert(row + 1, cur.skip(k));
    assert(b.view_lines() == bl);
    assert(bl[row] == cur.take(k));
    assert(bl[row + 1] == cur.skip(k));
    assert(b.cursor_row == row + 1 && b.cursor_col == 0);
    assert(b.view_lines()[row + 1] == b.current()) by {
        assert(b.view_lines().len() == b.lines@.len());
    }
    assert(cur.take(k) + cur.skip(k) =~= cur);
    assert(bl.update(row, cur.take(k) + cur.skip(k)).remove(row + 1) =~= l);
}

/// Where character `col` of line `row` of `lines` stands in the joined
/// text: the lengths of the lines before it, each with its line break,
/// plus `col`.
pub open spec fn text_offset(lines: Seq<Seq<char>>, row: int, col: int) -> int
    decreases row,
{
    if row <= 0 {
        col
    } else {
        text_offset(lines, row - 1, col) + lines[row - 1].len() + 1
    }
}

/// Joining two non-empty runs of lines puts one line break between them.
proof fn lemma_join_append(a: Seq<Seq<char>>, b: Seq<Seq<char>>)
    requires
        a.len() > 0,
        b.len() > 0,
    ensures
        join_lines(a + b) == join_lines(a) + seq!['\n'] + join_lines(b),
    decreases b.len(),
{
    if b.len() == 1 {
        assert((a + b).drop_last() =~= a);
        assert((a + b).last() == b[0]);
    } else {
        assert((a + b).drop_last() =~= a + b.drop_last());
        assert((a + b).last() == b.last());
        lemma_join_append(a, b.drop_last());
        assert(join_lines(a + b) =~= join_lines(a) + seq!['\n'] + join_lines(b));
    }
}

/// The joined text of the lines before `row`, with its break, is
/// `text_offset(lines, row, 0)` long.
proof fn lemma_text_offset(lines: Seq<Seq<char>>, row: int)
    requires
        0 < row <= lines.len(),
    ensures
        text_offset(lines, row, 0) == join_lines(lines.take(row)).len() + 1,
    decreases row,
{
    assert(text_offset(lines, row, 0) == text_offset(lines, row - 1, 0) + lines[row - 1].len() + 1);
    if row == 1 {
        assert(text_offset(lines, 0, 0) == 0);
        assert(lines.take(1) =~= seq![lines[0]]);
        assert(join_lines(lines.take(1)) == lines[0]);
    } else {
        lemma_text_offset(lines, row - 1);
        let t = lines.take(row);
        assert(t.drop_last() =~= lines.take(row - 1));
        assert(t.last() == lines[row - 1]);
        assert(join_lines(t) == join_lines(t.drop_last()) + seq!['\n'] + t.last());
    }
}

/// `text_offset` adds the column.
proof fn lemma_text_offset_col(lines: Seq<Seq<char>>, row: int, col: int)
    ensures
        text_offset(lines, row, col) == text_offset(lines, row, 0) + col,
    decreases row,
{
    if row > 0 {
        lemma_text_offset_col(lines, row - 1, col);
        assert(text_offset(lines, row, col) == text_offset(lines, row - 1, col) + lines[row - 1].len() + 1);
        assert(text_offset(lines, row, 0) == text_offset(lines, row - 1, 0) + lines[row - 1].len() + 1);
    }
}

/// The joined text of `p`, then the line `x`, then `q`: `x` with the
/// text before it and after it.
proof fn lemma_join_middle(p: Seq<Seq<char>>, mid: Seq<Seq<char>>, q: Seq<Seq<char>>)
    requires
        mid.len() > 0,
    ensures
        join_lines(p + mid + q) == (if p.len() > 0 {
            join_lines(p) + seq!['\n']
        } else {
            Seq::<char>::empty()
        }) + join_lines(mid) + (if q.len() > 0 {
            seq!['\n'] + join_lines(q)
        } else {
            Seq::<char>::empty()
        }),
{
    let e = Seq::<char>::empty();
    if p.len() > 0 {
        lemma_join_append(p, mid);
        if q.len() > 0 {
            lemma_join_append(p + mid, q);
            assert(join_lines(p + mid + q) =~= join_lines(p) + seq!['\n'] + join_lines(mid) + (seq!['\n']
                + join_lines(q)));
        } else {
            assert(p + mid + q =~= p + mid);
            assert(join_lines(p + mid + q) =~= join_lines(p) + seq!['\n'] + join_lines(mid) + e);
        }
    } else {
        assert(p + mid =~= mid);
        if q.len() > 0 {
            lemma_join_append(mid, q);
            assert(join_lines(p + mid + q) =~= e + join_lines(mid) + (seq!['\n'] + join_lines(q)));
        } else {
            assert(p + mid + q =~= mid);
            assert(join_lines(p + mid + q) =~= e + join_lines(mid) + e);
        }
    }
}

/// Enter in the body puts one line break into its text, at the cursor's
/// character offset, and adds one line; the cursor goes to the start of
/// the new line. `area_newline` is what `TextArea::newline` promises;
/// Enter needs room for one more line.
#[verifier::spinoff_prover]
pub proof fn law_newline_inserts_line_break(a: TextArea, b: TextArea)
    requires
        area_ok(a),
        a.lines@.len() < usize::MAX,
        area_newline(a, b),
    ensures
        join_lines(b.view_lines()) == insert_at(
            join_lines(a.view_lines()),
            text_offset(a.view_lines(), a.cursor_row as int, a.cursor_col as int),
            '\n',
        ),
        b.view_lines().len() == a.view_lines().len() + 1,
        b.cursor_row == a.cursor_row + 1,
        b.cursor_col == 0,
{
    let l = a.view_lines();
    let row = a.cursor_row as int;
    let k = a.cursor_col as int;
    let cur = a.current();
    assert(l.len() == a.lines@.len());
    assert(l[row] == cur);
    assert(clamp(k, cur.len() as int) == k);
    let t = cur.take(k);
    let u = cur.skip(k);
    let p = l.take(row);
    let q = l.skip(row + 1);
    let bl = l.update(row, t).insert(row + 1, u);
    assert(b.view_lines() == bl);
    assert(l =~= p + seq![cur] + q);
    assert(bl =~= p + seq![t, u] + q);
    lemma_join_middle(p, seq![cur], q);
    lemma_join_middle(p, seq![t, u], q);
    assert(join_lines(seq![cur]) == cur);
    assert(seq![t, u].drop_last() =~= seq![t]);
    assert(join_lines(seq![t]) == t);
    assert(join_lines(seq![t, u]) == t + seq!['\n'] + u);
    let e = Seq::<char>::empty();
    let before = if p.len() > 0 {
        join_lines(p) + seq!['\n']
    } else {
        e
    };
    let after = if q.len() > 0 {
        seq!['\n'] + join_lines(q)
    } else {
        e
    };
    lemma_text_offset_col(l, row, k);
    if row > 0 {
        lemma_text_offset(l, row);
    }
    assert(text_offset(l, row, k) == before.len() + k);
    let whole = before + cur + after;
    assert(join_lines(l) == whole);
    assert(join_lines(bl) == before + (t + seq!['\n'] + u) + after);
    assert(cur =~= t + u);
    assert(insert_at(whole, before.len() + k, '\n') =~= before + (t + seq!['\n'] + u) + after);
}

/// Tab and Shift+Tab undo each other, and six Tabs visit every compose
/// field once and come back.
pub proof fn law_tab_order(f: ComposeField)
    ensures
        field_before(field_after(f)) == f,
        field_after(field_before(f)) == f,
        field_after(field_after(field_after(field_after(field_after(field_after(f)))))) == f,
{
}

/// Splitting on a separator distributes over joining at one.
proof fn lemma_split_append(a: Seq<char>, b: Seq<char>, c: char)
    ensures
        split_char(a + seq![c] + b, c) == split_char(a, c) + split_char(b, c),
    decreases b.len(),
{
    if b.len() == 0 {
        assert(a + seq![c] + b =~= a.push(c));
        assert((a.push(c)).drop_last() =~= a);
        assert(split_char(b, c) =~= seq![Seq::<char>::empty()]);
        assert(split_char(a, c).push(Seq::empty()) =~= split_char(a, c) + seq![Seq::<char>::empty()]);
    } else {
        let s = a + seq![c] + b;
        assert(s.drop_last() =~= a + seq![c] + b.drop_last());
        assert(s.last() == b.last());
        lemma_split_append(a, b.drop_last(), c);
        crate::text::lemma_split_char_len(b.drop_last(), c);
        crate::text::lemma_split_char_len(a, c);
        let x = split_char(a, c);
        let y = split_char(b.drop_last(), c);
        if b.last() == c {
            assert((x + y).push(Seq::empty()) =~= x + y.push(Seq::empty()));
        } else {
            assert((x + y).update((x + y).len() - 1, (x + y).last().push(b.last())) =~= x
                + y.update(y.len() - 1, y.last().push(b.last())));
        }
    }
}

/// A text without the separator splits into itself alone.
proof fn lemma_split_none(t: Seq<char>, c: char)
    requires
        !t.contains(c),
    ensures
        split_char(t, c) == seq![t],
    decreases t.len(),
{
    if t.len() == 0 {
        assert(t =~= Seq::<char>::empty());
    } else {
        let d = t.drop_last();
        assert(!d.contains(c)) by {
            if d.contains(c) {
                let k = choose|k: int| 0 <= k < d.len() && d[k] == c;
                assert(t[k] == c);
            }
        }
        lemma_split_none(d, c);
        assert(t[t.len() - 1] == t.last());
        if t.last() == c {
            assert(t.contains(c));
        }
        assert(d.push(t.last()) =~= t);
        assert(seq![d].last() == d);
        assert(seq![d].update(0, d.push(t.last())) =~= seq![t]);
    }
}

/// Splitting at `c` undoes joining with `c` when no part holds `c` and
/// there is at least one part.
proof fn lemma_split_join(parts: Seq<Seq<char>>, c: char)
    requires
        parts.len() >= 1,
        forall|i: int| 0 <= i < parts.len() ==> !(#[trigger] parts[i]).contains(c),
    ensures
        split_char(join_with(parts, c), c) == parts,
    decreases parts.len(),
{
    if parts.len() == 1 {
        lemma_split_none(parts[0], c);
        assert(seq![parts[0]] =~= parts);
    } else {
        let init = parts.drop_last();
        assert forall|i: int| 0 <= i < init.len() implies !(#[trigger] init[i]).contains(c) by {
            assert(init[i] == parts[i]);
        }
        lemma_split_join(init, c);
        assert(!parts[parts.len() - 1].contains(c));
        lemma_split_none(parts.last(), c);
        lemma_split_append(join_with(init, c), parts.last(), c);
        assert(init + seq![parts.last()] =~= parts);
    }
}

/// Joining body lines with newlines (what the whole-body spellcheck is
/// handed) and splitting the text at newlines (how that check walks it)
/// gives back the lines, one entry per line, empty lines included.
pub proof fn law_split_inverts_join(lines: Seq<Seq<char>>)
    requires
        lines.len() >= 1,
        forall|i: int| 0 <= i < lines.len() ==> !(#[trigger] lines[i]).contains('\n'),
    ensures
        split_char(join_lines(lines), '\n') == lines,
{
    assert(join_lines(lines) == join_with(lines, '\n')) by {
        lemma_join_lines_with(lines);
    }
    lemma_split_join(lines, '\n');
}

proof fn lemma_join_lines_with(lines: Seq<Seq<char>>)
    ensures
        join_lines(lines) == join_with(lines, '\n'),
    decreases lines.len(),
{
    if lines.len() > 1 {
        lemma_join_lines_with(lines.drop_last());
    }
}

/// An outbox entry's recipients read back as stored: joining them with
/// commas and taking the non-empty comma-separated pieces gives them back,
/// when none is empty or holds a comma.
pub proof fn law_recipients_round_trip(rs: Seq<Seq<char>>)
    requires
        forall|i: int| 0 <= i < rs.len() ==> (#[trigger] rs[i]).len() > 0 && !rs[i].contains(','),
    ensures
        nonempty_pieces(split_char(join_with(rs, ','), ',')) == rs,
{
    if rs.len() == 0 {
        let one = seq![Seq::<char>::empty()];
        assert(split_char(join_with(rs, ','), ',') =~= one);
        assert(one.drop_last() =~= Seq::<Seq<char>>::empty());
        assert(one.last().len() == 0);
        assert(nonempty_pieces(one.drop_last()) == Seq::<Seq<char>>::empty());
        assert(rs =~= Seq::<Seq<char>>::empty());
    } else {
        lemma_split_join(rs, ',');
        lemma_nonempty_pieces_keep(rs);
    }
}

proof fn lemma_nonempty_pieces_keep(rs: Seq<Seq<char>>)
    requires
        forall|i: int| 0 <= i < rs.len() ==> (#[trigger] rs[i]).len() > 0,
    ensures
        nonempty_pieces(rs) == rs,
    decreases rs.len(),
{
    if rs.len() > 0 {
        let d = rs.drop_last();
        assert forall|i: int| 0 <= i < d.len() implies (#[trigger] d[i]).len() > 0 by {
            assert(d[i] == rs[i]);
        }
        lemma_nonempty_pieces_keep(d);
        assert(rs[rs.len() - 1].len() > 0);
        assert(d.push(rs.last()) =~= rs);
    }
}

/// How an IMAP quoted string is read: a backslash takes the next
/// character literally.
pub open spec fn unescaped(s: Seq<char>) -> Seq<char>
    decreases s.len(),
{
    if s.len() == 0 {
        s
    } else if s[0] == '\\' && s.len() >= 2 {
        seq![s[1]] + unescaped(s.skip(2))
    } else {
        seq![s[0]] + unescaped(s.skip(1))
    }
}

/// `escaped` of a concatenation is the concatenation of `escaped`.
proof fn lemma_escaped_append(a: Seq<char>, b: Seq<char>)
    ensures
        escaped(a + b) == escaped(a) + escaped(b),
    decreases b.len(),
{
    if b.len() == 0 {
        assert(a + b =~= a);
        assert(escaped(a) + escaped(b) =~= escaped(a));
    } else {
        assert((a + b).drop_last() =~= a + b.drop_last());
        assert((a + b).last() == b.last());
        lemma_escaped_append(a, b.drop_last());
        let c = b.last();
        let piece = if c == '\\' || c == '"' {
            seq!['\\', c]
        } else {
            seq![c]
        };
        assert(escaped(a) + escaped(b.drop_last()) + piece =~= escaped(a) + (escaped(
            b.drop_last(),
        ) + piece));
    }
}

/// Reading back an escaped search term gives the term: escaping
/// backslashes before quotes never leaves a dangling escape.
pub proof fn law_escape_round_trip(s: Seq<char>)
    ensures
        unescaped(escaped(s)) == s,
    decreases s.len(),
{
    if s.len() > 0 {
        let c = s[0];
        let rest = s.skip(1);
        assert(seq![c] + rest =~= s);
        lemma_escaped_append(seq![c], rest);
        assert(seq![c].drop_last() =~= Seq::<char>::empty());
        assert(seq![c].last() == c);
        assert(escaped(Seq::<char>::empty()) == Seq::<char>::empty());
        let piece = if c == '\\' || c == '"' {
            seq!['\\', c]
        } else {
            seq![c]
        };
        assert(escaped(seq![c]) == escaped(seq![c].drop_last()) + piece);
        assert(escaped(seq![c]) =~= piece);
        law_escape_round_trip(rest);
        let e = piece + escaped(rest);
        if c == '\\' || c == '"' {
            assert(e[0] == '\\' && e[1] == c);
            assert(e.skip(2) =~= escaped(rest));
        } else {
            assert(e[0] == c);
            assert(e.skip(1) =~= escaped(rest));
        }
        assert(seq![c] + rest =~= s);
    }
}

/// How many backslashes stand right before position `i` of `e`.
pub open spec fn backslashes_before(e: Seq<char>, i: int) -> nat
    decreases i,
{
    if 0 < i <= e.len() && e[i - 1] == '\\' {
        1 + backslashes_before(e, i - 1)
    } else {
        0
    }
}

/// Appending text does not change the backslashes before a position of
/// `e`.
proof fn lemma_backslashes_before_prefix(e: Seq<char>, x: Seq<char>, i: int)
    requires
        0 <= i <= e.len(),
    ensures
        backslashes_before(e + x, i) == backslashes_before(e, i),
    decreases i,
{
    if i > 0 {
        assert((e + x)[i - 1] == e[i - 1]);
        lemma_backslashes_before_prefix(e, x, i - 1);
    }
}

/// An escaped term ends in an even run of backslashes, and every double
/// quote in it follows an odd one.
proof fn lemma_escaped_quotes(s: Seq<char>)
    ensures
        backslashes_before(escaped(s), escaped(s).len() as int) % 2 == 0,
        forall|i: int|
            0 <= i < escaped(s).len() && #[trigger] escaped(s)[i] == '"' ==> backslashes_before(escaped(s), i)
                % 2 == 1,
    decreases s.len(),
{
    if s.len() > 0 {
        let d = s.drop_last();
        let c = s.last();
        lemma_escaped_quotes(d);
        let e = escaped(d);
        let n = e.len() as int;
        let piece = if c == '\\' || c == '"' {
            seq!['\\', c]
        } else {
            seq![c]
        };
        let f = escaped(s);
        assert(f == e + piece);
        assert forall|i: int| 0 <= i <= n implies backslashes_before(f, i) == backslashes_before(e, i) by {
            lemma_backslashes_before_prefix(e, piece, i);
        }
        if c == '\\' || c == '"' {
            assert(f[n] == '\\' && f[n + 1] == c);
            assert(backslashes_before(f, n + 1) == 1 + backslashes_before(f, n));
            if c == '\\' {
                assert(backslashes_before(f, n + 2) == 1 + backslashes_before(f, n + 1));
            }
        } else {
            assert(f[n] == c);
        }
        assert forall|i: int| 0 <= i < f.len() && #[trigger] f[i] == '"' implies backslashes_before(f, i) % 2
            == 1 by {
            if i < n {
                assert(f[i] == e[i]);
            }
        }
    }
}

/// A search term is quoted safely: every double quote in the escaped term
/// follows an odd run of backslashes, so none closes the quoted string;
/// and a term with no backslash and no double quote is left as it is.
pub proof fn law_escape_keeps_quotes_escaped(s: Seq<char>)
    ensures
        forall|i: int|
            0 <= i < escaped(s).len() && #[trigger] escaped(s)[i] == '"' ==> backslashes_before(escaped(s), i)
                % 2 == 1,
        (forall|i: int| 0 <= i < s.len() ==> #[trigger] s[i] != '\\' && s[i] != '"') ==> escaped(s) == s,
    decreases s.len(),
{
    lemma_escaped_quotes(s);
    if s.len() > 0 {
        let d = s.drop_last();
        law_escape_keeps_quotes_escaped(d);
        if forall|i: int| 0 <= i < s.len() ==> #[trigger] s[i] != '\\' && s[i] != '"' {
            assert forall|i: int| 0 <= i < d.len() implies #[trigger] d[i] != '\\' && d[i] != '"' by {
                assert(d[i] == s[i]);
            }
            assert(s[s.len() - 1] == s.last());
            assert(escaped(s) =~= s);
        }
    }
}

/// A full sync fetches exactly the newest `fetch_limit` messages, or all
/// of them when there are fewer.
pub proof fn law_full_sync_size(exists: u32, fetch_limit: u32)
    requires
        exists >= 1,
        fetch_limit >= 1,
    ensures
        1 <= full_sync_start(exists as int, fetch_limit as int) <= exists,
        exists - full_sync_start(exists as int, fetch_limit as int) + 1 == (if exists
            < fetch_limit {
            exists as int
        } else {
            fetch_limit as int
        }),
{
}

/// Descending order.
pub open spec fn is_desc(v: Seq<u32>) -> bool {
    forall|i: int, j: int| 0 <= i < j < v.len() ==> v[i] >= v[j]
}

proof fn lemma_insert_desc_sorted(sorted: Seq<u32>, x: u32)
    requires
        is_desc(sorted),
    ensures
        is_desc(insert_desc(sorted, x)),
        insert_desc(sorted, x).len() == sorted.len() + 1,
        forall|i: int| 0 <= i < insert_desc(sorted, x).len() ==> #[trigger] insert_desc(sorted, x)[i] == x
            || sorted.contains(insert_desc(sorted, x)[i]),
    decreases sorted.len(),
{
    if sorted.len() > 0 && sorted.last() < x {
        let d = sorted.drop_last();
        assert(is_desc(d)) by {
            assert forall|i: int, j: int| 0 <= i < j < d.len() implies d[i] >= d[j] by {
                assert(d[i] == sorted[i] && d[j] == sorted[j]);
            }
        }
        lemma_insert_desc_sorted(d, x);
        let r = insert_desc(d, x);
        let q = r.push(sorted.last());
        assert forall|i: int| 0 <= i < r.len() implies r[i] >= sorted.last() by {
            if r[i] != x {
                assert(d.contains(r[i]));
                let k = choose|k: int| 0 <= k < d.len() && d[k] == r[i];
                assert(sorted[k] == d[k]);
                assert(sorted[k] >= sorted[sorted.len() - 1]);
            }
        }
        assert forall|i: int, j: int| 0 <= i < j < q.len() implies q[i] >= q[j] by {
            if j == q.len() - 1 {
                assert(q[i] == r[i]);
            } else {
                assert(q[i] == r[i] && q[j] == r[j]);
            }
        }
        assert forall|i: int| 0 <= i < q.len() implies #[trigger] q[i] == x || sorted.contains(q[i]) by {
            if i < r.len() {
                if q[i] != x {
                    assert(d.contains(r[i]));
                    let k = choose|k: int| 0 <= k < d.len() && d[k] == r[i];
                    assert(sorted[k] == d[k]);
                }
            } else {
                assert(sorted[sorted.len() - 1] == q[i]);
            }
        }
    } else if sorted.len() > 0 {
        let q = sorted.push(x);
        assert forall|i: int, j: int| 0 <= i < j < q.len() implies q[i] >= q[j] by {
            if j == q.len() - 1 {
                assert(sorted[i] >= sorted[sorted.len() - 1]);
            }
        }
        assert forall|i: int| 0 <= i < q.len() implies #[trigger] q[i] == x || sorted.contains(q[i]) by {
            if i < sorted.len() {
                assert(sorted[i] == q[i]);
            }
        }
    }
}

/// The UIDs picked for fetching older mail or search matches come highest
/// first.
pub proof fn law_newest_uids_descending(v: Seq<u32>)
    ensures
        is_desc(sorted_desc(v)),
        sorted_desc(v).len() == v.len(),
    decreases v.len(),
{
    if v.len() > 0 {
        law_newest_uids_descending(v.drop_last());
        lemma_insert_desc_sorted(sorted_desc(v.drop_last()), v.last());
    }
}


/// `n` occurs in `h` in order, not necessarily contiguously: some strictly
/// increasing positions of `h` hold the characters of `n` one by one.
pub open spec fn is_subsequence(n: Seq<char>, h: Seq<char>) -> bool {
    exists|idx: Seq<int>| #[trigger] places(n, h, idx)
}

/// `idx` places the characters of `n` at strictly increasing positions of
/// `h`.
pub open spec fn places(n: Seq<char>, h: Seq<char>, idx: Seq<int>) -> bool {
    &&& idx.len() == n.len()
    &&& forall|k: int| 0 <= k < n.len() ==> 0 <= #[trigger] idx[k] < h.len() && h[idx[k]] == n[k]
    &&& forall|a: int, b: int| 0 <= a < b < n.len() ==> #[trigger] idx[a] < #[trigger] idx[b]
}

/// `idx` places `n[j..]` in `h` at strictly increasing positions from `from` on.
spec fn places_from(n: Seq<char>, h: Seq<char>, j: int, from: int, idx: Seq<int>) -> bool {
    &&& idx.len() == n.len() - j
    &&& forall|k: int|
        0 <= k < idx.len() ==> from <= #[trigger] idx[k] < h.len() && h[idx[k]] == n[j + k]
    &&& forall|a: int, b: int| 0 <= a < b < idx.len() ==> #[trigger] idx[a] < #[trigger] idx[b]
}

proof fn lemma_find_from(h: Seq<char>, from: int, c: char)
    requires
        0 <= from,
    ensures
        match find_from(h, from, c) {
            Some(i) => from <= i < h.len() && h[i] == c && forall|k: int|
                from <= k < i ==> h[k] != c,
            None => forall|k: int| from <= k < h.len() ==> h[k] != c,
        },
    decreases h.len() - from,
{
    if from < h.len() && h[from] != c {
        lemma_find_from(h, from + 1, c);
    }
}

/// Greedy matching succeeds exactly when the rest of the needle can be
/// placed; how long the current run is plays no part in that.
#[verifier::spinoff_prover]
proof fn lemma_run_points_some(n: Seq<char>, h: Seq<char>, j: int, from: int, run: int)
    requires
        0 <= j <= n.len(),
        0 <= from,
    ensures
        run_points(n, h, j, from, run) is Some <==> exists|idx: Seq<int>| #[trigger] places_from(
            n,
            h,
            j,
            from,
            idx,
        ),
    decreases n.len() - j,
{
    if j == n.len() {
        assert(places_from(n, h, j, from, Seq::<int>::empty()));
    } else {
        lemma_find_from(h, from, n[j]);
        match find_from(h, from, n[j]) {
            None => {
                if exists|idx: Seq<int>| #[trigger] places_from(n, h, j, from, idx) {
                    let idx = choose|idx: Seq<int>| #[trigger] places_from(n, h, j, from, idx);
                    assert(h[idx[0]] == n[j + 0]);
                }
            },
            Some(i) => {
                let run2 = if i == from {
                    run + 1
                } else {
                    1
                };
                lemma_run_points_some(n, h, j + 1, i + 1, run2);
                if run_points(n, h, j + 1, i + 1, run2) is Some {
                    let rest = choose|idx: Seq<int>| #[trigger] places_from(n, h, j + 1, i + 1, idx);
                    let idx = seq![i] + rest;
                    assert forall|k: int| 0 <= k < idx.len() implies from <= #[trigger] idx[k]
                        < h.len() && h[idx[k]] == n[j + k] by {
                        if k > 0 {
                            assert(idx[k] == rest[k - 1]);
                        }
                    }
                    assert forall|a: int, b: int| 0 <= a < b < idx.len() implies #[trigger] idx[a]
                        < #[trigger] idx[b] by {
                        assert(idx[b] == rest[b - 1]);
                        if a > 0 {
                            assert(idx[a] == rest[a - 1]);
                        } else {
                            assert(from <= rest[b - 1]);
                            assert(rest[b - 1] >= i + 1);
                        }
                    }
                    assert(places_from(n, h, j, from, idx));
                } else {
                    if exists|idx: Seq<int>| #[trigger] places_from(n, h, j, from, idx) {
                        let idx = choose|idx: Seq<int>| #[trigger] places_from(n, h, j, from, idx);
                        assert(h[idx[0]] == n[j + 0]);
                        assert(i <= idx[0]);
                        let rest = idx.drop_first();
                        assert forall|k: int| 0 <= k < rest.len() implies i + 1 <= #[trigger] rest[k]
                            < h.len() && h[rest[k]] == n[j + 1 + k] by {
                            assert(rest[k] == idx[k + 1]);
                            assert(idx[0] < idx[k + 1]);
                            assert(h[idx[k + 1]] == n[j + (k + 1)]);
                        }
                        assert forall|a: int, b: int| 0 <= a < b < rest.len() implies #[trigger] rest[a]
                            < #[trigger] rest[b] by {
                            assert(rest[a] == idx[a + 1]);
                            assert(rest[b] == idx[b + 1]);
                        }
                        assert(places_from(n, h, j + 1, i + 1, rest));
                    }
                }
            },
        }
    }
}

/// A needle scores against a haystack exactly when it is not empty and,
/// case-insensitively, occurs in the haystack in order: `None` means some
/// character of the needle never showed up in order.
#[verifier::spinoff_prover]
pub proof fn law_score_matches_subsequence(needle: Seq<char>, haystack: Seq<char>)
    ensures
        fuzzy_score(needle, haystack) is Some <==> (needle.len() > 0 && is_subsequence(
            lowercase(needle),
            lowercase(haystack),
        )),
{
    let n = lowercase(needle);
    let h = lowercase(haystack);
    lemma_run_points_some(n, h, 0, 0, 0);
    if exists|idx: Seq<int>| #[trigger] places_from(n, h, 0, 0, idx) {
        let idx = choose|idx: Seq<int>| #[trigger] places_from(n, h, 0, 0, idx);
        assert forall|k: int| 0 <= k < n.len() implies 0 <= #[trigger] idx[k] < h.len() && h[idx[k]]
            == n[k] by {
            assert(h[idx[k]] == n[0 + k]);
        }
        assert(places(n, h, idx));
    }
    if is_subsequence(n, h) {
        let idx = choose|idx: Seq<int>| #[trigger] places(n, h, idx);
        assert forall|k: int| 0 <= k < idx.len() implies 0 <= #[trigger] idx[k] < h.len() && h[idx[k]]
            == n[0 + k] by {
            assert(h[idx[k]] == n[k]);
        }
        assert(places_from(n, h, 0, 0, idx));
    }
}

/// The most points matching `m` more needle characters can score when the
/// current run is `run` long: every one extends the run.
pub open spec fn full_run(m: nat, run: int) -> int
    decreases m,
{
    if m == 0 {
        0
    } else {
        1 + (run + 1) + full_run((m - 1) as nat, run + 1)
    }
}

proof fn lemma_full_run_mono(m: nat, r1: int, r2: int)
    requires
        r1 <= r2,
    ensures
        full_run(m, r1) <= full_run(m, r2),
    decreases m,
{
    if m > 0 {
        lemma_full_run_mono((m - 1) as nat, r1 + 1, r2 + 1);
    }
}

proof fn lemma_run_points_bound(n: Seq<char>, h: Seq<char>, j: int, from: int, run: int)
    requires
        0 <= j <= n.len(),
        0 <= from,
        0 <= run,
    ensures
        run_points(n, h, j, from, run) matches Some(t) ==> t <= full_run((n.len() - j) as nat, run),
    decreases n.len() - j,
{
    if j < n.len() {
        lemma_find_from(h, from, n[j]);
        match find_from(h, from, n[j]) {
            None => {},
            Some(i) => {
                let run2 = if i == from {
                    run + 1
                } else {
                    1
                };
                lemma_run_points_bound(n, h, j + 1, i + 1, run2);
                lemma_full_run_mono((n.len() - j - 1) as nat, run2, run + 1);
            },
        }
    }
}

proof fn lemma_run_points_prefix(n: Seq<char>, h: Seq<char>, j: int, run: int)
    requires
        0 <= j <= n.len(),
        n.len() <= h.len(),
        forall|k: int| 0 <= k < n.len() ==> h[k] == n[k],
    ensures
        run_points(n, h, j, j, run) == Some(full_run((n.len() - j) as nat, run)),
    decreases n.len() - j,
{
    if j < n.len() {
        assert(h[j] == n[j]);
        lemma_run_points_prefix(n, h, j + 1, run + 1);
    }
}

/// Prefix matches rank highest: a needle scores at least as much against
/// a text that starts with it (case-insensitively) as against any other.
pub proof fn law_prefix_scores_highest(needle: Seq<char>, prefixed: Seq<char>, other: Seq<char>)
    requires
        has_prefix(lowercase(prefixed), lowercase(needle)),
        fuzzy_score(needle, other) is Some,
    ensures
        fuzzy_score(needle, prefixed) is Some,
        fuzzy_score(needle, other)->0 <= fuzzy_score(needle, prefixed)->0,
{
    let n = lowercase(needle);
    let p = lowercase(prefixed);
    let h = lowercase(other);
    assert forall|k: int| 0 <= k < n.len() implies p[k] == n[k] by {
        assert(p.take(n.len() as int)[k] == p[k]);
    }
    lemma_run_points_prefix(n, p, 0, 0);
    lemma_run_points_bound(n, h, 0, 0, 0);
    if n.len() > 0 {
        lemma_find_from(p, 0, n[0]);
        lemma_find_from(h, 0, n[0]);
    }
}


/// Scores never rise along `r`.
pub open spec fn score_desc(r: Seq<(int, int)>) -> bool {
    forall|a: int, b: int| 0 <= a < b < r.len() ==> #[trigger] r[a].0 >= #[trigger] r[b].0
}

#[verifier::spinoff_prover]
proof fn lemma_insert_ranked(r: Seq<(int, int)>, x: (int, int))
    requires
        score_desc(r),
    ensures
        score_desc(insert_ranked(r, x)),
        insert_ranked(r, x).len() == r.len() + 1,
        forall|e: (int, int)| #[trigger] insert_ranked(r, x).contains(e) <==> (r.contains(e) || e == x),
    decreases r.len(),
{
    let ir = insert_ranked(r, x);
    if r.len() == 0 {
        assert(ir =~= seq![x]);
        assert forall|e: (int, int)| #[trigger] ir.contains(e) <==> (r.contains(e) || e == x) by {
            if ir.contains(e) {
                let i = choose|i: int| 0 <= i < ir.len() && ir[i] == e;
                assert(i == 0);
            }
            if e == x {
                assert(ir[0] == e);
            }
        }
    } else if r.last().0 >= x.0 {
        assert(ir =~= r.push(x));
        assert forall|a: int, b: int| 0 <= a < b < ir.len() implies #[trigger] ir[a].0
            >= #[trigger] ir[b].0 by {
            if b == r.len() {
                if a < r.len() - 1 {
                    assert(r[a].0 >= r[r.len() - 1].0);
                }
            } else {
                assert(r[a].0 >= r[b].0);
            }
        }
        assert forall|e: (int, int)| #[trigger] ir.contains(e) <==> (r.contains(e) || e == x) by {
            if ir.contains(e) {
                let i = choose|i: int| 0 <= i < ir.len() && ir[i] == e;
                if i < r.len() {
                    assert(r[i] == e);
                }
            }
            if r.contains(e) {
                let i = choose|i: int| 0 <= i < r.len() && r[i] == e;
                assert(ir[i] == e);
            }
            if e == x {
                assert(ir[r.len() as int] == e);
            }
        }
    } else {
        let d = r.drop_last();
        let last = r.last();
        assert forall|a: int, b: int| 0 <= a < b < d.len() implies #[trigger] d[a].0
            >= #[trigger] d[b].0 by {
            assert(r[a].0 >= r[b].0);
        }
        lemma_insert_ranked(d, x);
        let id = insert_ranked(d, x);
        assert(ir =~= id.push(last));
        assert forall|a: int| 0 <= a < id.len() implies #[trigger] id[a].0 >= last.0 by {
            assert(id.contains(id[a]));
            if d.contains(id[a]) {
                let i = choose|i: int| 0 <= i < d.len() && d[i] == id[a];
                assert(r[i].0 >= r[r.len() - 1].0);
            }
        }
        assert forall|a: int, b: int| 0 <= a < b < ir.len() implies #[trigger] ir[a].0
            >= #[trigger] ir[b].0 by {
            if b == id.len() {
                assert(id[a].0 >= last.0);
            } else {
                assert(id[a].0 >= id[b].0);
            }
        }
        assert forall|e: (int, int)| #[trigger] ir.contains(e) <==> (r.contains(e) || e == x) by {
            if ir.contains(e) {
                let i = choose|i: int| 0 <= i < ir.len() && ir[i] == e;
                if i < id.len() {
                    assert(id[i] == e);
                    assert(id.contains(e));
                    if d.contains(e) {
                        let j = choose|j: int| 0 <= j < d.len() && d[j] == e;
                        assert(r[j] == e);
                    }
                } else {
                    assert(r[r.len() - 1] == e);
                }
            }
            if r.contains(e) {
                let i = choose|i: int| 0 <= i < r.len() && r[i] == e;
                if i < d.len() {
                    assert(d[i] == e);
                    assert(d.contains(e));
                    assert(id.contains(e));
                    let j = choose|j: int| 0 <= j < id.len() && id[j] == e;
                    assert(ir[j] == e);
                } else {
                    assert(ir[id.len() as int] == e);
                }
            }
            if e == x {
                assert(id.contains(e));
                let j = choose|j: int| 0 <= j < id.len() && id[j] == e;
                assert(ir[j] == e);
            }
        }
    }
}

#[verifier::spinoff_prover]
proof fn lemma_rank(c: Seq<(int, int)>)
    ensures
        score_desc(rank(c)),
        rank(c).len() == c.len(),
        forall|e: (int, int)| #[trigger] rank(c).contains(e) <==> c.contains(e),
    decreases c.len(),
{
    if c.len() > 0 {
        let d = c.drop_last();
        lemma_rank(d);
        lemma_insert_ranked(rank(d), c.last());
        assert forall|e: (int, int)| #[trigger] rank(c).contains(e) <==> c.contains(e) by {
            if c.contains(e) {
                let i = choose|i: int| 0 <= i < c.len() && c[i] == e;
                if i < d.len() {
                    assert(d[i] == e);
                    assert(d.contains(e));
                }
            }
            if d.contains(e) {
                let i = choose|i: int| 0 <= i < d.len() && d[i] == e;
                assert(c[i] == e);
            }
            if e == c.last() {
                assert(c[c.len() - 1] == e);
            }
        }
    } else {
        assert forall|e: (int, int)| #[trigger] rank(c).contains(e) <==> c.contains(e) by {}
    }
}

#[verifier::spinoff_prover]
proof fn lemma_candidates(query: Seq<char>, senders: Seq<(Option<Seq<char>>, Seq<char>)>)
    ensures
        forall|e: (int, int)| #[trigger] candidates(query, senders).contains(e) ==> 0 <= e.1
            < senders.len() && fuzzy_score(query, label_of(senders[e.1])) == Some(e.0),
        forall|k: int|
            0 <= k < senders.len() ==> (#[trigger] fuzzy_score(query, label_of(senders[k])) matches Some(
                x,
            ) ==> candidates(query, senders).contains((x, k))),
    decreases senders.len(),
{
    if senders.len() > 0 {
        let d = senders.drop_last();
        lemma_candidates(query, d);
        let cd = candidates(query, d);
        let c = candidates(query, senders);
        assert forall|e: (int, int)| #[trigger] c.contains(e) implies 0 <= e.1 < senders.len()
            && fuzzy_score(query, label_of(senders[e.1])) == Some(e.0) by {
            let i = choose|i: int| 0 <= i < c.len() && c[i] == e;
            if i < cd.len() {
                assert(cd[i] == e);
                assert(cd.contains(e));
                assert(d[e.1] == senders[e.1]);
            }
        }
        assert forall|k: int| 0 <= k < senders.len() implies (#[trigger] fuzzy_score(
            query,
            label_of(senders[k]),
        ) matches Some(x) ==> c.contains((x, k))) by {
            if let Some(x) = fuzzy_score(query, label_of(senders[k])) {
                if k < d.len() {
                    assert(d[k] == senders[k]);
                    assert(cd.contains((x, k)));
                    let i = choose|i: int| 0 <= i < cd.len() && cd[i] == (x, k);
                    assert(c[i] == (x, k));
                } else {
                    assert(c[c.len() - 1] == (x, k));
                }
            }
        }
    }
}

/// The recipient suggestions: at most `limit` senders, each one a match,
/// highest score first; a matching sender is left out only when `limit`
/// senders that score at least as much were chosen.
#[verifier::spinoff_prover]
pub proof fn law_best_matches_ranked(
    query: Seq<char>,
    senders: Seq<(Option<Seq<char>>, Seq<char>)>,
    limit: int,
)
    requires
        0 <= limit,
    ensures
        best_of(query, senders, limit).len() <= limit,
        forall|i: int|
            0 <= i < best_of(query, senders, limit).len() ==> fuzzy_score(
                query,
                label_of(#[trigger] best_of(query, senders, limit)[i]),
            ) is Some,
        forall|i: int, j: int|
            0 <= i < j < best_of(query, senders, limit).len() ==> fuzzy_score(
                query,
                label_of(#[trigger] best_of(query, senders, limit)[i]),
            )->0 >= fuzzy_score(query, label_of(#[trigger] best_of(query, senders, limit)[j]))->0,
        forall|k: int|
            0 <= k < senders.len() ==> (#[trigger] fuzzy_score(query, label_of(senders[k])) matches Some(
                x,
            ) ==> ((best_of(query, senders, limit).len() < limit || (best_of(
                query,
                senders,
                limit,
            ).len() > 0 && x > fuzzy_score(
                query,
                label_of(best_of(query, senders, limit).last()),
            )->0)) ==> best_of(query, senders, limit).contains(senders[k]))),
{
    let c = candidates(query, senders);
    let ranked = rank(c);
    lemma_candidates(query, senders);
    lemma_rank(c);
    let r = best_of(query, senders, limit);
    let n = if limit < ranked.len() {
        limit
    } else {
        ranked.len() as int
    };
    assert(r.len() == n);
    assert forall|i: int| 0 <= i < n implies #[trigger] r[i] == senders[ranked[i].1] && fuzzy_score(
        query,
        label_of(senders[ranked[i].1]),
    ) == Some(ranked[i].0) by {
        assert(ranked.contains(ranked[i]));
        assert(c.contains(ranked[i]));
    }
    assert forall|i: int, j: int| 0 <= i < j < r.len() implies fuzzy_score(
        query,
        label_of(#[trigger] r[i]),
    )->0 >= fuzzy_score(query, label_of(#[trigger] r[j]))->0 by {
        assert(ranked[i].0 >= ranked[j].0);
    }
    assert forall|k: int| 0 <= k < senders.len() implies (#[trigger] fuzzy_score(
        query,
        label_of(senders[k]),
    ) matches Some(x) ==> ((r.len() < limit || (r.len() > 0 && x > fuzzy_score(
        query,
        label_of(r.last()),
    )->0)) ==> r.contains(senders[k]))) by {
        if let Some(x) = fuzzy_score(query, label_of(senders[k])) {
            if r.len() < limit || (r.len() > 0 && x > fuzzy_score(query, label_of(r.last()))->0) {
                assert(c.contains((x, k)));
                assert(ranked.contains((x, k)));
                let p = choose|p: int| 0 <= p < ranked.len() && ranked[p] == (x, k);
                if p >= n {
                    assert(r.len() == limit);
                    assert(ranked[n - 1].0 >= ranked[p].0);
                    assert(r[n - 1] == r.last());
                }
                assert(r[p] == senders[k]);
            }
        }
    }
}


/// Whether the query matches a sender (its label scores).
pub open spec fn matches_query(query: Seq<char>) -> spec_fn((Option<Seq<char>>, Seq<char>)) -> bool {
    |a: (Option<Seq<char>>, Seq<char>)| fuzzy_score(query, label_of(a)) is Some
}

/// The senders the query matches, in order.
pub open spec fn matching_senders(
    query: Seq<char>,
    senders: Seq<(Option<Seq<char>>, Seq<char>)>,
) -> Seq<(Option<Seq<char>>, Seq<char>)> {
    senders.filter(matches_query(query))
}

/// One candidate per matching sender, with strictly increasing positions.
proof fn lemma_candidates_count(query: Seq<char>, senders: Seq<(Option<Seq<char>>, Seq<char>)>)
    ensures
        candidates(query, senders).len() == matching_senders(query, senders).len(),
        forall|i: int, j: int|
            0 <= i < j < candidates(query, senders).len() ==> #[trigger] candidates(query, senders)[i].1
                < #[trigger] candidates(query, senders)[j].1,
        forall|i: int|
            0 <= i < candidates(query, senders).len() ==> 0 <= #[trigger] candidates(query, senders)[i].1
                < senders.len(),
    decreases senders.len(),
{
    if senders.len() == 0 {
        reveal(Seq::filter);
    } else {
        let d = senders.drop_last();
        lemma_candidates_count(query, d);
        assert(senders =~= d.push(senders.last()));
        d.lemma_filter_push(senders.last(), matches_query(query));
        let cd = candidates(query, d);
        let c = candidates(query, senders);
        assert forall|i: int| 0 <= i < c.len() implies 0 <= #[trigger] c[i].1 < senders.len() by {
            if i < cd.len() {
                assert(c[i] == cd[i]);
            }
        }
        assert forall|i: int, j: int| 0 <= i < j < c.len() implies #[trigger] c[i].1 < #[trigger] c[j].1 by {
            assert(c[i] == cd[i]);
            if j < cd.len() {
                assert(c[j] == cd[j]);
            }
        }
    }
}

/// Placing a new entry into a list without repeats gives one without
/// repeats.
proof fn lemma_insert_ranked_distinct(r: Seq<(int, int)>, x: (int, int))
    requires
        score_desc(r),
        r.no_duplicates(),
        !r.contains(x),
    ensures
        insert_ranked(r, x).no_duplicates(),
    decreases r.len(),
{
    let ir = insert_ranked(r, x);
    if r.len() == 0 {
        assert(ir =~= seq![x]);
    } else if r.last().0 >= x.0 {
        assert(ir =~= r.push(x));
        assert forall|a: int, b: int| 0 <= a < b < ir.len() implies ir[a] != ir[b] by {
            if b == r.len() {
                assert(r.contains(r[a]));
            }
        }
    } else {
        let d = r.drop_last();
        let last = r.last();
        assert forall|a: int, b: int| 0 <= a < b < d.len() implies #[trigger] d[a].0
            >= #[trigger] d[b].0 by {
            assert(r[a].0 >= r[b].0);
        }
        assert(!d.contains(x)) by {
            if d.contains(x) {
                let i = choose|i: int| 0 <= i < d.len() && d[i] == x;
                assert(r[i] == x);
            }
        }
        lemma_insert_ranked_distinct(d, x);
        lemma_insert_ranked(d, x);
        let id = insert_ranked(d, x);
        assert(ir =~= id.push(last));
        assert(!id.contains(last)) by {
            if id.contains(last) {
                if d.contains(last) {
                    let i = choose|i: int| 0 <= i < d.len() && d[i] == last;
                    assert(r[i] == r[r.len() - 1]);
                }
                assert(r.contains(x)) by {
                    assert(r[r.len() - 1] == last);
                }
            }
        }
        assert forall|a: int, b: int| 0 <= a < b < ir.len() implies ir[a] != ir[b] by {
            if b == id.len() {
                assert(id.contains(id[a]));
            } else {
                assert(id[a] != id[b]);
            }
        }
    }
}

/// Ranking a list without repeats gives one without repeats.
proof fn lemma_rank_distinct(c: Seq<(int, int)>)
    requires
        c.no_duplicates(),
    ensures
        rank(c).no_duplicates(),
    decreases c.len(),
{
    if c.len() > 0 {
        let d = c.drop_last();
        assert(d.no_duplicates()) by {
            assert forall|a: int, b: int| 0 <= a < b < d.len() implies d[a] != d[b] by {
                assert(c[a] == d[a] && c[b] == d[b]);
            }
        }
        lemma_rank_distinct(d);
        lemma_rank(d);
        assert(!rank(d).contains(c.last())) by {
            if rank(d).contains(c.last()) {
                assert(d.contains(c.last()));
                let i = choose|i: int| 0 <= i < d.len() && d[i] == c.last();
                assert(c[i] == c[c.len() - 1]);
            }
        }
        lemma_insert_ranked_distinct(rank(d), c.last());
    }
}

/// Whether `picks` gives, for each recipient suggestion in turn, a
/// position in `senders` holding that sender, the positions all
/// different and each sender there a match.
pub open spec fn suggestion_positions(
    query: Seq<char>,
    senders: Seq<(Option<Seq<char>>, Seq<char>)>,
    limit: int,
    picks: Seq<int>,
) -> bool {
    &&& picks.len() == best_of(query, senders, limit).len()
    &&& forall|i: int|
        0 <= i < picks.len() ==> 0 <= #[trigger] picks[i] < senders.len() && best_of(query, senders, limit)[i]
            == senders[picks[i]] && fuzzy_score(query, label_of(senders[picks[i]])) is Some
    &&& forall|i: int, j: int| 0 <= i < j < picks.len() ==> #[trigger] picks[i] != #[trigger] picks[j]
}

/// The recipient suggestions number exactly `limit`, or every matching
/// sender when fewer match; and they are distinct entries of `senders`,
/// each one a match (so they form a sub-multiset of the matching
/// senders): `picks[i]` is the position in `senders` of the `i`th
/// suggestion.
#[verifier::spinoff_prover]
pub proof fn law_best_matches_count(
    query: Seq<char>,
    senders: Seq<(Option<Seq<char>>, Seq<char>)>,
    limit: int,
)
    requires
        0 <= limit,
    ensures
        best_of(query, senders, limit).len() == (if limit < matching_senders(query, senders).len() {
            limit
        } else {
            matching_senders(query, senders).len() as int
        }),
        exists|picks: Seq<int>| #[trigger] suggestion_positions(query, senders, limit, picks),
{
    let c = candidates(query, senders);
    let ranked = rank(c);
    lemma_candidates(query, senders);
    lemma_candidates_count(query, senders);
    lemma_rank(c);
    assert(c.no_duplicates()) by {
        assert forall|a: int, b: int| 0 <= a < b < c.len() implies c[a] != c[b] by {
            assert(c[a].1 < c[b].1);
        }
    }
    lemma_rank_distinct(c);
    let r = best_of(query, senders, limit);
    let n = if limit < ranked.len() {
        limit
    } else {
        ranked.len() as int
    };
    let picks = ranked.take(n).map_values(|p: (int, int)| p.1);
    assert forall|i: int| 0 <= i < picks.len() implies 0 <= #[trigger] picks[i] < senders.len()
        && r[i] == senders[picks[i]] && fuzzy_score(query, label_of(senders[picks[i]])) is Some by {
        assert(ranked.contains(ranked[i]));
        assert(c.contains(ranked[i]));
    }
    assert forall|i: int, j: int| 0 <= i < j < picks.len() implies #[trigger] picks[i] != #[trigger] picks[j] by {
        assert(ranked.contains(ranked[i]));
        assert(ranked.contains(ranked[j]));
        let a = choose|a: int| 0 <= a < c.len() && c[a] == ranked[i];
        let b = choose|b: int| 0 <= b < c.len() && c[b] == ranked[j];
        if a != b {
            if a < b {
                assert(c[a].1 < c[b].1);
            } else {
                assert(c[b].1 < c[a].1);
            }
        }
        assert(ranked[i] != ranked[j]);
    }
    assert(suggestion_positions(query, senders, limit, picks));
}

proof fn lemma_email_index_found(r: Seq<(Option<Seq<char>>, Seq<char>)>, email: Seq<char>)
    ensures
        match email_index(r, email) {
            Some(k) => 0 <= k < r.len() && lowercase(r[k].1) == lowercase(email),
            None => forall|j: int| 0 <= j < r.len() ==> lowercase(#[trigger] r[j].1) != lowercase(email),
        },
    decreases r.len(),
{
    if r.len() > 0 && lowercase(r[0].1) != lowercase(email) {
        let t = r.drop_first();
        lemma_email_index_found(t, email);
        assert forall|j: int| 1 <= j < r.len() implies #[trigger] r[j] == t[j - 1] by {}
    }
}

/// Emails of two address-book entries differ once lower-cased.
pub open spec fn emails_differ(
    u: (Seq<char>, (Option<Seq<char>>, Seq<char>)),
    v: (Seq<char>, (Option<Seq<char>>, Seq<char>)),
) -> bool {
    lowercase(u.1.1) != lowercase(v.1.1)
}

#[verifier::spinoff_prover]
proof fn lemma_merged(addrs: Seq<(Option<Seq<char>>, Seq<char>)>)
    ensures
        forall|a: int, b: int|
            0 <= a < merged_senders(addrs).len() && 0 <= b < merged_senders(addrs).len() && a != b
                ==> lowercase(#[trigger] merged_senders(addrs)[a].1) != lowercase(
                #[trigger] merged_senders(addrs)[b].1,
            ),
        forall|i: int|
            0 <= i < merged_senders(addrs).len() ==> !no_reply(#[trigger] merged_senders(addrs)[i].1),
        forall|k: int|
            0 <= k < addrs.len() && !no_reply(#[trigger] addrs[k].1) ==> exists|i: int|
                0 <= i < merged_senders(addrs).len() && lowercase(
                    #[trigger] merged_senders(addrs)[i].1,
                ) == lowercase(addrs[k].1) && (addrs[k].0 is Some ==> merged_senders(addrs)[i].0 is Some),
        forall|i: int|
            0 <= i < merged_senders(addrs).len() ==> exists|k: int|
                0 <= k < addrs.len() && #[trigger] merged_senders(addrs)[i].1 == #[trigger] addrs[k].1,
    decreases addrs.len(),
{
    if addrs.len() > 0 {
        let d = addrs.drop_last();
        let a = addrs.last();
        let n = d.len() as int;
        lemma_merged(d);
        let r = merged_senders(d);
        let m = merged_senders(addrs);
        assert forall|k: int| 0 <= k < n implies #[trigger] addrs[k] == d[k] by {}
        lemma_email_index_found(r, a.1);
        if no_reply(a.1) {
            assert(m == r);
            assert forall|k: int| 0 <= k < addrs.len() && !no_reply(#[trigger] addrs[k].1) implies exists|
                i: int,
            |
                0 <= i < m.len() && lowercase(#[trigger] m[i].1) == lowercase(addrs[k].1) && (
                addrs[k].0 is Some ==> m[i].0 is Some) by {
                assert(k < n);
                assert(!no_reply(d[k].1));
            }
            assert forall|i: int| 0 <= i < m.len() implies exists|k: int|
                0 <= k < addrs.len() && #[trigger] m[i].1 == #[trigger] addrs[k].1 by {
                let k = choose|k: int| 0 <= k < d.len() && #[trigger] r[i].1 == #[trigger] d[k].1;
                assert(addrs[k] == d[k]);
            }
        } else {
            match email_index(r, a.1) {
                Some(kk) => {
                    assert forall|i: int| 0 <= i < m.len() implies #[trigger] m[i].1 == r[i].1 by {}
                    assert forall|k: int| 0 <= k < addrs.len() && !no_reply(#[trigger] addrs[k].1) implies exists|
                        i: int,
                    |
                        0 <= i < m.len() && lowercase(#[trigger] m[i].1) == lowercase(addrs[k].1) && (
                        addrs[k].0 is Some ==> m[i].0 is Some) by {
                        if k < n {
                            assert(!no_reply(d[k].1));
                            let i = choose|i: int|
                                0 <= i < r.len() && lowercase(#[trigger] r[i].1) == lowercase(d[k].1)
                                    && (d[k].0 is Some ==> r[i].0 is Some);
                            assert(m[i].1 == r[i].1);
                        } else {
                            assert(addrs[k] == a);
                            assert(m[kk].1 == r[kk].1);
                        }
                    }
                    assert forall|i: int| 0 <= i < m.len() implies exists|k: int|
                        0 <= k < addrs.len() && #[trigger] m[i].1 == #[trigger] addrs[k].1 by {
                        assert(m[i].1 == r[i].1);
                        let k = choose|k: int| 0 <= k < d.len() && #[trigger] r[i].1 == #[trigger] d[k].1;
                        assert(addrs[k] == d[k]);
                    }
                    assert forall|x: int, y: int|
                        0 <= x < m.len() && 0 <= y < m.len() && x != y implies lowercase(
                        #[trigger] m[x].1,
                    ) != lowercase(#[trigger] m[y].1) by {
                        assert(m[x].1 == r[x].1);
                        assert(m[y].1 == r[y].1);
                        assert(lowercase(r[x].1) != lowercase(r[y].1));
                    }
                    assert forall|i: int| 0 <= i < m.len() implies !no_reply(#[trigger] m[i].1) by {
                        assert(m[i].1 == r[i].1);
                        assert(!no_reply(r[i].1));
                    }
                },
                None => {
                    assert(m == r.push(a));
                    assert forall|x: int, y: int|
                        0 <= x < m.len() && 0 <= y < m.len() && x != y implies lowercase(
                        #[trigger] m[x].1,
                    ) != lowercase(#[trigger] m[y].1) by {
                        if x == r.len() || y == r.len() {
                        } else {
                            assert(lowercase(r[x].1) != lowercase(r[y].1));
                        }
                        if x < r.len() {
                            assert(lowercase(r[x].1) != lowercase(a.1));
                        }
                        if y < r.len() {
                            assert(lowercase(r[y].1) != lowercase(a.1));
                        }
                    }
                    assert forall|i: int| 0 <= i < m.len() implies !no_reply(#[trigger] m[i].1) by {
                        if i < r.len() {
                            assert(!no_reply(r[i].1));
                        }
                    }
                    assert forall|k: int| 0 <= k < addrs.len() && !no_reply(#[trigger] addrs[k].1) implies exists|
                        i: int,
                    |
                        0 <= i < m.len() && lowercase(#[trigger] m[i].1) == lowercase(addrs[k].1) && (
                        addrs[k].0 is Some ==> m[i].0 is Some) by {
                        if k < n {
                            assert(!no_reply(d[k].1));
                            let i = choose|i: int|
                                0 <= i < r.len() && lowercase(#[trigger] r[i].1) == lowercase(d[k].1)
                                    && (d[k].0 is Some ==> r[i].0 is Some);
                            assert(m[i] == r[i]);
                        } else {
                            assert(m[r.len() as int] == a);
                        }
                    }
                    assert forall|i: int| 0 <= i < m.len() implies exists|k: int|
                        0 <= k < addrs.len() && #[trigger] m[i].1 == #[trigger] addrs[k].1 by {
                        if i < r.len() {
                            let k = choose|k: int|
                                0 <= k < d.len() && #[trigger] r[i].1 == #[trigger] d[k].1;
                            assert(addrs[k] == d[k]);
                        } else {
                            assert(addrs[n] == a);
                        }
                    }
                },
            }
        }
    }
}

/// The address book lists each sender address once (emails compared in
/// lower case), never an automated no-reply address, in order of the sort
/// key; every other sender seen has an entry for its email, one that
/// carries a name whenever a name was ever seen with it; and every entry's
/// email is one that was seen.
#[verifier::spinoff_prover]
pub proof fn law_address_book(addrs: Seq<(Option<Seq<char>>, Seq<char>)>)
    ensures
        forall|a: int, b: int|
            0 <= a < b < address_book(addrs).len() ==> lowercase(#[trigger] address_book(addrs)[a].1)
                != lowercase(#[trigger] address_book(addrs)[b].1),
        forall|i: int|
            0 <= i < address_book(addrs).len() ==> !no_reply(#[trigger] address_book(addrs)[i].1),
        forall|a: int, b: int|
            0 <= a < b < address_book(addrs).len() ==> lex_le(
                sender_key(#[trigger] address_book(addrs)[a]),
                sender_key(#[trigger] address_book(addrs)[b]),
            ),
        forall|k: int|
            0 <= k < addrs.len() && !no_reply(#[trigger] addrs[k].1) ==> exists|i: int|
                0 <= i < address_book(addrs).len() && lowercase(#[trigger] address_book(addrs)[i].1)
                    == lowercase(addrs[k].1) && (addrs[k].0 is Some ==> address_book(addrs)[i].0 is Some),
        forall|i: int|
            0 <= i < address_book(addrs).len() ==> exists|k: int|
                0 <= k < addrs.len() && #[trigger] address_book(addrs)[i].1 == #[trigger] addrs[k].1,
{
    let m = merged_senders(addrs);
    let kv = keyed_senders(m);
    let sorted = sort_by_key(kv);
    let book = address_book(addrs);
    lemma_merged(addrs);
    lemma_sort_by_key(kv);
    let differ = |u: (Seq<char>, (Option<Seq<char>>, Seq<char>)), v: (Seq<char>, (Option<Seq<char>>, Seq<char>))|
        emails_differ(u, v);
    assert forall|a: int, b: int| 0 <= a < kv.len() && 0 <= b < kv.len() && a != b implies differ(
        #[trigger] kv[a],
        #[trigger] kv[b],
    ) by {
        assert(lowercase(m[a].1) != lowercase(m[b].1));
    }
    lemma_sort_by_key_pairwise(kv, differ);
    assert(book.len() == sorted.len());
    assert forall|i: int| 0 <= i < sorted.len() implies #[trigger] book[i] == sorted[i].1 && exists|
        j: int,
    | 0 <= j < m.len() && sorted[i] == #[trigger] kv[j] by {
        assert(sorted.contains(sorted[i]));
        assert(kv.contains(sorted[i]));
    }
    assert forall|a: int, b: int| 0 <= a < b < book.len() implies lowercase(#[trigger] book[a].1)
        != lowercase(#[trigger] book[b].1) by {
        assert(differ(sorted[a], sorted[b]));
    }
    assert forall|i: int| 0 <= i < book.len() implies !no_reply(#[trigger] book[i].1) by {
        assert(book[i] == sorted[i].1);
        let j = choose|j: int| 0 <= j < m.len() && sorted[i] == #[trigger] kv[j];
        assert(!no_reply(m[j].1));
    }
    assert forall|a: int, b: int| 0 <= a < b < book.len() implies lex_le(
        sender_key(#[trigger] book[a]),
        sender_key(#[trigger] book[b]),
    ) by {
        assert(lex_le(sorted[a].0, sorted[b].0));
        let ja = choose|j: int| 0 <= j < m.len() && sorted[a] == #[trigger] kv[j];
        let jb = choose|j: int| 0 <= j < m.len() && sorted[b] == #[trigger] kv[j];
    }
    assert forall|k: int| 0 <= k < addrs.len() && !no_reply(#[trigger] addrs[k].1) implies exists|
        i: int,
    |
        0 <= i < book.len() && lowercase(#[trigger] book[i].1) == lowercase(addrs[k].1) && (
        addrs[k].0 is Some ==> book[i].0 is Some) by {
        let i = choose|i: int|
            0 <= i < m.len() && lowercase(#[trigger] m[i].1) == lowercase(addrs[k].1) && (
            addrs[k].0 is Some ==> m[i].0 is Some);
        assert(kv.contains(kv[i]));
        assert(sorted.contains(kv[i]));
        let p = choose|p: int| 0 <= p < sorted.len() && sorted[p] == kv[i];
        assert(book[p] == m[i]);
    }
    assert forall|i: int| 0 <= i < book.len() implies exists|k: int|
        0 <= k < addrs.len() && #[trigger] book[i].1 == #[trigger] addrs[k].1 by {
        let j = choose|j: int| 0 <= j < m.len() && sorted[i] == #[trigger] kv[j];
        assert(book[i] == m[j]);
        let k = choose|k: int| 0 <= k < addrs.len() && #[trigger] m[j].1 == #[trigger] addrs[k].1;
    }
}


#[verifier::spinoff_prover]
proof fn lemma_stems_among(entries: Seq<(Seq<char>, bool)>, n: nat)
    requires
        n <= entries.len(),
    ensures
        forall|x: Seq<char>| #[trigger] stems_among(entries, n).contains(x) <==> exists|i: int|
            0 <= i < n && dictionary_stem(entries, #[trigger] entries[i]) == Some(x),
    decreases n,
{
    if n > 0 {
        lemma_stems_among(entries, (n - 1) as nat);
        let rest = stems_among(entries, (n - 1) as nat);
        let all = stems_among(entries, n);
        assert forall|x: Seq<char>| #[trigger] all.contains(x) <==> exists|i: int|
            0 <= i < n && dictionary_stem(entries, #[trigger] entries[i]) == Some(x) by {
            match dictionary_stem(entries, entries[n - 1]) {
                Some(st) => {
                    assert(all == rest.push(st));
                    if all.contains(x) {
                        let k = choose|k: int| 0 <= k < all.len() && all[k] == x;
                        if k < rest.len() {
                            assert(rest[k] == x);
                            assert(rest.contains(x));
                        } else {
                            assert(dictionary_stem(entries, entries[n - 1]) == Some(x));
                        }
                    }
                    if exists|i: int| 0 <= i < n && dictionary_stem(entries, #[trigger] entries[i]) == Some(x) {
                        let i = choose|i: int| 0 <= i < n && dictionary_stem(entries, #[trigger] entries[i]) == Some(x);
                        if i < n - 1 {
                            assert(rest.contains(x));
                            let k = choose|k: int| 0 <= k < rest.len() && rest[k] == x;
                            assert(all[k] == x);
                        } else {
                            assert(all[rest.len() as int] == x);
                        }
                    }
                },
                None => {
                    assert(all == rest);
                    if exists|i: int| 0 <= i < n && dictionary_stem(entries, #[trigger] entries[i]) == Some(x) {
                        let i = choose|i: int| 0 <= i < n && dictionary_stem(entries, #[trigger] entries[i]) == Some(x);
                        assert(i < n - 1);
                    }
                },
            }
        }
    } else {
        assert forall|x: Seq<char>| #[trigger] stems_among(entries, n).contains(x) <==> exists|i: int|
            0 <= i < n && dictionary_stem(entries, #[trigger] entries[i]) == Some(x) by {}
    }
}

/// A directory's dictionaries come in sorted order of their stems, and
/// they are exactly the stems of its `<stem>.aff` files that have a
/// `<stem>.dic` file beside them.
#[verifier::spinoff_prover]
pub proof fn law_dictionary_stems_sorted(entries: Seq<(Seq<char>, bool)>)
    ensures
        forall|a: int, b: int|
            0 <= a < b < sorted_strings(stems_among(entries, entries.len())).len() ==> lex_le(
                #[trigger] sorted_strings(stems_among(entries, entries.len()))[a],
                #[trigger] sorted_strings(stems_among(entries, entries.len()))[b],
            ),
        forall|x: Seq<char>| #[trigger] sorted_strings(stems_among(entries, entries.len())).contains(x) <==> exists|i: int|
            0 <= i < entries.len() && dictionary_stem(entries, #[trigger] entries[i]) == Some(x),
{
    let stems = stems_among(entries, entries.len());
    let pairs = stems.map_values(|s: Seq<char>| (s, s));
    let sorted = sort_by_key(pairs);
    let out = sorted_strings(stems);
    lemma_stems_among(entries, entries.len());
    lemma_sort_by_key(pairs);
    assert(out == sorted.map_values(|p: (Seq<char>, Seq<char>)| p.1));
    assert forall|i: int| 0 <= i < sorted.len() implies #[trigger] sorted[i].0 == sorted[i].1 && out[i]
        == sorted[i].1 by {
        assert(sorted.contains(sorted[i]));
        assert(pairs.contains(sorted[i]));
        let j = choose|j: int| 0 <= j < pairs.len() && pairs[j] == sorted[i];
    }
    assert forall|a: int, b: int| 0 <= a < b < out.len() implies lex_le(#[trigger] out[a], #[trigger] out[b]) by {
        assert(lex_le(sorted[a].0, sorted[b].0));
    }
    assert forall|x: Seq<char>| #[trigger] out.contains(x) <==> stems.contains(x) by {
        if out.contains(x) {
            let k = choose|k: int| 0 <= k < out.len() && out[k] == x;
            assert(sorted[k].1 == x);
            assert(sorted.contains(sorted[k]));
            assert(pairs.contains(sorted[k]));
            let j = choose|j: int| 0 <= j < pairs.len() && pairs[j] == sorted[k];
            assert(stems[j] == x);
        }
        if stems.contains(x) {
            let j = choose|j: int| 0 <= j < stems.len() && stems[j] == x;
            assert(pairs[j] == (x, x));
            assert(pairs.contains((x, x)));
            assert(sorted.contains((x, x)));
            let k = choose|k: int| 0 <= k < sorted.len() && sorted[k] == (x, x);
            assert(out[k] == x);
        }
    }
}


/// The message list is what the screen shows: no directory browser,
/// compose view, search being typed or pending delete confirmation.
pub open spec fn in_list_view(a: App) -> bool {
    a.file_browser is None && a.compose is None && !a.search_editing && a.confirm_delete is None
}

/// Older mail is asked for only from the unfiltered list when more may
/// exist and no fetch is under way, and asking marks one as under way: a
/// key held at the end of the list asks once.
#[verifier::rlimit(40)]
pub proof fn law_older_mail_asked_once(
    a: App,
    key: Key,
    ctrl: bool,
    s: Session,
    b: App,
    s2: Session,
    r: Effect,
)
    requires
        key_post(a, key, ctrl, s, b, s2, r),
        r is FetchOlder,
    ensures
        in_list_view(a),
        a.search is None,
        a.has_more_older,
        !a.loading_more,
        b.loading_more,
{
}

/// A message is deleted only by `y` (or `Y`) answering the confirmation
/// that `d` asked for, and it is the message that `d` was pressed on.
pub proof fn law_delete_needs_confirmation(
    a: App,
    key: Key,
    ctrl: bool,
    s: Session,
    b: App,
    s2: Session,
    r: Effect,
    uid: u32,
)
    requires
        key_post(a, key, ctrl, s, b, s2, r),
        r == Effect::DeleteMessage(uid),
    ensures
        a.file_browser is None,
        a.compose is None,
        !a.search_editing,
        a.confirm_delete == Some(uid),
        key == Key::Char('y') || key == Key::Char('Y'),
        b.confirm_delete is None,
{
}

/// `d` on a shown message asks to confirm deleting it, and deletes
/// nothing yet.
pub proof fn law_d_asks_before_deleting(a: App, s: Session, b: App, s2: Session, r: Effect)
    requires
        in_list_view(a),
        key_post(a, Key::Char('d'), false, s, b, s2, r),
    ensures
        r is Nothing,
        b.confirm_delete == selected_uid_of(App { pending_g: false, ..a }),
{
}

/// With several accounts, Tab and then Shift+Tab in the message list
/// come back to the account shown first.
pub proof fn law_tab_then_backtab_returns(
    a: App,
    s: Session,
    b: App,
    s2: Session,
    r1: Effect,
    c: App,
    s3: Session,
    r2: Effect,
)
    requires
        s.current < s.accounts,
        s.accounts > 1,
        in_list_view(a),
        key_post(a, Key::Tab, false, s, b, s2, r1),
        key_post(b, Key::BackTab, false, s2, c, s3, r2),
    ensures
        s2.current != s.current,
        s3.current == s.current,
        r2 == Effect::SwitchAccount(s.current),
{
    let n = s.accounts as int;
    let cur = s.current as int;
    let next = (cur + 1) % n;
    assert(next == (if cur + 1 == n { 0 } else { cur + 1 })) by (nonlinear_arith)
        requires
            0 <= cur < n,
            next == (cur + 1) % n,
    ;
    assert(b.file_browser is None && b.compose is None && !b.search_editing && b.confirm_delete is None);
    let back = (next + n - 1) % n;
    assert(back == cur) by (nonlinear_arith)
        requires
            0 <= cur < n,
            n > 1,
            next == (if cur + 1 == n { 0 } else { cur + 1 }),
            back == (next + n - 1) % n,
    ;
}


#[verifier::spinoff_prover]
proof fn lemma_matching_indices(envs: Seq<Envelope>, needle: Seq<char>, n: int)
    requires
        0 <= n <= envs.len(),
        envs.len() <= usize::MAX,
    ensures
        forall|k: int|
            0 <= k < matching_indices(envs, needle, n).len() ==> #[trigger] matching_indices(envs, needle, n)[k]
                < n && envelope_matches(envs[matching_indices(envs, needle, n)[k] as int], needle),
        forall|a: int, b: int|
            0 <= a < b < matching_indices(envs, needle, n).len() ==> #[trigger] matching_indices(envs, needle, n)[a]
                < #[trigger] matching_indices(envs, needle, n)[b],
        forall|i: int|
            0 <= i < n && envelope_matches(#[trigger] envs[i], needle) ==> matching_indices(envs, needle, n).contains(
                i as usize,
            ),
    decreases n,
{
    if n > 0 {
        lemma_matching_indices(envs, needle, n - 1);
        let rest = matching_indices(envs, needle, n - 1);
        let m = matching_indices(envs, needle, n);
        if envelope_matches(envs[n - 1], needle) {
            assert(m == rest.push((n - 1) as usize));
            assert forall|i: int| 0 <= i < n && envelope_matches(#[trigger] envs[i], needle) implies m.contains(
                i as usize,
            ) by {
                if i < n - 1 {
                    assert(rest.contains(i as usize));
                    let k = choose|k: int| 0 <= k < rest.len() && rest[k] == i as usize;
                    assert(m[k] == i as usize);
                } else {
                    assert(m[rest.len() as int] == i as usize);
                }
            }
        } else {
            assert(m == rest);
            assert forall|i: int| 0 <= i < n && envelope_matches(#[trigger] envs[i], needle) implies m.contains(
                i as usize,
            ) by {
                assert(i < n - 1);
            }
        }
    }
}

/// Whether the search filter lets `e` through: a non-blank query must
/// occur (lower-cased) in its subject or a sender's address or name.
pub open spec fn passes_filter(search: Option<TextInput>, e: Envelope) -> bool {
    match search {
        Some(q) if !all_ws(q.value@) => envelope_matches(e, lowercase(q.value@)),
        _ => true,
    }
}

/// The search filter shows, in list order, exactly the messages it lets
/// through (see `passes_filter`); a blank query shows every message.
pub proof fn law_search_shows_exactly_matches(envs: Seq<Envelope>, search: Option<TextInput>)
    requires
        envs.len() <= usize::MAX,
    ensures
        forall|a: int, b: int|
            0 <= a < b < visible_of(envs, search).len() ==> #[trigger] visible_of(envs, search)[a]
                < #[trigger] visible_of(envs, search)[b],
        forall|k: int|
            0 <= k < visible_of(envs, search).len() ==> #[trigger] visible_of(envs, search)[k] < envs.len()
                && passes_filter(search, envs[visible_of(envs, search)[k] as int]),
        forall|i: int|
            0 <= i < envs.len() && passes_filter(search, #[trigger] envs[i]) ==> visible_of(envs, search).contains(
                i as usize,
            ),
{
    match search {
        Some(q) if !all_ws(q.value@) => {
            lemma_matching_indices(envs, lowercase(q.value@), envs.len() as int);
        },
        _ => {
            let v = all_indices(envs.len() as int);
            assert forall|i: int| 0 <= i < envs.len() && passes_filter(search, #[trigger] envs[i]) implies v.contains(
                i as usize,
            ) by {
                assert(v[i] == i as usize);
            }
        },
    }
}


/// `sel` picks, in order, the candidates that `kept` lists: each kept
/// base is the base of the candidate it picks.
pub open spec fn picks(c: Seq<(Seq<char>, Seq<char>)>, kept: Seq<Seq<char>>, sel: Seq<int>) -> bool {
    &&& sel.len() == kept.len()
    &&& forall|k: int| 0 <= k < sel.len() ==> 0 <= #[trigger] sel[k] < c.len() && kept[k] == c[sel[k]].0
    &&& forall|a: int, b: int| 0 <= a < b < sel.len() ==> #[trigger] sel[a] < #[trigger] sel[b]
}

/// No two picked candidates are the same file.
pub open spec fn distinct_files(c: Seq<(Seq<char>, Seq<char>)>, sel: Seq<int>) -> bool {
    forall|a: int, b: int| 0 <= a < b < sel.len() ==> c[#[trigger] sel[a]].1 != c[#[trigger] sel[b]].1
}

/// Candidate `i`'s file is among the picked ones.
pub open spec fn file_picked(c: Seq<(Seq<char>, Seq<char>)>, sel: Seq<int>, i: int) -> bool {
    exists|k: int| 0 <= k < sel.len() && c[sel[k]].1 == c[i].1
}

/// Every candidate's file is among the picked ones.
pub open spec fn covers_files(c: Seq<(Seq<char>, Seq<char>)>, sel: Seq<int>) -> bool {
    forall|i: int| 0 <= i < c.len() ==> #[trigger] file_picked(c, sel, i)
}

proof fn lemma_fbi_same(c: Seq<(Seq<char>, Seq<char>)>, j: int)
    requires
        c.len() > 0,
        0 <= j < c.len() - 1,
        c[j].1 == c.last().1,
    ensures
        first_by_identity(c) == first_by_identity(c.drop_last()),
{
}

proof fn lemma_fbi_picks_extend(c: Seq<(Seq<char>, Seq<char>)>, kept: Seq<Seq<char>>, sd: Seq<int>)
    requires
        c.len() > 0,
        picks(c.drop_last(), kept, sd),
    ensures
        picks(c, kept, sd),
        distinct_files(c.drop_last(), sd) ==> distinct_files(c, sd),
        forall|k: int| 0 <= k < sd.len() ==> #[trigger] c[sd[k]] == c.drop_last()[sd[k]],
{
    let d = c.drop_last();
    assert forall|k: int| 0 <= k < sd.len() implies #[trigger] c[sd[k]] == d[sd[k]] by {}
    if distinct_files(d, sd) {
        assert forall|a: int, b: int| 0 <= a < b < sd.len() implies c[#[trigger] sd[a]].1
            != c[#[trigger] sd[b]].1 by {
            assert(c[sd[a]] == d[sd[a]]);
            assert(c[sd[b]] == d[sd[b]]);
        }
    }
}

/// A candidate whose file an earlier one had adds nothing.
#[verifier::spinoff_prover]
proof fn lemma_fbi_repeat(c: Seq<(Seq<char>, Seq<char>)>, sd: Seq<int>, j: int)
    requires
        c.len() > 0,
        picks(c.drop_last(), first_by_identity(c.drop_last()), sd),
        distinct_files(c.drop_last(), sd),
        covers_files(c.drop_last(), sd),
        0 <= j < c.len() - 1,
        c[j].1 == c.last().1,
    ensures
        picks(c, first_by_identity(c), sd),
        distinct_files(c, sd),
        covers_files(c, sd),
{
    let d = c.drop_last();
    let n = d.len() as int;
    lemma_fbi_same(c, j);
    lemma_fbi_picks_extend(c, first_by_identity(d), sd);
    assert forall|i: int| 0 <= i < c.len() implies #[trigger] file_picked(c, sd, i) by {
        let t = if i < n {
            i
        } else {
            j
        };
        assert(d[t] == c[t]);
        assert(file_picked(d, sd, t));
        let k = choose|k: int| 0 <= k < sd.len() && d[sd[k]].1 == d[t].1;
        assert(c[sd[k]] == d[sd[k]]);
    }
}

/// A candidate whose file no earlier one had is kept.
#[verifier::spinoff_prover]
proof fn lemma_fbi_new(c: Seq<(Seq<char>, Seq<char>)>, sd: Seq<int>)
    requires
        c.len() > 0,
        picks(c.drop_last(), first_by_identity(c.drop_last()), sd),
        distinct_files(c.drop_last(), sd),
        covers_files(c.drop_last(), sd),
        forall|j: int| 0 <= j < c.len() - 1 ==> #[trigger] c[j].1 != c.last().1,
    ensures
        picks(c, first_by_identity(c), sd.push(c.len() - 1)),
        distinct_files(c, sd.push(c.len() - 1)),
        covers_files(c, sd.push(c.len() - 1)),
{
    let d = c.drop_last();
    let n = d.len() as int;
    let sel = sd.push(n);
    assert(!(exists|j: int| 0 <= j < c.len() - 1 && #[trigger] c[j].1 == c.last().1));
    assert(first_by_identity(c) == first_by_identity(d).push(c.last().0));
    assert forall|k: int| 0 <= k < sd.len() implies #[trigger] c[sd[k]] == d[sd[k]] by {}
    assert forall|k: int| 0 <= k < sel.len() implies 0 <= #[trigger] sel[k] < c.len()
        && first_by_identity(c)[k] == c[sel[k]].0 by {
        if k < sd.len() {
            assert(sel[k] == sd[k]);
        }
    }
    assert forall|a: int, b: int| 0 <= a < b < sel.len() implies #[trigger] sel[a] < #[trigger] sel[b] by {
        assert(sel[a] == sd[a]);
        if b < sd.len() {
            assert(sel[b] == sd[b]);
        }
    }
    assert forall|a: int, b: int| 0 <= a < b < sel.len() implies c[#[trigger] sel[a]].1 != c[#[trigger] sel[b]].1 by {
        assert(sel[a] == sd[a]);
        if b < sd.len() {
            assert(sel[b] == sd[b]);
        } else {
            assert(c[sd[a]].1 != c.last().1);
        }
    }
    assert forall|i: int| 0 <= i < c.len() implies #[trigger] file_picked(c, sel, i) by {
        if i < n {
            assert(d[i] == c[i]);
            assert(file_picked(d, sd, i));
            let k = choose|k: int| 0 <= k < sd.len() && d[sd[k]].1 == d[i].1;
            assert(sel[k] == sd[k]);
            assert(c[sel[k]].1 == c[i].1);
        } else {
            assert(sel[sd.len() as int] == n);
            assert(c[sel[sd.len() as int]].1 == c[i].1);
        }
    }
}

proof fn lemma_first_by_identity(c: Seq<(Seq<char>, Seq<char>)>) -> (sel: Seq<int>)
    ensures
        picks(c, first_by_identity(c), sel),
        distinct_files(c, sel),
        covers_files(c, sel),
    decreases c.len(),
{
    if c.len() == 0 {
        Seq::empty()
    } else {
        let sd = lemma_first_by_identity(c.drop_last());
        if exists|j: int| 0 <= j < c.len() - 1 && #[trigger] c[j].1 == c.last().1 {
            let j = choose|j: int| 0 <= j < c.len() - 1 && #[trigger] c[j].1 == c.last().1;
            lemma_fbi_repeat(c, sd, j);
            sd
        } else {
            lemma_fbi_new(c, sd);
            sd.push(c.len() - 1)
        }
    }
}

/// Dictionary discovery keeps each file once: the kept dictionaries are
/// candidates picked in search order, no two of them the same file, and
/// every candidate's file is among them.
pub proof fn law_dictionaries_once_each(c: Seq<(Seq<char>, Seq<char>)>)
    ensures
        exists|sel: Seq<int>|
            #[trigger] picks(c, first_by_identity(c), sel) && distinct_files(c, sel) && covers_files(c, sel),
{
    let sel = lemma_first_by_identity(c);
    assert(picks(c, first_by_identity(c), sel));
}


/// A message's reading pane shows its plain-text body whenever it has
/// one, whatever HTML body comes with it; the HTML body only when there
/// is no text body; and nothing when there is neither.
pub proof fn law_text_body_shown_before_html(text: Option<Seq<char>>, html: Option<Seq<char>>, other_html: Option<Seq<char>>)
    ensures
        (match text {
            Some(t) => shown_body(text, html) == t && shown_body(text, other_html) == t,
            None => shown_body(text, html) == (match html {
                Some(h) => h,
                None => Seq::<char>::empty(),
            }),
        }),
{
}

/// A sender with a name that is not blank is matched on its name, a
/// space and its email: a query that occurs in that text, case-
/// insensitively and in order, makes the sender a match, and the sender
/// is suggested whenever fewer than `limit` suggestions were made.
pub proof fn law_named_sender_matched_on_name(
    query: Seq<char>,
    senders: Seq<(Option<Seq<char>>, Seq<char>)>,
    limit: int,
    k: int,
    name: Seq<char>,
)
    requires
        0 <= limit,
        0 <= k < senders.len(),
        senders[k].0 == Some(name),
        !all_ws(name),
        query.len() > 0,
        is_subsequence(lowercase(query), lowercase(name + seq![' '] + senders[k].1)),
    ensures
        label_of(senders[k]) == name + seq![' '] + senders[k].1,
        fuzzy_score(query, label_of(senders[k])) is Some,
        best_of(query, senders, limit).len() < limit ==> best_of(query, senders, limit).contains(senders[k]),
{
    assert(label_of(senders[k]) == name + seq![' '] + senders[k].1);
    law_score_matches_subsequence(query, label_of(senders[k]));
    law_best_matches_ranked(query, senders, limit);
}

/// `r` in the message list replies to the message under the selection
/// (`e`, the envelope `selected_uid_of` names): the compose view that
/// opens is addressed to its first sender and titled with its subject,
/// with `Re: ` in front unless it already starts with `Re:` in any case.
pub proof fn law_reply_answers_selected(
    a: App,
    ctrl: bool,
    s: Session,
    b: App,
    s2: Session,
    r: Effect,
    e: Envelope,
)
    requires
        list_key_post(a, Key::Char('r'), ctrl, s, b, s2, r),
        a.selected < visible_of(a.envelopes@, a.search).len(),
        e == a.envelopes@[visible_of(a.envelopes@, a.search)[a.selected as int] as int],
    ensures
        b.compose is Some,
        b.compose->0.to.value@ == (if e.from@.len() > 0 {
            e.from@[0].email@
        } else {
            Seq::<char>::empty()
        }),
        b.compose->0.subject.value@ == (if has_prefix(lowercase(e.subject@), "re:"@) {
            e.subject@
        } else {
            "Re: "@ + e.subject@
        }),
{
}

/// The texts of the flagged pieces, in order.
pub open spec fn flagged_texts(ps: Seq<(Seq<char>, bool)>) -> Seq<Seq<char>>
    decreases ps.len(),
{
    if ps.len() == 0 {
        Seq::empty()
    } else {
        (if ps[0].1 {
            seq![ps[0].0]
        } else {
            Seq::empty()
        }) + flagged_texts(ps.drop_first())
    }
}

/// The flagged pieces from `from` on are the texts of the spans `fl`.
proof fn lemma_flagged_pieces(line: Seq<char>, fl: Seq<(int, int)>, from: int)
    requires
        spans_ok(line.len() as int, fl),
        0 <= from <= line.len(),
        fl.len() > 0 ==> from <= fl[0].0,
    ensures
        flagged_texts(pieces_from(line, fl, from)) == fl.map_values(|x: (int, int)| line.subrange(x.0, x.1)),
    decreases fl.len(),
{
    if fl.len() == 0 {
        if from < line.len() {
            let q = seq![(line.skip(from), false)];
            assert(q.drop_first() =~= Seq::<(Seq<char>, bool)>::empty());
            assert(flagged_texts(q.drop_first()) == Seq::<Seq<char>>::empty());
            assert(!q[0].1);
            assert(flagged_texts(q) =~= Seq::<Seq<char>>::empty());
        }
        assert(fl.map_values(|x: (int, int)| line.subrange(x.0, x.1)) =~= Seq::<Seq<char>>::empty());
    } else {
        let a = fl[0].0;
        let b = fl[0].1;
        let rest = fl.drop_first();
        assert(spans_ok(line.len() as int, rest)) by {
            assert forall|k: int| 0 <= k < rest.len() implies 0 <= #[trigger] rest[k].0 < rest[k].1
                <= line.len() by {
                assert(rest[k] == fl[k + 1]);
            }
            assert forall|k: int, l: int| 0 <= k < l < rest.len() implies #[trigger] rest[k].1
                < #[trigger] rest[l].0 by {
                assert(rest[k] == fl[k + 1] && rest[l] == fl[l + 1]);
            }
        }
        if rest.len() > 0 {
            assert(fl[0].1 < fl[1].0);
        }
        lemma_flagged_pieces(line, rest, b);
        let tail = pieces_from(line, rest, b);
        let mid: Seq<(Seq<char>, bool)> = seq![(line.subrange(a, b), true)] + tail;
        assert(mid.drop_first() =~= tail);
        assert(flagged_texts(mid) =~= seq![line.subrange(a, b)] + flagged_texts(tail));
        if a > from {
            let all = seq![(line.subrange(from, a), false)] + mid;
            assert(all.drop_first() =~= mid);
            assert(pieces_from(line, fl, from) =~= all);
            assert(flagged_texts(all) =~= flagged_texts(mid));
        } else {
            assert(pieces_from(line, fl, from) =~= mid);
        }
        assert(fl.map_values(|x: (int, int)| line.subrange(x.0, x.1)) =~= seq![line.subrange(a, b)]
            + rest.map_values(|x: (int, int)| line.subrange(x.0, x.1)));
    }
}

/// The spans `keep_flagged` keeps are those of `sp` whose word's lookup
/// form is among `keys`.
proof fn lemma_keep_flagged_members(line: Seq<char>, keys: Seq<Seq<char>>, sp: Seq<(int, int)>)
    ensures
        forall|x: (int, int)|
            #[trigger] keep_flagged(line, keys, sp).contains(x) <==> (sp.contains(x) && keys.contains(
                word_key(line.subrange(x.0, x.1)),
            )),
    decreases sp.len(),
{
    if sp.len() > 0 {
        let d = sp.drop_last();
        lemma_keep_flagged_members(line, keys, d);
        let r = keep_flagged(line, keys, d);
        let last = sp.last();
        assert forall|x: (int, int)|
            #[trigger] keep_flagged(line, keys, sp).contains(x) <==> (sp.contains(x) && keys.contains(
                word_key(line.subrange(x.0, x.1)),
            )) by {
            if sp.contains(x) {
                let i = choose|i: int| 0 <= i < sp.len() && sp[i] == x;
                if i < d.len() {
                    assert(d[i] == x);
                    assert(d.contains(x));
                }
            }
            if d.contains(x) {
                let i = choose|i: int| 0 <= i < d.len() && d[i] == x;
                assert(sp[i] == x);
            }
            assert(sp[sp.len() - 1] == last);
            if keys.contains(word_key(line.subrange(last.0, last.1))) {
                let q = r.push(last);
                assert(q[q.len() - 1] == last);
                if q.contains(x) {
                    let i = choose|i: int| 0 <= i < q.len() && q[i] == x;
                    if i < r.len() {
                        assert(r[i] == x);
                    }
                }
                if r.contains(x) {
                    let i = choose|i: int| 0 <= i < r.len() && r[i] == x;
                    assert(q[i] == x);
                }
            }
        }
    }
}

/// A word of a body line is underlined exactly when its lookup form
/// (`word_key`: trimmed of punctuation and lower-cased) is among the
/// misspelled keys, whatever the case it is written in: every such word
/// is among the underlined pieces, and every underlined piece is such a
/// word.
#[verifier::spinoff_prover]
pub proof fn law_misspelled_words_underlined(line: Seq<char>, keys: Seq<Seq<char>>)
    ensures
        forall|k: int|
            0 <= k < word_spans(line).len() ==> (keys.contains(
                word_key(line.subrange(#[trigger] word_spans(line)[k].0, word_spans(line)[k].1)),
            ) <==> flagged_texts(highlighted(line, keys)).contains(
                line.subrange(word_spans(line)[k].0, word_spans(line)[k].1),
            )),
        forall|t: Seq<char>| #[trigger] flagged_texts(highlighted(line, keys)).contains(t) ==> keys.contains(word_key(t)),
{
    let sp = word_spans(line);
    lemma_word_spans(line);
    let fl = keep_flagged(line, keys, sp);
    lemma_keep_flagged(line, keys, sp);
    lemma_keep_flagged_members(line, keys, sp);
    let h = highlighted(line, keys);
    let texts = fl.map_values(|x: (int, int)| line.subrange(x.0, x.1));
    if keys.len() == 0 || fl.len() == 0 {
        let q = seq![(line, false)];
        assert(h == q);
        assert(q.drop_first() =~= Seq::<(Seq<char>, bool)>::empty());
        assert(flagged_texts(q.drop_first()) == Seq::<Seq<char>>::empty());
        assert(!q[0].1);
        assert(flagged_texts(q) =~= Seq::<Seq<char>>::empty());
        assert forall|k: int| 0 <= k < sp.len() implies !keys.contains(
            word_key(line.subrange(#[trigger] sp[k].0, sp[k].1)),
        ) by {
            if keys.contains(word_key(line.subrange(sp[k].0, sp[k].1))) {
                assert(sp.contains(sp[k]));
                assert(fl.contains(sp[k]));
            }
        }
    } else {
        lemma_flagged_pieces(line, fl, 0);
        assert(flagged_texts(h) == texts);
        assert forall|k: int| 0 <= k < sp.len() implies (keys.contains(
            word_key(line.subrange(#[trigger] sp[k].0, sp[k].1)),
        ) <==> texts.contains(line.subrange(sp[k].0, sp[k].1))) by {
            let tok = line.subrange(sp[k].0, sp[k].1);
            if keys.contains(word_key(tok)) {
                assert(sp.contains(sp[k]));
                assert(fl.contains(sp[k]));
                let j = choose|j: int| 0 <= j < fl.len() && fl[j] == sp[k];
                assert(texts[j] == tok);
            }
            if texts.contains(tok) {
                let j = choose|j: int| 0 <= j < texts.len() && texts[j] == tok;
                assert(fl.contains(fl[j]));
            }
        }
        assert forall|t: Seq<char>| #[trigger] texts.contains(t) implies keys.contains(word_key(t)) by {
            let j = choose|j: int| 0 <= j < texts.len() && texts[j] == t;
            assert(fl.contains(fl[j]));
        }
    }
}

/// Each flag a server reports sets its own field and no other: a message
/// is read exactly when `\Seen` is reported and starred exactly when
/// `\Flagged` is, and reporting one more flag turns on its own field
/// only.
pub proof fn law_each_flag_sets_its_own_field(fs: Seq<Flag>, f: Flag)
    ensures
        flags_of(fs).seen == fs.contains(Flag::Seen),
        flags_of(fs).answered == fs.contains(Flag::Answered),
        flags_of(fs).flagged == fs.contains(Flag::Flagged),
        flags_of(fs).deleted == fs.contains(Flag::Deleted),
        flags_of(fs).draft == fs.contains(Flag::Draft),
        flags_of(fs.push(f)).seen == (flags_of(fs).seen || f == Flag::Seen),
        flags_of(fs.push(f)).answered == (flags_of(fs).answered || f == Flag::Answered),
        flags_of(fs.push(f)).flagged == (flags_of(fs).flagged || f == Flag::Flagged),
        flags_of(fs.push(f)).deleted == (flags_of(fs).deleted || f == Flag::Deleted),
        flags_of(fs.push(f)).draft == (flags_of(fs).draft || f == Flag::Draft),
{
    let q = fs.push(f);
    assert forall|g: Flag| #[trigger] q.contains(g) == (fs.contains(g) || g == f) by {
        if fs.contains(g) {
            let k = choose|k: int| 0 <= k < fs.len() && fs[k] == g;
            assert(q[k] == g);
        }
        if g == f {
            assert(q[fs.len() as int] == g);
        }
        if q.contains(g) {
            let k = choose|k: int| 0 <= k < q.len() && q[k] == g;
            if k < fs.len() {
                assert(fs[k] == g);
            }
        }
    }
}

} // verus!
