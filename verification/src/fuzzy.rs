//! A subsequence-based fuzzy matcher for compose's recipient
//! autocomplete.

use vstd::prelude::*;

use crate::text::{chars_of, lowercase, push_char, to_lowercase};
use crate::types::{addr_view, has_non_ws, Address};
use crate::text::all_ws;

verus! {

/// The first index at or after `h` where `hay` holds `c`.
pub open spec fn find_from(hay: Seq<char>, h: int, c: char) -> Option<int>
    decreases hay.len() - h,
{
    if h < 0 || h >= hay.len() {
        None
    } else if hay[h] == c {
        Some(h)
    } else {
        find_from(hay, h + 1, c)
    }
}

/// The points scored by matching `needle[j..]` greedily in `hay` from
/// `h` on, when the run of consecutive matches so far is `run` long:
/// each matched character scores one plus the length of the contiguous
/// run it extends (a skipped haystack character restarts the run).
/// `None` when some needle character is not found in order.
pub open spec fn run_points(needle: Seq<char>, hay: Seq<char>, j: int, h: int, run: int) -> Option<
    int,
>
    decreases needle.len() - j,
{
    if j < 0 || j >= needle.len() {
        Some(0)
    } else {
        match find_from(hay, h, needle[j]) {
            None => None,
            Some(i) => {
                let run2 = if i == h {
                    run + 1
                } else {
                    1
                };
                match run_points(needle, hay, j + 1, i + 1, run2) {
                    Some(t) => Some(1 + run2 + t),
                    None => None,
                }
            },
        }
    }
}

/// Clamps a score to what an `i32` holds.
pub open spec fn cap(x: int) -> int {
    if x > i32::MAX {
        i32::MAX as int
    } else {
        x
    }
}

/// The score of an already lower-cased needle against an already
/// lower-cased haystack: the run points plus a bonus of
/// `20 - min(first match index, 20)` for an early first match.
pub open spec fn char_score(needle: Seq<char>, hay: Seq<char>) -> Option<int> {
    match run_points(needle, hay, 0, 0, 0) {
        None => None,
        Some(t) => {
            let first = if needle.len() > 0 {
                match find_from(hay, 0, needle[0]) {
                    Some(f) => f,
                    None => 0,
                }
            } else {
                0
            };
            let bonus = if first < 20 {
                20 - first
            } else {
                0
            };
            Some(cap(t + bonus))
        },
    }
}

/// The score of `needle` against `haystack`, case-insensitively; `None`
/// for an empty needle.
pub open spec fn fuzzy_score(needle: Seq<char>, haystack: Seq<char>) -> Option<int> {
    if needle.len() == 0 {
        None
    } else {
        char_score(lowercase(needle), lowercase(haystack))
    }
}

/// Scores already lower-cased `needle` against `hay` (see `char_score`).
pub fn score_chars(needle: &Vec<char>, hay: &Vec<char>) -> (r: Option<i32>)
    ensures
        r matches Some(x) ==> char_score(needle@, hay@) == Some(x as int),
        r is None ==> char_score(needle@, hay@) is None,
{
    let cap_value: u64 = 2147483647;
    let mut total: u64 = 0;
    let ghost mut acc: int = 0;
    let mut hay_idx: usize = 0;
    let mut consecutive: usize = 0;
    let mut first_match: usize = 0;
    let mut j: usize = 0;
    while j < needle.len()
        invariant
            j <= needle@.len(),
            hay_idx <= hay@.len(),
            acc >= 0,
            cap_value == 2147483647,
            total == cap(acc),
            consecutive <= j,
            j > 0 ==> find_from(hay@, 0, needle@[0]) == Some(first_match as int),
            j == 0 ==> hay_idx == 0 && consecutive == 0,
            run_points(needle@, hay@, 0, 0, 0) == match run_points(
                needle@,
                hay@,
                j as int,
                hay_idx as int,
                consecutive as int,
            ) {
                Some(t) => Some(acc + t),
                None => None,
            },
        decreases needle@.len() - j,
    {
        let nc = needle[j];
        let h0 = hay_idx;
        let ghost c0 = consecutive;
        while hay_idx < hay.len() && hay[hay_idx] != nc
            invariant
                h0 <= hay_idx <= hay@.len(),
                find_from(hay@, h0 as int, nc) == find_from(hay@, hay_idx as int, nc),
                hay_idx > h0 ==> consecutive == 0,
                hay_idx == h0 ==> consecutive == c0,
                consecutive <= j,
            decreases hay@.len() - hay_idx,
        {
            consecutive = 0;
            hay_idx += 1;
        }
        if hay_idx == hay.len() {
            proof {
                assert(find_from(hay@, hay_idx as int, nc) is None);
                assert(run_points(needle@, hay@, j as int, h0 as int, c0 as int) is None);
            }
            return None;
        }
        proof {
            assert(find_from(hay@, hay_idx as int, nc) == Some(hay_idx as int));
            if j == 0 {
                assert(find_from(hay@, 0, needle@[0]) == Some(hay_idx as int));
            }
        }
        if j == 0 {
            first_match = hay_idx;
        }
        consecutive += 1;
        let ghost acc_old = acc;
        proof {
            acc = acc + 1 + consecutive;
            let run2 = consecutive as int;
            assert(run_points(needle@, hay@, j as int, h0 as int, c0 as int) == match run_points(
                needle@,
                hay@,
                j + 1,
                hay_idx + 1,
                run2,
            ) {
                Some(t) => Some(1 + run2 + t),
                None => None,
            });
        }
        let c64: u64 = consecutive as u64;
        assert(c64 == consecutive);
        if total >= cap_value || c64 >= cap_value {
            total = cap_value;
        } else if total + 1 + c64 > cap_value {
            total = cap_value;
        } else {
            assert(total == acc_old);
            total = total + 1 + c64;
        }
        hay_idx += 1;
        j += 1;
    }
    let bonus: u64 = if j > 0 && first_match < 20 {
        20 - first_match as u64
    } else if j > 0 {
        0
    } else {
        20
    };
    let result = if total + bonus > cap_value {
        cap_value
    } else {
        total + bonus
    };
    Some(result as i32)
}

/// Scores how well `needle` fuzzy-matches `haystack`, case-insensitively.
/// `None` when some character of the needle never shows up, in order, in
/// the haystack, and for an empty needle. Higher is better: an earlier
/// first match and longer contiguous runs both score more.
pub fn score(needle: &str, haystack: &str) -> (r: Option<i32>)
    ensures
        r matches Some(x) ==> fuzzy_score(needle@, haystack@) == Some(x as int),
        r is None ==> fuzzy_score(needle@, haystack@) is None,
{
    if needle.unicode_len() == 0 {
        return None;
    }
    let hay = to_lowercase(haystack);
    let nd = to_lowercase(needle);
    let hay_chars = chars_of(hay.as_str());
    let nd_chars = chars_of(nd.as_str());
    score_chars(&nd_chars, &hay_chars)
}


/// The text a sender is matched and shown against: `"Name email"` when it
/// has a name that is not blank, otherwise just the email.
pub open spec fn label_of(a: (Option<Seq<char>>, Seq<char>)) -> Seq<char> {
    match a.0 {
        Some(n) if !all_ws(n) => n + seq![' '] + a.1,
        _ => a.1,
    }
}

/// The label of `address` (see `label_of`).
pub fn label(address: &Address) -> (r: String)
    ensures
        r@ == label_of(addr_view(*address)),
        (match address.name {
            Some(n) => if !all_ws(n@) {
                r@ == n@ + seq![' '] + address.email@
            } else {
                r@ == address.email@
            },
            None => r@ == address.email@,
        }),
{
    match &address.name {
        Some(name) => {
            if has_non_ws(name.as_str()) {
                let mut r = name.clone();
                push_char(&mut r, ' ');
                r.append(address.email.as_str());
                proof {
                    assert(r@ =~= name@ + seq![' '] + address.email@);
                }
                r
            } else {
                address.email.clone()
            }
        },
        None => address.email.clone(),
    }
}

/// The senders that `query` matches, as (score, index into `senders`)
/// pairs in the order the senders come.
pub open spec fn candidates(query: Seq<char>, senders: Seq<(Option<Seq<char>>, Seq<char>)>) -> Seq<
    (int, int),
>
    decreases senders.len(),
{
    if senders.len() == 0 {
        Seq::empty()
    } else {
        let rest = candidates(query, senders.drop_last());
        match fuzzy_score(query, label_of(senders.last())) {
            Some(x) => rest.push((x, senders.len() - 1)),
            None => rest,
        }
    }
}

/// `x` placed into the score-descending `ranked` after every entry that
/// scores at least as much (so earlier entries win ties).
pub open spec fn insert_ranked(ranked: Seq<(int, int)>, x: (int, int)) -> Seq<(int, int)>
    decreases ranked.len(),
{
    if ranked.len() == 0 {
        seq![x]
    } else if ranked.last().0 >= x.0 {
        ranked.push(x)
    } else {
        insert_ranked(ranked.drop_last(), x).push(ranked.last())
    }
}

/// `items` in descending score order; items with equal scores keep their
/// relative order (a stable sort).
pub open spec fn rank(items: Seq<(int, int)>) -> Seq<(int, int)>
    decreases items.len(),
{
    if items.len() == 0 {
        Seq::empty()
    } else {
        insert_ranked(rank(items.drop_last()), items.last())
    }
}

/// The views of a list of addresses.
pub open spec fn addrs_view(v: Seq<Address>) -> Seq<(Option<Seq<char>>, Seq<char>)> {
    v.map_values(|a: Address| addr_view(a))
}

/// The senders chosen by `best_matches`: the first `limit` of the ranked
/// candidates.
pub open spec fn best_of(
    query: Seq<char>,
    senders: Seq<(Option<Seq<char>>, Seq<char>)>,
    limit: int,
) -> Seq<(Option<Seq<char>>, Seq<char>)> {
    let ranked = rank(candidates(query, senders));
    let n = if limit < ranked.len() {
        limit
    } else {
        ranked.len() as int
    };
    ranked.take(n).map_values(|p: (int, int)| senders[p.1])
}

/// Where `insert_ranked` puts `x`: scanning from the end, past every
/// entry scoring less than `x`.
proof fn lemma_insert_ranked_at(ranked: Seq<(int, int)>, x: (int, int), p: int)
    requires
        0 <= p <= ranked.len(),
        forall|k: int| p <= k < ranked.len() ==> #[trigger] ranked[k].0 < x.0,
        p > 0 ==> ranked[p - 1].0 >= x.0,
    ensures
        insert_ranked(ranked, x) == ranked.take(p).push(x) + ranked.skip(p),
    decreases ranked.len(),
{
    if ranked.len() == 0 {
        assert(ranked.take(p).push(x) + ranked.skip(p) =~= seq![x]);
    } else if ranked.last().0 >= x.0 {
        assert(p == ranked.len());
        assert(ranked.take(p) =~= ranked);
        assert(ranked.skip(p) =~= Seq::<(int, int)>::empty());
        assert(ranked.take(p).push(x) + ranked.skip(p) =~= ranked.push(x));
    } else {
        let d = ranked.drop_last();
        lemma_insert_ranked_at(d, x, p);
        assert(d.take(p) =~= ranked.take(p));
        assert(d.skip(p).push(ranked.last()) =~= ranked.skip(p));
        assert((d.take(p).push(x) + d.skip(p)).push(ranked.last()) =~= ranked.take(p).push(x)
            + ranked.skip(p));
    }
}

/// The best `limit` senders matching `query`, highest score first; senders
/// with equal scores keep their order, and non-matches are dropped.
pub fn best_matches(query: &str, senders: &Vec<Address>, limit: usize) -> (r: Vec<Address>)
    ensures
        addrs_view(r@) == best_of(query@, addrs_view(senders@), limit as int),
{
    let ghost sv = addrs_view(senders@);
    let mut scored: Vec<(i32, usize)> = Vec::new();
    let mut i: usize = 0;
    while i < senders.len()
        invariant
            i <= senders@.len(),
            sv == addrs_view(senders@),
            scored@.len() <= i,
            forall|m: int| 0 <= m < scored@.len() ==> #[trigger] scored@[m].1 < i,
            scored@.map_values(|p: (i32, usize)| (p.0 as int, p.1 as int)) == rank(
                candidates(query@, sv.take(i as int)),
            ),
        decreases senders@.len() - i,
    {
        let l = label(&senders[i]);
        let s = score(query, l.as_str());
        let ghost prev = candidates(query@, sv.take(i as int));
        proof {
            assert(sv.take(i + 1).drop_last() =~= sv.take(i as int));
            assert(sv.take(i + 1).last() == addr_view(senders@[i as int]));
            assert(candidates(query@, sv.take(i + 1)) == match fuzzy_score(
                query@,
                label_of(addr_view(senders@[i as int])),
            ) {
                Some(x) => prev.push((x, i as int)),
                None => prev,
            });
        }
        match s {
            Some(x) => {
                let ghost before = scored@.map_values(|p: (i32, usize)| (p.0 as int, p.1 as int));
                let mut p = scored.len();
                while p > 0 && scored[p - 1].0 < x
                    invariant
                        p <= scored@.len(),
                        forall|k: int| p <= k < scored@.len() ==> #[trigger] scored@[k].0 < x,
                    decreases p,
                {
                    p -= 1;
                }
                scored.insert(p, (x, i));
                proof {
                    let item = (x as int, i as int);
                    assert(prev.push(item).drop_last() =~= prev);
                    assert(rank(prev.push(item)) == insert_ranked(rank(prev), item));
                    lemma_insert_ranked_at(before, item, p as int);
                    assert(scored@.map_values(|q: (i32, usize)| (q.0 as int, q.1 as int))
                        =~= before.take(p as int).push(item) + before.skip(p as int));
                }
            },
            None => {},
        }
        i += 1;
    }
    let ghost ranked = rank(candidates(query@, sv));
    assert(sv.take(senders@.len() as int) =~= sv);
    let n = if limit < scored.len() {
        limit
    } else {
        scored.len()
    };
    let mut out: Vec<Address> = Vec::new();
    let mut k: usize = 0;
    while k < n
        invariant
            n <= scored@.len(),
            k <= n,
            sv == addrs_view(senders@),
            scored@.map_values(|p: (i32, usize)| (p.0 as int, p.1 as int)) == ranked,
            forall|m: int| 0 <= m < scored@.len() ==> #[trigger] scored@[m].1 < senders@.len(),
            addrs_view(out@) == ranked.take(k as int).map_values(|p: (int, int)| sv[p.1]),
        decreases n - k,
    {
        let idx = scored[k].1;
        let d = senders[idx].duplicate();
        let ghost out_before = out@;
        out.push(d);
        k += 1;
        proof {
            assert(out@ =~= out_before.push(d));
            assert(addrs_view(out@) =~= addrs_view(out_before).push(addr_view(d)));
            assert(ranked[k - 1] == (scored@[k - 1].0 as int, scored@[k - 1].1 as int));
            assert(addrs_view(out@) =~= ranked.take(k as int).map_values(|p: (int, int)| sv[p.1]));
        }
    }
    out
}

} // verus!
