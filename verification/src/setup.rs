//! What the account prompts decide from the lines typed at them: the
//! answer or its default, a port number, the account picked from a list,
//! whether an address is already configured, and the new account's
//! settings.

use vstd::prelude::*;

use crate::config::{AccountConfig, AuthMethod};
use crate::text::{trim, trimmed};

verus! {

/// `c` is an ASCII decimal digit.
pub open spec fn is_digit(c: char) -> bool {
    '0' <= c && c <= '9'
}

/// The number that the decimal digits `s` write.
pub open spec fn decimal_value(s: Seq<char>) -> int
    decreases s.len(),
{
    if s.len() == 0 {
        0
    } else {
        10 * decimal_value(s.drop_last()) + (s.last() as int - '0' as int)
    }
}

/// `s` without a leading `+`.
pub open spec fn unsigned_digits(s: Seq<char>) -> Seq<char> {
    if s.len() > 0 && s[0] == '+' {
        s.skip(1)
    } else {
        s
    }
}

/// `d` is one or more decimal digits.
pub open spec fn all_digits(d: Seq<char>) -> bool {
    d.len() > 0 && forall|i: int| 0 <= i < d.len() ==> is_digit(#[trigger] d[i])
}

/// What `str::parse` gives for an unsigned integer type whose largest value
/// is `max`: an optional `+` and then one or more decimal digits, whose
/// value must not exceed `max`.
pub open spec fn parsed_unsigned(s: Seq<char>, max: int) -> Option<int> {
    let d = unsigned_digits(s);
    if all_digits(d) && decimal_value(d) <= max {
        Some(decimal_value(d))
    } else {
        None
    }
}

/// A run of digits writes a number at least as large as any of its prefixes.
proof fn lemma_decimal_prefix(d: Seq<char>, k: int)
    requires
        0 <= k <= d.len(),
        forall|i: int| 0 <= i < d.len() ==> is_digit(#[trigger] d[i]),
    ensures
        0 <= decimal_value(d.take(k)) <= decimal_value(d),
    decreases d.len(),
{
    if k == d.len() {
        assert(d.take(k) =~= d);
        lemma_decimal_nonneg(d);
    } else {
        assert(is_digit(d[d.len() - 1]));
        assert forall|i: int| 0 <= i < d.drop_last().len() implies is_digit(
            #[trigger] d.drop_last()[i],
        ) by {
            assert(is_digit(d[i]));
        }
        lemma_decimal_prefix(d.drop_last(), k);
        assert(d.drop_last().take(k) =~= d.take(k));
    }
}

proof fn lemma_decimal_nonneg(d: Seq<char>)
    requires
        forall|i: int| 0 <= i < d.len() ==> is_digit(#[trigger] d[i]),
    ensures
        decimal_value(d) >= 0,
    decreases d.len(),
{
    if d.len() > 0 {
        assert(is_digit(d[d.len() - 1]));
        assert forall|i: int| 0 <= i < d.drop_last().len() implies is_digit(
            #[trigger] d.drop_last()[i],
        ) by {
            assert(is_digit(d[i]));
        }
        lemma_decimal_nonneg(d.drop_last());
    }
}

/// Reads `s` as an unsigned integer no larger than `max` (see
/// `parsed_unsigned`).
fn parse_unsigned(s: &str, max: u64) -> (r: Option<u64>)
    ensures
        match parsed_unsigned(s@, max as int) {
            Some(v) => r == Some(v as u64),
            None => r is None,
        },
        parsed_unsigned(s@, max as int) matches Some(v) ==> 0 <= v <= max,
{
    let n = s.unicode_len();
    let start: usize = if n > 0 && s.get_char(0) == '+' {
        1
    } else {
        0
    };
    let ghost d = unsigned_digits(s@);
    assert(d =~= s@.subrange(start as int, n as int));
    if start >= n {
        return None;
    }
    let mut v: u64 = 0;
    let mut i: usize = start;
    while i < n
        invariant
            start <= i <= n,
            n == s@.len(),
            d == s@.subrange(start as int, n as int),
            d == unsigned_digits(s@),
            forall|j: int| 0 <= j < i - start ==> is_digit(#[trigger] d[j]),
            v == decimal_value(d.take(i - start)),
            v <= max,
        decreases n - i,
    {
        let c = s.get_char(i);
        assert(d[i - start] == c);
        if !('0' <= c && c <= '9') {
            assert(!is_digit(d[i - start]));
            assert(!all_digits(d));
            return None;
        }
        let digit: u64 = (c as u32 - '0' as u32) as u64;
        let next: u128 = (v as u128) * 10 + (digit as u128);
        proof {
            assert(d.take(i - start + 1).drop_last() =~= d.take(i - start));
        }
        assert(decimal_value(d.take(i - start + 1)) == next);
        if next > max as u128 {
            proof {
                if all_digits(d) {
                    lemma_decimal_prefix(d, i - start + 1);
                }
            }
            return None;
        }
        v = next as u64;
        i += 1;
    }
    assert(d.take(n - start) =~= d);
    proof {
        lemma_decimal_nonneg(d);
    }
    Some(v)
}

/// The answer to a prompt with a default: the typed line without
/// surrounding white space, or `default` when that leaves nothing.
pub fn answer_or_default(line: &str, default: &str) -> (r: String)
    ensures
        r@ == (if trim(line@).len() == 0 {
            default@
        } else {
            trim(line@)
        }),
{
    let t = trimmed(line);
    if t.unicode_len() == 0 {
        String::from_str(default)
    } else {
        t
    }
}

/// The port an answer names, or `default` when it names none that fits
/// in 16 bits.
pub fn port_or(answer: &str, default: u16) -> (r: u16)
    ensures
        r == (match parsed_unsigned(answer@, 65535) {
            Some(v) => v as u16,
            None => default,
        }),
{
    match parse_unsigned(answer, 65535) {
        Some(v) => v as u16,
        None => default,
    }
}

/// The account picked by typing its number (counted from 1) from a list
/// of `count`: its index, or nothing for an answer that is not one of the
/// numbers listed.
pub fn chosen_account(answer: &str, count: usize) -> (r: Option<usize>)
    ensures
        r == (match parsed_unsigned(answer@, usize::MAX as int) {
            Some(v) => if 1 <= v <= count {
                Some((v - 1) as usize)
            } else {
                None
            },
            None => None,
        }),
{
    match parse_unsigned(answer, usize::MAX as u64) {
        Some(v) => if 1 <= v && v <= count as u64 {
            Some((v - 1) as usize)
        } else {
            None
        },
        None => None,
    }
}

/// Whether an account for `email` is already configured.
pub fn has_account_for(accounts: &Vec<AccountConfig>, email: &str) -> (r: bool)
    ensures
        r == exists|i: int| 0 <= i < accounts@.len() && #[trigger] accounts@[i].email@ == email@,
{
    let mut i: usize = 0;
    while i < accounts.len()
        invariant
            i <= accounts@.len(),
            forall|j: int| 0 <= j < i ==> #[trigger] accounts@[j].email@ != email@,
        decreases accounts@.len() - i,
    {
        if crate::text::str_eq(accounts[i].email.as_str(), email) {
            return true;
        }
        i += 1;
    }
    false
}

/// The settings of an account added through the prompts: no display name,
/// password authentication, and pages of 50 messages.
pub fn new_account_config(
    email: String,
    imap_host: String,
    imap_port: u16,
    smtp_host: String,
    smtp_port: u16,
) -> (r: AccountConfig)
    ensures
        r.email == email,
        r.display_name is None,
        r.imap_host == imap_host,
        r.imap_port == imap_port,
        r.smtp_host == smtp_host,
        r.smtp_port == smtp_port,
        r.auth == AuthMethod::Password,
        r.fetch_limit == 50,
{
    AccountConfig {
        email,
        display_name: None,
        imap_host,
        imap_port,
        smtp_host,
        smtp_port,
        auth: AuthMethod::default(),
        fetch_limit: 50,
    }
}

fn position_of(emails: &Vec<String>, d: &str) -> (r: Option<usize>)
    ensures
        match r {
            Some(i) => i < emails@.len() && emails@[i as int]@ == d@ && forall|j: int|
                0 <= j < i ==> #[trigger] emails@[j]@ != d@,
            None => forall|j: int| 0 <= j < emails@.len() ==> #[trigger] emails@[j]@ != d@,
        },
{
    let mut i: usize = 0;
    while i < emails.len()
        invariant
            i <= emails@.len(),
            forall|j: int| 0 <= j < i ==> #[trigger] emails@[j]@ != d@,
        decreases emails@.len() - i,
    {
        if crate::text::str_eq(emails[i].as_str(), d) {
            return Some(i);
        }
        i += 1;
    }
    None
}

/// The account shown first: the configured default's position in the
/// account list (its first occurrence), or the first account when no
/// default is set or no account has that address.
pub fn initial_account(emails: &Vec<String>, default: Option<&str>) -> (r: usize)
    ensures
        match default {
            Some(d) => if exists|i: int| 0 <= i < emails@.len() && #[trigger] emails@[i]@ == d@ {
                r < emails@.len() && emails@[r as int]@ == d@ && forall|j: int|
                    0 <= j < r ==> #[trigger] emails@[j]@ != d@
            } else {
                r == 0
            },
            None => r == 0,
        },
{
    match default {
        Some(d) => match position_of(emails, d) {
            Some(i) => i,
            None => 0,
        },
        None => 0,
    }
}

} // verus!
