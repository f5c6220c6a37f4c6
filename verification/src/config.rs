//! The configuration file's shape and the on-disk locations of the cache.

use vstd::prelude::*;

use crate::error::Error;
use crate::text::push_char;

verus! {

/// Top-level config: a list of accounts, theme settings, and which
/// account opens by default (`None`: the first one).
#[derive(Debug)]
pub struct Config {
    pub accounts: Vec<AccountConfig>,
    pub theme: ThemeConfig,
    pub default_account: Option<String>,
}

/// One configured mail account.
#[derive(Debug)]
pub struct AccountConfig {
    pub email: String,
    pub display_name: Option<String>,
    pub imap_host: String,
    pub imap_port: u16,
    pub smtp_host: String,
    pub smtp_port: u16,
    pub auth: AuthMethod,
    /// How many recent messages one sync page pulls.
    pub fetch_limit: u32,
}

/// How an account authenticates. The password itself never lives in the
/// config file, only in the OS keyring.
#[derive(Debug, Clone, Copy, PartialEq, Eq, Structural)]
pub enum AuthMethod {
    Password,
}

impl Default for AuthMethod {
    fn default() -> (r: Self)
        ensures
            r == AuthMethod::Password,
    {
        AuthMethod::Password
    }
}

/// Theme settings: `mode` is "auto" (follow the live desktop theme) or
/// "off" (always the bundled palette).
#[derive(Debug)]
pub struct ThemeConfig {
    pub mode: String,
}

/// The IMAP port used when the config names none (implicit TLS).
pub fn default_imap_port() -> (r: u16)
    ensures
        r == 993,
{
    993
}

/// The SMTP port used when the config names none (STARTTLS submission).
pub fn default_smtp_port() -> (r: u16)
    ensures
        r == 587,
{
    587
}

/// The sync page size used when the config names none.
pub fn default_fetch_limit() -> (r: u32)
    ensures
        r == 50,
{
    50
}

/// The theme mode used when the config names none.
pub fn default_theme_mode() -> (r: String)
    ensures
        r@ == seq!['a', 'u', 't', 'o'],
{
    let mut s = String::new();
    push_char(&mut s, 'a');
    push_char(&mut s, 'u');
    push_char(&mut s, 't');
    push_char(&mut s, 'o');
    s
}

impl Default for ThemeConfig {
    fn default() -> (r: Self)
        ensures
            r.mode@ == seq!['a', 'u', 't', 'o'],
    {
        ThemeConfig { mode: default_theme_mode() }
    }
}

impl Default for Config {
    fn default() -> (r: Self)
        ensures
            r.accounts@.len() == 0,
            r.theme.mode@ == seq!['a', 'u', 't', 'o'],
            r.default_account is None,
    {
        Config { accounts: Vec::new(), theme: ThemeConfig::default(), default_account: None }
    }
}

/// The decimal digits of `n`.
pub open spec fn digits(n: nat) -> Seq<char>
    decreases n,
{
    if n < 10 {
        seq![digit_char(n)]
    } else {
        digits(n / 10) + seq![digit_char(n % 10)]
    }
}

/// The character of the decimal digit `d`.
pub open spec fn digit_char(d: nat) -> char {
    if d < 10 {
        ((d + 48) as u8) as char
    } else {
        '0'
    }
}

/// The decimal notation of `n`, with a leading `-` when negative
/// (what `i64::to_string` produces).
pub open spec fn decimal(n: int) -> Seq<char> {
    if n < 0 {
        seq!['-'] + digits((-n) as nat)
    } else {
        digits(n as nat)
    }
}

/// The decimal digits of `n`, most significant first.
pub fn unsigned_decimal(n: u64) -> (r: String)
    ensures
        r@ == digits(n as nat),
{
    let mut m: u64 = n;
    let ghost mag: nat = n as nat;
    // digits in reverse order
    let mut rev: Vec<char> = Vec::new();
    let ghost mut rest: nat = mag;
    loop
        invariant_except_break
            m as nat == rest,
            digits(mag) == digits(rest) + rev@.reverse(),
        ensures
            digits(mag) == rev@.reverse(),
        decreases m,
    {
        let d = (m % 10) as u8;
        let c = (d + 48) as char;
        proof {
            assert(c == digit_char((rest % 10) as nat));
            if rest >= 10 {
                assert(digits(rest) == digits(rest / 10) + seq![c]);
            } else {
                assert(digits(rest) == seq![c]);
            }
        }
        let ghost old_rev = rev@;
        rev.push(c);
        proof {
            assert(rev@.reverse() =~= seq![c] + old_rev.reverse());
        }
        m = m / 10;
        proof {
            if rest >= 10 {
                assert(digits(mag) =~= digits(rest / 10) + rev@.reverse());
            } else {
                assert(digits(mag) =~= rev@.reverse());
            }
            rest = rest / 10;
        }
        if m == 0 {
            break;
        }
    }
    let mut s = String::new();
    let mut i = rev.len();
    while i > 0
        invariant
            i <= rev@.len(),
            s@ == rev@.reverse().take(rev@.len() - i),
        decreases i,
    {
        i -= 1;
        push_char(&mut s, rev[i]);
        proof {
            assert(rev@.reverse().take(rev@.len() - i) =~= rev@.reverse().take(
                rev@.len() - i - 1,
            ).push(rev@[i as int]));
        }
    }
    proof {
        assert(rev@.reverse().take(rev@.len() as int) =~= rev@.reverse());
    }
    s
}

/// The decimal notation of `n` (see `decimal`).
pub fn decimal_string(n: i64) -> (r: String)
    ensures
        r@ == decimal(n as int),
{
    let neg = n < 0;
    let m: u64 = if neg {
        if n == i64::MIN {
            9223372036854775808u64
        } else {
            (-n) as u64
        }
    } else {
        n as u64
    };
    let digits_text = unsigned_decimal(m);
    if neg {
        let mut s = String::new();
        push_char(&mut s, '-');
        s.append(digits_text.as_str());
        s
    } else {
        digits_text
    }
}

/// Joins a relative path component onto `base` the way `Path::join` does
/// on Unix: an absolute `part` replaces `base`; otherwise a `/` separates
/// them unless `base` is empty or already ends in one.
pub open spec fn path_join(base: Seq<char>, part: Seq<char>) -> Seq<char> {
    if part.len() > 0 && part[0] == '/' {
        part
    } else if base.len() == 0 || base.last() == '/' {
        base + part
    } else {
        base + seq!['/'] + part
    }
}

/// `base` joined with `part` (see `path_join`).
pub fn join_path(base: &str, part: &str) -> (r: String)
    ensures
        r@ == path_join(base@, part@),
{
    let pn = part.unicode_len();
    if pn > 0 && part.get_char(0) == '/' {
        return String::from_str(part);
    }
    let bn = base.unicode_len();
    let mut r = String::from_str(base);
    if bn > 0 && base.get_char(bn - 1) != '/' {
        push_char(&mut r, '/');
    }
    r.append(part);
    r
}

/// The per-user data directory (`$XDG_DATA_HOME/email_client`), if the
/// platform has one.
#[verifier::external_body]
fn project_data_dir() -> (r: Option<String>) {
    directories::ProjectDirs::from("", "", "email_client").map(
        |d| d.data_dir().to_string_lossy().into_owned(),
    )
}

/// The message of the error returned when no data directory exists.
pub open spec fn no_data_dir_message() -> Seq<char> {
    "could not determine data directory"@
}

fn data_dir() -> (r: Result<String, Error>)
    ensures
        r matches Err(e) ==> e matches Error::Config(m) && m@ == no_data_dir_message(),
{
    match project_data_dir() {
        Some(d) => Ok(d),
        None => Err(Error::Config(String::from_str("could not determine data directory"))),
    }
}

/// Path to the local SQLite cache: `mail.db` in the data directory.
pub fn db_path() -> (r: Result<String, Error>)
    ensures
        r matches Err(e) ==> e matches Error::Config(m) && m@ == no_data_dir_message(),
        r matches Ok(p) ==> exists|d: Seq<char>| p@ == path_join(d, "mail.db"@),
{
    let d = data_dir()?;
    Ok(join_path(d.as_str(), "mail.db"))
}

/// Directory holding an account's cached raw `.eml` bodies: keyed by the
/// account's local id, `<data>/<id>/messages`.
pub fn messages_dir(account_id: i64) -> (r: Result<String, Error>)
    ensures
        r matches Err(e) ==> e matches Error::Config(m) && m@ == no_data_dir_message(),
        r matches Ok(p) ==> exists|d: Seq<char>|
            p@ == path_join(path_join(d, decimal(account_id as int)), "messages"@),
{
    let d = data_dir()?;
    let id = decimal_string(account_id);
    let with_id = join_path(d.as_str(), id.as_str());
    Ok(join_path(with_id.as_str(), "messages"))
}

/// Directory holding an account's queued, not yet sent messages:
/// `<data>/<id>/outbox`.
pub fn outbox_dir(account_id: i64) -> (r: Result<String, Error>)
    ensures
        r matches Err(e) ==> e matches Error::Config(m) && m@ == no_data_dir_message(),
        r matches Ok(p) ==> exists|d: Seq<char>|
            p@ == path_join(path_join(d, decimal(account_id as int)), "outbox"@),
{
    let d = data_dir()?;
    let id = decimal_string(account_id);
    let with_id = join_path(d.as_str(), id.as_str());
    Ok(join_path(with_id.as_str(), "outbox"))
}

} // verus!
