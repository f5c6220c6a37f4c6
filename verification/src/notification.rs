//! The text of a desktop notification about newly arrived mail.

use vstd::prelude::*;

use crate::config::digits;
use crate::types::Envelope;

verus! {

/// How many new messages a notification lists by sender and subject.
pub const MAX_PREVIEW: usize = 3;

/// Who a message is shown as being from: the first sender's name, or
/// its email without one, or `(unknown sender)` with no sender.
pub open spec fn sender_label(e: Envelope) -> Seq<char> {
    if e.from@.len() > 0 {
        match e.from@[0].name {
            Some(n) => n@,
            None => e.from@[0].email@,
        }
    } else {
        "(unknown sender)"@
    }
}

/// The sender label of a message (see `sender_label`).
pub fn sender_display(e: &Envelope) -> (r: String)
    ensures
        r@ == sender_label(*e),
{
    if e.from.len() > 0 {
        match &e.from[0].name {
            Some(n) => n.clone(),
            None => e.from[0].email.clone(),
        }
    } else {
        String::from_str("(unknown sender)")
    }
}

/// The preview lines of a notification: `sender: subject` for each of
/// the first messages, newline-separated.
pub open spec fn preview_lines(envs: Seq<Envelope>) -> Seq<char>
    decreases envs.len(),
{
    if envs.len() == 0 {
        Seq::empty()
    } else if envs.len() == 1 {
        sender_label(envs[0]) + ": "@ + envs[0].subject@
    } else {
        preview_lines(envs.drop_last()) + "\n"@ + sender_label(envs.last()) + ": "@
            + envs.last().subject@
    }
}

/// The summary and body of the notification for `envs` arriving in
/// `account`: one message names its sender and subject; several give
/// their count and preview the first `MAX_PREVIEW`, with `+N more` for
/// the rest. Nothing for no messages.
pub open spec fn notification_text(account: Seq<char>, envs: Seq<Envelope>) -> Option<(Seq<char>, Seq<char>)> {
    if envs.len() == 0 {
        None
    } else if envs.len() == 1 {
        Some(
            (
                "New mail \u{2014} "@ + account,
                sender_label(envs[0]) + "\n"@ + envs[0].subject@,
            ),
        )
    } else {
        let shown = preview_lines(envs.take(if envs.len() < MAX_PREVIEW {
            envs.len() as int
        } else {
            MAX_PREVIEW as int
        }));
        let body = if envs.len() > MAX_PREVIEW {
            shown + "\n+"@ + digits((envs.len() - MAX_PREVIEW) as nat) + " more"@
        } else {
            shown
        };
        Some((digits(envs.len()) + " new messages \u{2014} "@ + account, body))
    }
}

/// The notification for newly arrived mail (see `notification_text`).
pub fn new_mail_notification(account_email: &str, envelopes: &Vec<Envelope>) -> (r: Option<(String, String)>)
    ensures
        match notification_text(account_email@, envelopes@) {
            Some((s, b)) => r matches Some(p) && p.0@ == s && p.1@ == b,
            None => r is None,
        },
{
    let n = envelopes.len();
    if n == 0 {
        return None;
    }
    if n == 1 {
        let mut summary = String::from_str("New mail \u{2014} ");
        summary.append(account_email);
        let mut body = sender_display(&envelopes[0]);
        body.append("\n");
        body.append(envelopes[0].subject.as_str());
        return Some((summary, body));
    }
    let shown = if n < MAX_PREVIEW {
        n
    } else {
        MAX_PREVIEW
    };
    let mut body = String::new();
    let mut i: usize = 0;
    while i < shown
        invariant
            shown <= envelopes@.len(),
            i <= shown,
            body@ == preview_lines(envelopes@.take(i as int)),
        decreases shown - i,
    {
        proof {
            let t = envelopes@.take(i + 1);
            assert(t.drop_last() =~= envelopes@.take(i as int));
            assert(t.last() == envelopes@[i as int]);
            if i == 0 {
                assert(t[0] == envelopes@[0]);
            }
        }
        if i > 0 {
            body.append("\n");
        }
        let from = sender_display(&envelopes[i]);
        body.append(from.as_str());
        body.append(": ");
        body.append(envelopes[i].subject.as_str());
        proof {
            if i == 0 {
                assert(body@ =~= sender_label(envelopes@[0]) + ": "@ + envelopes@[0].subject@);
            }
        }
        i += 1;
    }
    if n > MAX_PREVIEW {
        body.append("\n+");
        let more = crate::config::unsigned_decimal((n - MAX_PREVIEW) as u64);
        body.append(more.as_str());
        body.append(" more");
    }
    let mut summary = crate::config::unsigned_decimal(n as u64);
    summary.append(" new messages \u{2014} ");
    summary.append(account_email);
    Some((summary, body))
}

} // verus!
