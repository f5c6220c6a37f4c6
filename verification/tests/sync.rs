use mailc::sync::{
    escape_search_term, full_sync_range, new_mail_plan, newest_uids, older_mail_criteria,
    range_set, search_criteria, sync_plan, to_flags, uid_list, NewMail, SyncPlan,
};
use mailc::types::Flag;

#[test]
fn escape_search_term_leaves_plain_text_untouched() {
    assert_eq!(escape_search_term("plain text"), "plain text");
}

#[test]
fn escape_search_term_escapes_quotes_and_backslashes() {
    assert_eq!(escape_search_term(r#"say "hi""#), r#"say \"hi\""#);
    assert_eq!(escape_search_term(r"back\slash"), r"back\\slash");
    assert_eq!(escape_search_term(r#"\""#), r#"\\\""#);
}

#[test]
fn search_criteria_quotes_the_escaped_query_twice() {
    assert_eq!(search_criteria(r#"a"b"#), r#"OR SUBJECT "a\"b" FROM "a\"b""#);
}

#[test]
fn sync_plan_goes_incremental_only_on_a_matching_uidvalidity() {
    assert_eq!(sync_plan(Some(7), 7), SyncPlan::Incremental);
    assert_eq!(sync_plan(Some(7), 8), SyncPlan::Full { clear_first: true });
    assert_eq!(sync_plan(None, 8), SyncPlan::Full { clear_first: false });
}

#[test]
fn full_sync_range_takes_the_newest_fetch_limit_messages() {
    assert_eq!(full_sync_range(0, 50), None);
    assert_eq!(full_sync_range(120, 50), Some((71, 120)));
    assert_eq!(full_sync_range(10, 50), Some((1, 10)));
    assert_eq!(full_sync_range(10, 0), Some((10, 10)));
    assert_eq!(full_sync_range(5, u32::MAX), Some((1, 5)));
}

#[test]
fn new_mail_plan_fetches_the_uids_above_the_cache() {
    assert_eq!(new_mail_plan(Some(40), 45), NewMail::Range(41, 44));
    assert_eq!(new_mail_plan(Some(40), 41), NewMail::UpToDate);
    assert_eq!(new_mail_plan(Some(u32::MAX), u32::MAX), NewMail::UpToDate);
    assert_eq!(new_mail_plan(None, 41), NewMail::Refetch);
}

#[test]
fn uid_sets_are_written_in_imap_syntax() {
    assert_eq!(range_set(41, 44), "41:44");
    assert_eq!(uid_list(&vec![42, 57, 60]), "42,57,60");
    assert_eq!(uid_list(&vec![]), "");
    assert_eq!(older_mail_criteria(Some(100)), Some("UID 1:99".to_string()));
    assert_eq!(older_mail_criteria(Some(1)), None);
    assert_eq!(older_mail_criteria(None), None);
}

#[test]
fn newest_uids_sorts_descending_and_truncates() {
    assert_eq!(newest_uids(&vec![5, 9, 1, 7], 3), vec![9, 7, 5]);
    assert_eq!(newest_uids(&vec![5, 9], 10), vec![9, 5]);
    assert!(newest_uids(&vec![], 10).is_empty());
}

#[test]
fn to_flags_reads_each_named_flag() {
    let f = to_flags(&vec![Flag::Seen, Flag::Flagged]);
    assert!(f.seen && f.flagged && !f.answered && !f.deleted && !f.draft);
    let none = to_flags(&vec![]);
    assert!(!none.seen);
}

#[test]
fn escaped_quotes_always_follow_an_odd_run_of_backslashes() {
    let e = escape_search_term(r#"a\"b\\"c"#);
    let chars: Vec<char> = e.chars().collect();
    for (i, c) in chars.iter().enumerate() {
        if *c == '"' {
            let run = chars[..i].iter().rev().take_while(|x| **x == '\\').count();
            assert_eq!(run % 2, 1, "quote at {i} in {e}");
        }
    }
    // Reading it back, each backslash pair gives the second character.
    let mut back = String::new();
    let mut it = chars.iter();
    while let Some(c) = it.next() {
        if *c == '\\' {
            back.push(*it.next().unwrap());
        } else {
            back.push(*c);
        }
    }
    assert_eq!(back, r#"a\"b\\"c"#);
}
