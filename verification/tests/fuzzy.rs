use mailc::fuzzy::{best_matches, score};
use mailc::types::Address;

fn addr(name: &str, email: &str) -> Address {
    Address { name: Some(name.to_string()), email: email.to_string() }
}

#[test]
fn score_requires_every_needle_character_to_appear_in_order() {
    assert!(score("ac", "abc").is_some());
    assert!(score("ca", "abc").is_none(), "'c' then 'a' never appears in that order in \"abc\"");
}

#[test]
fn score_is_case_insensitive() {
    assert!(score("ALICE", "alice@example.com").is_some());
}

#[test]
fn score_returns_none_for_an_empty_needle() {
    assert_eq!(score("", "anything"), None);
}

#[test]
fn score_rewards_an_earlier_match_over_a_later_one() {
    let earlier = score("ali", "alice@example.com").unwrap();
    let later = score("ali", "somealice@example.com").unwrap();
    assert!(earlier > later);
}

#[test]
fn score_rewards_a_contiguous_run_over_a_scattered_match() {
    let contiguous = score("al", "alice").unwrap();
    let scattered = score("al", "axlice").unwrap();
    assert!(contiguous > scattered);
}

#[test]
fn score_exact_values() {
    // "al" in "alice": runs score 2 then 3, first match at 0 adds 20.
    assert_eq!(score("al", "alice"), Some(25));
    // "al" in "axlice": 2, then the skip restarts the run: 2; bonus 20.
    assert_eq!(score("al", "axlice"), Some(24));
    // a later first match shrinks the bonus: "e" at index 4 of "alice".
    assert_eq!(score("e", "alice"), Some(18));
    // a first match at index 20 or later earns no bonus at all.
    assert_eq!(score("z", "aaaaaaaaaaaaaaaaaaaaaaaaz"), Some(2));
}

#[test]
fn best_matches_finds_a_name_match_and_excludes_non_matches() {
    let senders = vec![
        addr("Alice Doe", "alice@example.com"),
        addr("Bob Smith", "bob@example.com"),
        addr("Carol", "carol@example.com"),
    ];
    let results = best_matches("ali", &senders, 8);
    assert_eq!(results.len(), 1);
    assert_eq!(results[0].email, "alice@example.com");
}

#[test]
fn best_matches_matches_against_the_email_too_not_just_the_name() {
    let senders = vec![addr("Whoever", "quirky@example.com")];
    let results = best_matches("quirky", &senders, 8);
    assert_eq!(results.len(), 1);
}

#[test]
fn best_matches_respects_the_limit() {
    let senders: Vec<Address> = (0..20).map(|i| addr("A", &format!("a{i}@example.com"))).collect();
    assert_eq!(best_matches("a", &senders, 5).len(), 5);
}

#[test]
fn best_matches_returns_nothing_for_a_query_with_no_match() {
    let senders = vec![addr("Zzz", "zzz@example.com")];
    assert!(best_matches("qqq", &senders, 8).is_empty());
}

#[test]
fn best_matches_ranks_a_better_match_first() {
    let senders = vec![
        addr("Somewhere Alice", "somewherealice@example.com"),
        addr("Alice", "alice@example.com"),
    ];
    let results = best_matches("alice", &senders, 8);
    assert_eq!(results.len(), 2);
    assert_eq!(results[0].email, "alice@example.com", "the prefix/earlier match must rank first");
}

#[test]
fn best_matches_keeps_the_original_order_among_equal_scores() {
    let senders = vec![addr("A", "x1@example.com"), addr("A", "x2@example.com"), addr("A", "x3@example.com")];
    let results = best_matches("a", &senders, 8);
    let emails: Vec<&str> = results.iter().map(|a| a.email.as_str()).collect();
    assert_eq!(emails, vec!["x1@example.com", "x2@example.com", "x3@example.com"]);
}

#[test]
fn best_matches_ignores_a_blank_name() {
    let senders = vec![Address { name: Some("   ".to_string()), email: "bob@example.com".to_string() }];
    // the label is just the email, so the blank name adds no leading text
    let results = best_matches("bob", &senders, 8);
    assert_eq!(results.len(), 1);
}

#[test]
fn a_prefix_match_scores_at_least_as_much_as_any_other() {
    let prefixed = score("ab", "Abc").unwrap();
    for other in ["xaxb", "zzab", "ab", "a-b", "xab"] {
        assert!(score("ab", other).unwrap() <= prefixed, "{other}");
    }
}

#[test]
fn a_score_comes_exactly_for_an_in_order_match() {
    assert!(score("ace", "abcde").is_some());
    assert!(score("aec", "abcde").is_none());
    assert!(score("aa", "a").is_none());
    assert!(score("AA", "xaya").is_some());
}

#[test]
fn suggestions_come_highest_score_first_and_keep_the_best() {
    let senders = vec![
        addr("Zed", "xalxice@example.com"),
        addr("Alice", "alice@example.com"),
        addr("Bob", "bob@example.com"),
        addr("Malice", "malice@example.com"),
    ];
    let results = best_matches("alice", &senders, 2);
    assert_eq!(results.len(), 2);
    assert_eq!(results[0].email, "alice@example.com");
    let s0 = score("alice", "Alice alice@example.com").unwrap();
    let s1 = score("alice", &format!("{} {}", results[1].name.clone().unwrap(), results[1].email)).unwrap();
    assert!(s0 >= s1);
    for a in &senders {
        let s = score("alice", &format!("{} {}", a.name.clone().unwrap(), a.email));
        if let Some(s) = s {
            if s > s1 {
                assert!(results.iter().any(|r| r.email == a.email));
            }
        }
    }
}

#[test]
fn best_matches_gives_every_match_when_fewer_than_the_limit_match() {
    let senders = vec![
        addr("Alice", "alice@example.com"),
        addr("Bob", "bob@example.com"),
        addr("Alina", "alina@example.com"),
        addr("Carl", "carl@example.com"),
    ];
    // "ali" matches Alice and Alina only: min(8, 2) suggestions, each a
    // different matching sender.
    let results = best_matches("ali", &senders, 8);
    assert_eq!(results.len(), 2);
    assert_ne!(results[0].email, results[1].email);
    assert!(results.iter().all(|a| a.email == "alice@example.com" || a.email == "alina@example.com"));
    // With a limit of 1, exactly one of them.
    assert_eq!(best_matches("ali", &senders, 1).len(), 1);
}
