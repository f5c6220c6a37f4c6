use mailc::spellcheck::{
    check_request, default_search_dirs, detect_locale_from, dictionary_argument,
    misspelled_words, normalize_locale, normalize_word, parse_response_line, read_response_line,
    Misspelling, ResponseLine, SpellCheckRequest,
};

// -- locale detection ---------------------------------------------------

#[test]
fn normalize_locale_strips_encoding_and_modifier_suffixes() {
    assert_eq!(normalize_locale("de_DE.UTF-8"), Some("de_DE".to_string()));
    assert_eq!(normalize_locale("de_DE.UTF-8@euro"), Some("de_DE".to_string()));
    assert_eq!(normalize_locale("en_US"), Some("en_US".to_string()));
}

#[test]
fn normalize_locale_rejects_placeholders_and_blanks() {
    assert_eq!(normalize_locale(""), None);
    assert_eq!(normalize_locale("C"), None);
    assert_eq!(normalize_locale("posix"), None);
    assert_eq!(normalize_locale("  "), None);
}

#[test]
fn normalize_locale_trims_and_keeps_a_modifier_only_locale_base() {
    assert_eq!(normalize_locale(" fr_FR .UTF-8"), Some("fr_FR".to_string()));
    assert_eq!(normalize_locale("sr_RS@latin"), Some("sr_RS".to_string()));
    assert_eq!(normalize_locale("c.UTF-8"), None);
    assert_eq!(normalize_locale(".UTF-8"), None);
}

#[test]
fn detect_locale_from_prefers_lc_all_over_lc_messages_over_lang() {
    let env = |name: &str| -> Option<String> {
        match name {
            "LC_ALL" => Some("de_DE.UTF-8".to_string()),
            "LC_MESSAGES" => Some("fr_FR.UTF-8".to_string()),
            "LANG" => Some("en_US.UTF-8".to_string()),
            _ => None,
        }
    };
    assert_eq!(detect_locale_from(env), "de_DE");
}

#[test]
fn detect_locale_from_skips_an_unset_or_placeholder_variable_to_the_next_one() {
    let env = |name: &str| -> Option<String> {
        match name {
            "LC_ALL" => Some("C".to_string()),
            "LANG" => Some("ja_JP.UTF-8".to_string()),
            _ => None,
        }
    };
    assert_eq!(detect_locale_from(env), "ja_JP");
}

#[test]
fn detect_locale_from_falls_back_to_en_us_when_nothing_is_set() {
    assert_eq!(detect_locale_from(|_| None), "en_US");
}

#[test]
fn detect_locale_from_uses_lc_messages_when_lc_all_is_unset() {
    let env = |name: &str| -> Option<String> {
        match name {
            "LC_MESSAGES" => Some("pt_BR.UTF-8".to_string()),
            "LANG" => Some("en_US.UTF-8".to_string()),
            _ => None,
        }
    };
    assert_eq!(detect_locale_from(env), "pt_BR");
}

#[test]
fn default_search_dirs_lists_the_usual_places_in_order() {
    assert_eq!(
        default_search_dirs(),
        vec![
            "/usr/share/hunspell".to_string(),
            "/usr/share/myspell/dicts".to_string(),
            "/usr/local/share/hunspell".to_string(),
        ]
    );
}

// -- word normalization -----------------------------------------------------

#[test]
fn normalize_word_lowercases_and_strips_edge_punctuation_only() {
    assert_eq!(normalize_word("Wrold."), "wrold");
    assert_eq!(normalize_word("\"Hello\""), "hello");
    assert_eq!(normalize_word("don't"), "don't", "an internal apostrophe must survive");
    assert_eq!(normalize_word("well-known"), "well-known", "an internal hyphen must survive");
}

#[test]
fn normalize_word_of_pure_punctuation_is_empty() {
    assert_eq!(normalize_word("..."), "");
    assert_eq!(normalize_word(""), "");
    assert_eq!(normalize_word("(Häuser)"), "häuser");
}

#[test]
fn misspelled_words_are_normalized_and_deduplicated_in_first_seen_order() {
    let ms = vec![
        Misspelling { word: "Wrold.".to_string(), suggestions: vec![] },
        Misspelling { word: "teh".to_string(), suggestions: vec!["the".to_string()] },
        Misspelling { word: "wrold".to_string(), suggestions: vec![] },
    ];
    assert_eq!(misspelled_words(&ms), vec!["wrold".to_string(), "teh".to_string()]);
}

// -- Hunspell "-a" pipe response parsing -----------------------------------

#[test]
fn parse_response_line_reads_a_near_miss_with_suggestions() {
    let m = parse_response_line("& wrold 2 6: world, wold").unwrap();
    assert_eq!(m.word, "wrold");
    assert_eq!(m.suggestions, vec!["world".to_string(), "wold".to_string()]);
}

#[test]
fn parse_response_line_reads_a_miss_with_no_suggestions() {
    let m = parse_response_line("# asdfqwerty 0").unwrap();
    assert_eq!(m.word, "asdfqwerty");
    assert!(m.suggestions.is_empty());
}

#[test]
fn parse_response_line_treats_correct_word_lines_as_not_misspelled() {
    assert_eq!(parse_response_line("*"), None, "'*' is an exact dictionary match");
    assert_eq!(parse_response_line("+ root"), None, "'+' is a match via affix");
    assert_eq!(parse_response_line("- compound"), None, "'-' is a match via compound analysis");
}

#[test]
fn parse_response_line_ignores_a_blank_line() {
    assert_eq!(parse_response_line(""), None);
}

#[test]
fn parse_response_line_handles_a_multibyte_word_correctly() {
    let m = parse_response_line("& Häuser 1 0: Häuser").unwrap();
    assert_eq!(m.word, "Häuser");
}

#[test]
fn parse_response_line_drops_blank_suggestions_and_rejects_a_line_without_colon() {
    let m = parse_response_line("& teh 3 0: the, , tea ,").unwrap();
    assert_eq!(m.suggestions, vec!["the".to_string(), "tea".to_string()]);
    assert_eq!(parse_response_line("& teh 3 0 the"), None);
    assert_eq!(parse_response_line("&  : x"), None);
}

#[test]
fn read_response_line_ends_the_block_at_a_blank_line() {
    assert!(matches!(read_response_line("\n"), ResponseLine::End));
    assert!(matches!(read_response_line("\r\n"), ResponseLine::End));
    assert!(matches!(read_response_line("*\n"), ResponseLine::Accepted));
    match read_response_line("# zzz 4\r\n") {
        ResponseLine::Flagged(m) => assert_eq!(m.word, "zzz"),
        _ => panic!("expected a flagged word"),
    }
}

#[test]
fn check_request_frames_the_line() {
    assert_eq!(check_request("& odd line"), "^& odd line\n");
}

#[test]
fn dictionary_argument_joins_bases_with_commas() {
    assert_eq!(dictionary_argument(&vec![]), None);
    assert_eq!(
        dictionary_argument(&vec!["/d/en_US".to_string(), "/d/de_DE".to_string()]),
        Some("/d/en_US,/d/de_DE".to_string())
    );
}

#[test]
fn spellcheck_request_defaults_to_nothing() {
    assert!(matches!(SpellCheckRequest::default(), SpellCheckRequest::Nothing));
}
