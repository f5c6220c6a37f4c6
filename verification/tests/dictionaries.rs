use mailc::spellcheck::{dictionary_bases, first_of_each_identity};

fn files(names: &[&str]) -> Vec<(String, bool)> {
    names.iter().map(|n| (n.to_string(), true)).collect()
}

#[test]
fn find_dictionaries_finds_every_valid_pair_in_a_directory_sorted() {
    let listing = files(&["en_US.aff", "en_US.dic", "de_DE.aff", "de_DE.dic"]);
    assert_eq!(dictionary_bases("/d", &listing), vec!["/d/de_DE".to_string(), "/d/en_US".to_string()]);
}

#[test]
fn find_dictionaries_skips_an_aff_file_with_no_matching_dic() {
    let listing = files(&["de_DE.aff", "en_US.aff", "en_US.dic"]);
    assert_eq!(dictionary_bases("/d", &listing), vec!["/d/en_US".to_string()]);
}

#[test]
fn find_dictionaries_returns_empty_when_the_directory_has_no_dictionaries() {
    assert!(dictionary_bases("/d", &vec![]).is_empty());
    assert!(dictionary_bases("/d", &files(&["notes.txt", "en_US.dic"])).is_empty());
}

#[test]
fn find_dictionaries_searches_every_directory_in_the_given_order() {
    let mut found = dictionary_bases("/first", &files(&["en_US.aff", "en_US.dic"]));
    found.extend(dictionary_bases("/second", &files(&["de_DE.aff", "de_DE.dic"])));
    let candidates: Vec<(String, String)> = found.iter().map(|b| (b.clone(), format!("{b}.dic"))).collect();
    assert_eq!(
        first_of_each_identity(&candidates),
        vec!["/first/en_US".to_string(), "/second/de_DE".to_string()]
    );
}

#[test]
fn find_dictionaries_dedups_a_symlinked_copy_of_an_already_found_dictionary() {
    let candidates = vec![
        ("/real/en_US".to_string(), "/real/en_US.dic".to_string()),
        ("/linked/en_US".to_string(), "/real/en_US.dic".to_string()),
    ];
    assert_eq!(first_of_each_identity(&candidates), vec!["/real/en_US".to_string()]);
}

#[test]
fn a_directory_entry_that_is_not_a_file_is_no_dictionary() {
    let listing = vec![
        ("en_US.aff".to_string(), true),
        ("en_US.dic".to_string(), false),
        ("x.aff".to_string(), false),
        ("x.dic".to_string(), true),
    ];
    assert!(dictionary_bases("/d", &listing).is_empty());
}

#[test]
fn a_bare_extension_is_no_stem() {
    assert!(dictionary_bases("/d", &files(&[".aff", ".dic"])).is_empty());
    assert_eq!(dictionary_bases("/d/", &files(&["a.b.aff", "a.b.dic"])), vec!["/d/a.b".to_string()]);
}
