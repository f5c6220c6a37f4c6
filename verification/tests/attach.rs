use mailc::attach::{
    checked_attachment, complete, completion_target, expand_tilde, longest_common_prefix,
    resolve_input, FileStat,
};

#[test]
fn tilde_expands_only_alone_or_before_a_slash() {
    assert_eq!(expand_tilde("~/docs/a.txt", Some("/home/u")), "/home/u/docs/a.txt");
    assert_eq!(expand_tilde("~", Some("/home/u")), "/home/u/");
    assert_eq!(expand_tilde("~bob/x", Some("/home/u")), "~bob/x");
    assert_eq!(expand_tilde("~/x", None), "~/x");
}

#[test]
fn a_blank_path_is_refused() {
    assert_eq!(resolve_input("   ", None), Err("enter a file path".to_string()));
    assert_eq!(resolve_input(" /tmp/a ", None), Ok("/tmp/a".to_string()));
}

#[test]
fn checked_attachment_reports_each_problem() {
    let ok = checked_attachment("/tmp/a.txt", "/tmp/a.txt", Ok(FileStat { is_dir: false, len: 10 }), 0).unwrap();
    assert_eq!(ok.filename, "a.txt");
    assert_eq!(ok.size_bytes, 10);
    assert_eq!(
        checked_attachment("/tmp", "/tmp", Ok(FileStat { is_dir: true, len: 0 }), 0).err(),
        Some("/tmp is a directory".to_string())
    );
    assert_eq!(
        checked_attachment("/x", "/x", Err("No such file".to_string()), 0).err(),
        Some("/x: No such file".to_string())
    );
    assert_eq!(
        checked_attachment("/tmp/big", "/tmp/big", Ok(FileStat { is_dir: false, len: 20 * 1024 * 1024 }), 1).err(),
        Some("big would exceed the 20MB attachment limit".to_string())
    );
}

#[test]
fn longest_common_prefix_counts_characters() {
    assert_eq!(longest_common_prefix(&vec![]), "");
    assert_eq!(longest_common_prefix(&vec!["Häuser".to_string(), "Häus".to_string(), "Hä".to_string()]), "Hä");
    assert_eq!(longest_common_prefix(&vec!["abc".to_string()]), "abc");
}

#[test]
fn completion_target_splits_the_directory_from_the_partial_name() {
    assert_eq!(completion_target("/tmp/do", None), ("/tmp".to_string(), "do".to_string()));
    assert_eq!(completion_target("/tmp/", None), ("/tmp/".to_string(), String::new()));
    assert_eq!(completion_target("do", None), (".".to_string(), "do".to_string()));
}

#[test]
fn completion_extends_to_a_single_match_or_the_common_prefix() {
    let listing = vec![
        ("documents".to_string(), true),
        ("downloads".to_string(), true),
        ("notes.txt".to_string(), false),
    ];
    assert_eq!(complete("/home/u/no", "no", Some(listing.clone())), Some("/home/u/notes.txt".to_string()));
    assert_eq!(complete("/home/u/doc", "doc", Some(listing.clone())), Some("/home/u/documents/".to_string()));
    assert_eq!(complete("/home/u/d", "d", Some(listing.clone())), Some("/home/u/do".to_string()));
    assert_eq!(complete("/home/u/do", "do", Some(listing.clone())), None);
    assert_eq!(complete("/home/u/x", "x", Some(listing)), None);
    assert_eq!(complete("/nowhere/x", "x", None), None);
}
