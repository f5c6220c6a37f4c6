use mailc::app::{ComposeField, ComposeState};
use mailc::compose_view::{focused_input_row, spellcheck_line, tokens};

#[test]
fn tokens_splits_on_whitespace_and_reports_correct_byte_offsets() {
    let found = tokens("hello  world");
    assert_eq!(found, vec![(0, "hello".to_string()), (7, "world".to_string())]);
}

#[test]
fn tokens_keeps_trailing_punctuation_attached() {
    let found = tokens("wrold. next");
    assert_eq!(found, vec![(0, "wrold.".to_string()), (7, "next".to_string())]);
}

#[test]
fn tokens_handles_leading_and_trailing_whitespace_and_multibyte_text() {
    let found = tokens("  Häuser über");
    assert_eq!(found, vec![(2, "Häuser".to_string()), (10, "über".to_string())]);
}

#[test]
fn tokens_of_a_blank_line_is_empty() {
    assert!(tokens("").is_empty());
    assert!(tokens(" \t ").is_empty());
}

fn flagged(spans: &[(String, bool)]) -> Vec<&str> {
    spans.iter().filter(|s| s.1).map(|s| s.0.as_str()).collect()
}

#[test]
fn spellcheck_line_leaves_a_clean_line_as_one_unstyled_span() {
    let line = spellcheck_line("all good here", &vec![]);
    assert_eq!(line.len(), 1);
    assert_eq!(line[0].0, "all good here");
    assert!(!line[0].1);
}

#[test]
fn spellcheck_line_underlines_only_the_misspelled_token() {
    let misspelled = vec!["wrold".to_string()];
    let line = spellcheck_line("hello wrold today", &misspelled);
    assert_eq!(flagged(&line), vec!["wrold"]);
}

#[test]
fn spellcheck_line_matches_a_token_despite_trailing_punctuation() {
    let misspelled = vec!["wrold".to_string()];
    let line = spellcheck_line("hello wrold.", &misspelled);
    assert_eq!(flagged(&line), vec!["wrold."]);
}

#[test]
fn spellcheck_line_reconstructs_the_exact_original_line() {
    let misspelled = vec!["wrold".to_string(), "häuser".to_string()];
    for line in ["hello wrold today", "  wrold  ", "Häuser sind schön wrold.", "no matches at all"] {
        let rendered = spellcheck_line(line, &misspelled);
        let reconstructed: String = rendered.iter().map(|s| s.0.as_str()).collect();
        assert_eq!(reconstructed, line);
    }
}

#[test]
fn spellcheck_line_splits_gaps_and_tail_exactly() {
    let misspelled = vec!["wrold".to_string()];
    let line = spellcheck_line("  wrold  x", &misspelled);
    assert_eq!(
        line,
        vec![("  ".to_string(), false), ("wrold".to_string(), true), ("  x".to_string(), false)]
    );
}

#[test]
fn focused_input_row_names_the_header_row_of_the_focused_field() {
    let mut c = ComposeState::blank();
    assert_eq!(focused_input_row(&c).map(|(r, _)| r), Some(0));
    c.focus = ComposeField::Subject;
    assert_eq!(focused_input_row(&c).map(|(r, _)| r), Some(3));
    c.focus = ComposeField::Body;
    assert!(focused_input_row(&c).is_none());
}
