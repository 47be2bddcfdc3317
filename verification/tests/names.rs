// Book-name parsing, file-name checking, bracket balance, and the finder
// actions.

use myglob::actions::{quoted_path, ActionDelete, ActionPrint, ActionRmdir};
use myglob::books::{file_name_lowercase, find_from_position, get_book_name, is_balanced};
use myglob::checkname::check_basename;

#[test]
fn test_simple_name_3_parts() {
    let bres = get_book_name(r"C:\Temp\Title - [Editor] - Author.pdf");
    assert!(bres.is_ok());
    let b = bres.unwrap();
    assert_eq!(b.full_title, "Title");
    assert_eq!(b.editor, "[Editor]");
    assert_eq!(b.authors, "Author");
    assert_eq!(b.edition_year, "");
}

#[test]
fn test_simple_name_2_parts_1() {
    let bres = get_book_name(r"C:\Temp\Title - [Editor].pdf");
    assert!(bres.is_ok());
    let b = bres.unwrap();
    assert_eq!(b.full_title, "Title");
    assert_eq!(b.editor, "[Editor]");
    assert_eq!(b.authors, "");
    assert_eq!(b.edition_year, "");
}

#[test]
fn test_simple_name_2_parts_2() {
    let bres = get_book_name(r"C:\Temp\Title - Author.pdf");
    assert!(bres.is_ok());
    let b = bres.unwrap();
    assert_eq!(b.full_title, "Title");
    assert_eq!(b.editor, "");
    assert_eq!(b.authors, "Author");
    assert_eq!(b.edition_year, "");
}

#[test]
fn test_simple_name_1_part() {
    let bres = get_book_name(r"C:\Temp\Title.pdf");
    assert!(bres.is_ok());
    let b = bres.unwrap();
    assert_eq!(b.full_title, "Title");
    assert_eq!(b.base_title, "Title");
    assert_eq!(b.editor, "");
    assert_eq!(b.edition_year, "");
    assert_eq!(b.authors, "");
}

#[test]
fn test_year_version_1() {
    let bres = get_book_name(r"C:\Temp\Title (2è ed, 2022) - [Editor] - Author.pdf");
    assert!(bres.is_ok());
    let b = bres.unwrap();
    assert_eq!(b.full_title, "Title (2è ed, 2022)");
    assert_eq!(b.base_title, "Title");
    assert_eq!(b.editor, "[Editor]");
    assert_eq!(b.authors, "Author");
    assert_eq!(b.edition_year, "2è ed, 2022");
    assert_eq!(b.edition, "2è");
    assert_eq!(b.year, "2022");
}

#[test]
fn test_year_version_2() {
    let bres = get_book_name(r"C:\Temp\Title (2025) - [Editor] - Author.pdf");
    assert!(bres.is_ok());
    let b = bres.unwrap();
    assert_eq!(b.full_title, "Title (2025)");
    assert_eq!(b.base_title, "Title");
    assert_eq!(b.editor, "[Editor]");
    assert_eq!(b.authors, "Author");
    assert_eq!(b.edition_year, "2025");
    assert_eq!(b.edition, "");
    assert_eq!(b.year, "2025");
}

#[test]
fn braced_block_is_lifted_out() {
    let b = get_book_name(r"C:\Temp\Title {draft} - Author.pdf").unwrap();
    assert_eq!(b.base_title, "Title");
    assert_eq!(b.braced, "draft");
}

#[test]
fn too_many_parts_is_an_error() {
    let e = get_book_name(r"C:\Temp\a - b - c - d.pdf").unwrap_err();
    assert_eq!(e, r"Err: >3 seg: C:\Temp\a - b - c - d.pdf");
}

#[test]
fn missing_closing_parenthesis_is_an_error() {
    let e = get_book_name(r"C:\Temp\Title (2025.pdf").unwrap_err();
    assert_eq!(e, r"Err: Missing closing parenthesis: C:\Temp\Title (2025.pdf");
}

#[test]
fn invalid_block_is_an_error() {
    let e = get_book_name(r"C:\Temp\Title (not a year).pdf").unwrap_err();
    assert_eq!(e, r"Err: Invalid block between parentheses: C:\Temp\Title (not a year).pdf");
}

#[test]
fn missing_closing_brace_is_an_error() {
    let e = get_book_name(r"C:\Temp\Title {draft.pdf").unwrap_err();
    assert_eq!(e, r"Err: Missing closing curly brace: C:\Temp\Title {draft.pdf");
}

#[test]
fn balanced_brackets_are_accepted() {
    assert!(is_balanced("(a[b]c)"));
    assert!(is_balanced("«a ‹b› c»"));
    assert!(is_balanced(""));
    assert!(is_balanced("plain text"));
}

#[test]
fn unbalanced_brackets_are_rejected() {
    assert!(!is_balanced("(]"));
    assert!(!is_balanced("a("));
    assert!(!is_balanced(")a"));
    assert!(!is_balanced("{[}]"));
}

#[test]
fn find_from_position_reports_absolute_positions() {
    assert_eq!(find_from_position("abcabc", 'b', 0), Some(1));
    assert_eq!(find_from_position("abcabc", 'b', 2), Some(4));
    assert_eq!(find_from_position("abcabc", 'z', 0), None);
    assert_eq!(find_from_position("abc", 'a', 10), None);
}

#[test]
fn file_name_is_lowercased() {
    assert_eq!(file_name_lowercase(r"C:\Dir\FiLe.TXT"), "file.txt");
    assert_eq!(file_name_lowercase("plain"), "plain");
}

#[test]
fn confusables_and_double_spaces_are_fixed() {
    let r = check_basename("Don\u{2019}t  stop .txt");
    assert!(r.bad_apostrophe);
    assert!(r.double_space);
    assert!(!r.non_normalized);
    assert_eq!(r.fixed.unwrap(), "Don't stop.txt");
}

#[test]
fn non_normalized_name_is_normalized() {
    let r = check_basename("cafe\u{301}.txt");
    assert!(r.non_normalized);
    assert_eq!(r.fixed.unwrap(), "café.txt");
}

#[test]
fn clean_name_needs_no_fix() {
    let r = check_basename("report.txt");
    assert!(r.fixed.is_none());
    assert!(!r.non_normalized);
    assert!(!r.bad_apostrophe);
    assert!(!r.bad_space);
    assert!(!r.double_space);
    assert!(!r.bad_char);
}

#[test]
fn control_character_is_flagged() {
    let r = check_basename("a\u{0007}b.txt");
    assert!(r.bad_char);
}

#[test]
fn action_names_follow_the_recycle_choice() {
    assert_eq!(ActionPrint::new().name(), "Print");
    assert_eq!(ActionDelete::new(true).name(), "Delete files (permanent)");
    assert_eq!(
        ActionDelete::new(false).name(),
        "Delete files (use recycle bin for local files, permanently for remote files)"
    );
    assert_eq!(ActionRmdir::new(true).name(), "Delete directories (permanent)");
    assert!(ActionRmdir::new(false).norecycle() == false);
}

#[test]
fn quoted_path_quotes_only_when_needed() {
    assert_eq!(quoted_path("a b"), "\"a b\"");
    assert_eq!(quoted_path("ab"), "ab");
}

#[test]
fn alphanumeric_characters_outside_latin_ranges_are_accepted() {
    let r = check_basename("日本語.txt");
    assert!(!r.bad_char);
    assert!(r.fixed.is_none());
}
