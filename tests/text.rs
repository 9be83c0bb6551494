use static_scan::engine::next_milestone;
use static_scan::text::{code_lines, contains_text, get_line_for, same_text};
use static_scan::walker::{enters_dir, is_excluded_dir, is_source_file};

#[test]
fn line_numbers_count_newlines_before() {
    let t = "a\nb\nc";
    assert_eq!(get_line_for(0, t), 0);
    assert_eq!(get_line_for(1, t), 0);
    assert_eq!(get_line_for(2, t), 1);
    assert_eq!(get_line_for(4, t), 2);
    assert_eq!(get_line_for(100, t), 2);
    assert_eq!(get_line_for(3, "ñ\nx"), 1);
}

#[test]
fn code_lines_takes_whole_lines() {
    let t = "l0\nl1\nl2";
    assert_eq!(code_lines(t, 1, 1), "l1");
    assert_eq!(code_lines(t, 0, 2), "l0\nl1\nl2");
    assert_eq!(code_lines(t, 1, 2), "l1\nl2");
    assert_eq!(code_lines(t, 0, 0), "l0");
    assert_eq!(code_lines(t, 5, 6), "");
    assert_eq!(code_lines("x\n", 1, 1), "");
}

#[test]
fn text_comparisons() {
    assert!(contains_text("ab{fc2}c", "{fc2}"));
    assert!(!contains_text("ab{fc1}c", "{fc2}"));
    assert!(contains_text("x", ""));
    assert!(same_text("smali", "smali"));
    assert!(!same_text("smali", "smal"));
}

#[test]
fn walker_skips_excluded_directories() {
    assert!(is_excluded_dir("classes/android"));
    assert!(is_excluded_dir("classes/com/google/android/gms"));
    assert!(is_excluded_dir("smali"));
    assert!(!is_excluded_dir("classes/com"));
    assert!(!enters_dir("smali", "smali"));
    assert!(!enters_dir("res/original", "original"));
    assert!(!enters_dir("original", "original"));
    assert!(enters_dir("classes/com", "com"));
}

#[test]
fn walker_picks_source_files() {
    assert!(is_source_file("Main.java"));
    assert!(is_source_file("layout.xml"));
    assert!(!is_source_file("R.java"));
    assert!(!is_source_file("R$id.java"));
    assert!(!is_source_file("AndroidManifest.xml"));
    assert!(!is_source_file(".java"));
    assert!(!is_source_file("notes.txt"));
    assert!(!is_source_file("java"));
    assert!(is_source_file("Rx.java"));
}

#[test]
fn progress_is_announced_by_tenths() {
    assert_eq!(next_milestone(0, 20, 0), None);
    assert_eq!(next_milestone(1, 20, 0), None);
    assert_eq!(next_milestone(2, 20, 0), Some(1));
    assert_eq!(next_milestone(3, 20, 1), None);
    assert_eq!(next_milestone(9, 20, 1), Some(4));
    assert_eq!(next_milestone(20, 20, 4), Some(10));
    assert_eq!(next_milestone(0, 0, 0), Some(10));
}
