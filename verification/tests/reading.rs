use rust_patch::context::{context_to_unified_lines, parse_context_patch};
use rust_patch::header::{
    extract_timestamp_field, hunk_header_suffix, is_epoch_timestamp_line, parse_context_hunk_range,
    parse_file_path, parse_header_timestamp, parse_normal_command, parse_unified_hunk_header,
    read_context_range, read_normal_command, read_timestamp, read_unified_ranges,
    unquote_c_string,
};
use rust_patch::model::{DiffFormat, FilePatch, HunkLine, Notes, PatchError};
use rust_patch::normal::parse_normal_patch;
use rust_patch::parse::{detect_format, parse_patches};
use rust_patch::unified::{hunk_has_remaining, old_len_from_hunk, parse_unified_patch};

fn read(input: &str) -> Vec<FilePatch> {
    let mut notes = Notes::new();
    parse_patches(input, &mut notes).unwrap()
}

fn show(line: &HunkLine) -> String {
    match line {
        HunkLine::Context(s) => format!(" {s}"),
        HunkLine::Remove(s) => format!("-{s}"),
        HunkLine::Add(s) => format!("+{s}"),
    }
}

fn shown(lines: &Vec<HunkLine>) -> Vec<String> {
    lines.iter().map(show).collect()
}

#[test]
fn unified_header_with_and_without_counts() {
    assert_eq!(parse_unified_hunk_header("@@ -1,3 +2,4 @@ fn f()"), Ok(Some((1, 3, 2, 4))));
    assert_eq!(parse_unified_hunk_header("@@ -7 +8 @@"), Ok(Some((7, 1, 8, 1))));
    assert_eq!(parse_unified_hunk_header("@@  -0,0   +1,2  @@"), Ok(Some((0, 0, 1, 2))));
    assert_eq!(parse_unified_hunk_header("@@ -1,3 +2,4"), Ok(None));
    assert_eq!(parse_unified_hunk_header(" @@ -1 +1 @@"), Ok(None));
    assert_eq!(
        parse_unified_hunk_header("@@ -99999999999999999999999 +1 @@"),
        Err(PatchError::NumberOutOfRange)
    );
}

#[test]
fn unified_header_suffix_is_what_follows() {
    assert_eq!(hunk_header_suffix("@@ -1,3 +2,4 @@ fn f()"), " fn f()");
    assert_eq!(hunk_header_suffix("@@ -1 +2 @@"), "");
    assert_eq!(hunk_header_suffix("no header"), "");
}

#[test]
fn context_ranges() {
    assert_eq!(parse_context_hunk_range("*** 1,7 ****"), Ok(Some((1, 7))));
    assert_eq!(parse_context_hunk_range("--- 3 ----"), Ok(Some((3, 3))));
    assert_eq!(parse_context_hunk_range("*** 2,9 **** main(void)"), Ok(Some((2, 9))));
    assert_eq!(parse_context_hunk_range("--- 1, 4 ----"), Ok(Some((1, 4))));
    assert_eq!(parse_context_hunk_range("*** a.c"), Ok(None));
    assert_eq!(
        parse_context_hunk_range("*** 99999999999999999999999 ****"),
        Err(PatchError::NumberOutOfRange)
    );
}

#[test]
fn normal_commands() {
    assert_eq!(parse_normal_command("3,5c4,7"), Ok(Some((3, 5, 'c', 4, 7))));
    assert_eq!(parse_normal_command("2a3"), Ok(Some((2, 2, 'a', 3, 3))));
    assert_eq!(parse_normal_command("2d1\r"), Ok(Some((2, 2, 'd', 1, 1))));
    assert_eq!(parse_normal_command("2x1"), Ok(None));
    assert_eq!(
        parse_normal_command("99999999999999999999999d1"),
        Err(PatchError::NumberOutOfRange)
    );
}

#[test]
fn groups_are_read_without_a_match() {
    let some = |s: &str| Some(s.to_string());
    assert_eq!(
        read_unified_ranges(&vec![None, some("4"), some("2"), some("6"), None]),
        Ok((4, 2, 6, 1))
    );
    assert_eq!(
        read_unified_ranges(&vec![None, some("4"), some("x"), some("6"), None]),
        Err(PatchError::NumberOutOfRange)
    );
    assert_eq!(read_context_range(&vec![None, some("4"), None]), Ok((4, 4)));
    assert_eq!(
        read_context_range(&vec![None, some("4"), some("")]),
        Err(PatchError::NumberOutOfRange)
    );
    assert_eq!(
        read_normal_command(&vec![None, some("1"), None, some("c"), some("2"), some("5")]),
        Ok((1, 1, 'c', 2, 5))
    );
}

#[test]
fn timestamps_in_seconds() {
    assert_eq!(parse_header_timestamp("1970-01-01 00:00:00", true), Some(0));
    assert_eq!(parse_header_timestamp("2000-03-01 00:00:00", true), Some(951_868_800));
    assert_eq!(parse_header_timestamp("2009-02-13T23:31:30", false), Some(1_234_567_890));
    assert_eq!(
        parse_header_timestamp("2009-02-14 00:31:30.000000000 +0100", true),
        Some(1_234_567_890)
    );
    assert_eq!(
        parse_header_timestamp("2009-02-13 18:01:30 -05:30", true),
        Some(1_234_567_890)
    );
    assert_eq!(
        parse_header_timestamp("2008-02-29 00:00:00", true).unwrap() + 86400,
        parse_header_timestamp("2008-03-01 00:00:00", true).unwrap()
    );
    assert_eq!(
        parse_header_timestamp("1899-12-31 00:00:00", true).unwrap() + 86400,
        parse_header_timestamp("1900-01-01 00:00:00", true).unwrap()
    );
    assert_eq!(
        parse_header_timestamp("2000-03-00 00:00:00", true),
        parse_header_timestamp("2000-02-29 00:00:00", true)
    );
    assert_eq!(parse_header_timestamp("yesterday", true), None);
}

#[test]
fn timestamp_groups_in_seconds() {
    let some = |s: &str| Some(s.to_string());
    let mut groups = vec![
        None,
        some("2009"),
        some("02"),
        some("14"),
        some("00"),
        some("31"),
        some("30"),
        None,
        some("+"),
        some("01"),
        some("00"),
    ];
    assert_eq!(read_timestamp(&groups), Some(1_234_567_890));
    groups[8] = None;
    groups[9] = None;
    groups[10] = None;
    assert_eq!(read_timestamp(&groups), Some(1_234_571_490));
}

#[test]
fn timestamp_field_follows_the_tab() {
    assert_eq!(extract_timestamp_field("--- a.c\t2009-01-01 \r"), Some("2009-01-01"));
    assert_eq!(extract_timestamp_field("--- a.c 2009-01-01"), None);
}

#[test]
fn epoch_marks_a_missing_file() {
    assert!(is_epoch_timestamp_line("--- a\t1970-01-01 00:00:00.000000000 +0000"));
    assert!(is_epoch_timestamp_line("--- a\tThu Jan  1 00:00:00 1970"));
    assert!(is_epoch_timestamp_line("+++ f\t1970-01-01 01:00:00.000000000 +0100"));
    assert!(is_epoch_timestamp_line("+++ f\t1969-12-31 18:30:00 -05:30"));
    assert!(is_epoch_timestamp_line("+++ f\t1970-01-01T00:00:00"));
    assert!(!is_epoch_timestamp_line("+++ f\t1970-01-01 01:00:00.000000000 +0200"));
    assert!(!is_epoch_timestamp_line("+++ f\t1970-01-01 01:00:01 +0100"));
    assert!(!is_epoch_timestamp_line("+++ f\t1970-01-01 01:00:00 0100"));
    assert!(!is_epoch_timestamp_line("--- a\t1970-01-01 01:00:00"));
    assert!(!is_epoch_timestamp_line("--- a 1970-01-01 00:00:00"));
}

#[test]
fn file_names_of_headers() {
    assert_eq!(parse_file_path("--- a/b.c\t2009-01-01 00:00:00", "--- "), "a/b.c");
    assert_eq!(parse_file_path("+++ \"a\\tb\"", "+++ "), "a\tb");
    assert_eq!(parse_file_path("+++ plain name", "+++ "), "plain name");
    assert_eq!(parse_file_path("--- \"a\\\"b\"", "--- "), "a\"b");
    assert_eq!(parse_file_path("--- \"a\\\\\" x\"", "--- "), "a\\");
    assert_eq!(parse_file_path("--- \"a\\\"", "--- "), "\"a\\\"");
}

#[test]
fn c_strings() {
    assert_eq!(unquote_c_string("a\\nb\\\\\\\""), "a\nb\\\"");
    assert_eq!(unquote_c_string("\\101\\x42\\7"), "AB\u{7}");
    assert_eq!(unquote_c_string("\\q\\"), "\\q\\");
    assert_eq!(unquote_c_string("bare"), "bare");
}

const UNIFIED: &str = "junk before\n--- a/f\t2009-01-01 00:00:00\n+++ b/f\n@@ -1,3 +1,3 @@ main\n one\n-two\n+TWO\n three\n\\ No newline at end of file\n";

#[test]
fn unified_diff() {
    let patches = read(UNIFIED);
    assert_eq!(patches.len(), 1);
    let p = &patches[0];
    assert_eq!(p.old_file, "a/f");
    assert_eq!(p.new_file, "b/f");
    assert_eq!(p.old_header, "a/f\t2009-01-01 00:00:00");
    assert_eq!(p.format, DiffFormat::Unified);
    assert_eq!(p.hunks.len(), 1);
    let h = &p.hunks[0];
    assert_eq!((h.old_start, h.old_count, h.new_start, h.new_count), (1, 3, 1, 3));
    assert_eq!(h.header_suffix, " main");
    assert_eq!(shown(&h.lines), vec![" one", "-two", "+TWO", " three"]);
    assert_eq!(old_len_from_hunk(h), 3);
    assert!(!hunk_has_remaining(&h.lines, 3, 3));
    assert!(hunk_has_remaining(&h.lines, 4, 3));
}

#[test]
fn epoch_header_becomes_the_null_file() {
    let patches =
        read("--- f\t1970-01-01 00:00:00\n+++ f\t2009-01-01 00:00:00\n@@ -0,0 +1 @@\n+x\n");
    assert_eq!(patches[0].old_file, "/dev/null");
    assert_eq!(patches[0].new_file, "f");
}

#[test]
fn git_header_alone() {
    let input = "diff --git a/x b/y\nold mode 100644\nnew mode 100755\nrename from x\nrename to y\nindex 1234..5678 120000\n";
    let patches = read(input);
    assert_eq!(patches.len(), 1);
    let p = &patches[0];
    assert_eq!(p.old_file, "a/x");
    assert_eq!(p.new_file, "b/y");
    assert!(p.hunks.is_empty());
    assert_eq!(p.git.old_mode, Some(0o100644));
    assert_eq!(p.git.new_mode, Some(0o100755));
    assert_eq!(p.git.index_mode, Some(0o120000));
    assert_eq!(p.git.rename_from.as_deref(), Some("x"));
    assert_eq!(p.git.rename_to.as_deref(), Some("y"));
}

#[test]
fn the_null_file_outweighs_the_git_header() {
    let input = "diff --git a/x b/x\n--- a/x\n+++ /dev/null\n@@ -1 +0,0 @@\n-x\n";
    let patches = read(input);
    assert_eq!(patches[0].old_file, "a/x");
    assert_eq!(patches[0].new_file, "/dev/null");
}

#[test]
fn git_headers_in_a_row() {
    let input = "diff --git a/x b/x\nnew file mode 100644\ndiff --git a/y b/y\ndeleted file mode 100644\n";
    let patches = read(input);
    assert_eq!(patches.len(), 2);
    assert_eq!(patches[0].git.new_file_mode, Some(0o100644));
    assert_eq!(patches[1].git.deleted_file_mode, Some(0o100644));
}

#[test]
fn binary_content_is_noted() {
    let mut notes = Notes::new();
    let input = "diff --git a/x b/x\nGIT binary patch\nliteral 3\nabc\n";
    let patches = parse_patches(input, &mut notes).unwrap();
    assert_eq!(patches.len(), 1);
    assert!(patches[0].hunks.is_empty());
    assert_eq!(notes.binary_files, vec!["x"]);
}

#[test]
fn malformed_line_is_noted_once() {
    let mut notes = Notes::new();
    let input = "--- a\n+++ b\n@@ -1,3 +1,3 @@\n one\ngarbage\n";
    let patches = parse_patches(input, &mut notes).unwrap();
    assert_eq!(notes.malformed, Some((5, "garbage".to_string())));
    assert_eq!(patches[0].hunks.len(), 1);
}

#[test]
fn reading_goes_on_after_a_malformed_hunk() {
    let mut notes = Notes::new();
    let input = "--- a\n+++ b\n@@ -1,3 +1,3 @@\n one\ngarbage\n@@ bad\n--- c\n+++ d\n@@ -1 +1 @@\n-x\n+y\n";
    let patches = parse_patches(input, &mut notes).unwrap();
    assert_eq!(notes.malformed, Some((5, "garbage".to_string())));
    assert_eq!(patches.len(), 2);
    assert_eq!(patches[1].old_file, "c");
    assert_eq!(patches[1].hunks.len(), 1);
}

#[test]
fn an_unreadable_hunk_header_is_no_patch() {
    let mut notes = Notes::new();
    notes.malformed = Some((1, "before".to_string()));
    let r = parse_unified_patch(&["@@ bad", "--- c"], 0, &mut notes);
    assert!(matches!(r, Ok(None)));
}

#[test]
fn a_final_newline_changes_nothing() {
    for text in ["", "--- a\n+++ b\n@@ -1 +1 @@\n-x\n+y", "1d0\n< x", "garbage"] {
        let with = format!("{text}\n");
        let (mut n1, mut n2) = (Notes::new(), Notes::new());
        let (p1, p2) = (parse_patches(text, &mut n1), parse_patches(&with, &mut n2));
        assert_eq!(format!("{p1:?}"), format!("{p2:?}"));
        assert_eq!(format!("{n1:?}"), format!("{n2:?}"));
    }
}

#[test]
fn number_out_of_range_ends_reading() {
    let mut notes = Notes::new();
    let r = parse_patches("--- a\n+++ b\n@@ -1,99999999999999999999999 +1 @@\n x\n", &mut notes);
    assert_eq!(r.err(), Some(PatchError::NumberOutOfRange));
}

const CONTEXT: &str = "*** f.orig\t2009-01-01\n--- f\t2009-01-02\n***************\n*** 1,4 ****\n  one\n! two\n- three\n  four\n--- 1,4 ----\n  one\n! TWO\n  four\n+ five\n";

#[test]
fn context_diff() {
    let patches = read(CONTEXT);
    assert_eq!(patches.len(), 1);
    let p = &patches[0];
    assert_eq!(p.format, DiffFormat::Context);
    assert_eq!(p.old_file, "f.orig");
    assert_eq!(p.new_file, "f");
    let h = &p.hunks[0];
    assert_eq!((h.old_start, h.old_count, h.new_start, h.new_count), (1, 4, 1, 4));
    assert_eq!(
        shown(&h.lines),
        vec![" one", "-two", "-three", "+TWO", " four", "+five"]
    );
}

#[test]
fn context_diff_with_one_side_left_out() {
    let input = "*** f\n--- f\n***************\n*** 1,3 ****\n  one\n- two\n  three\n--- 1,2 ----\n";
    let patches = read(input);
    assert_eq!(shown(&patches[0].hunks[0].lines), vec![" one", "-two", " three"]);
}

#[test]
fn context_hunk_of_the_wrong_length() {
    let mut notes = Notes::new();
    let input = "*** f\n--- f\n***************\n*** 1,1 ****\n! a\n--- 1,3 ----\n! b\n";
    let r = parse_patches(input, &mut notes);
    assert!(matches!(r, Err(PatchError::MangledHunk { line: _ })));
}

#[test]
fn merging_the_two_sides_of_a_context_hunk() {
    let old = vec![(' ', "a".to_string()), ('!', "b".to_string()), (' ', "d".to_string())];
    let new = vec![(' ', "a".to_string()), ('!', "c".to_string()), (' ', "d".to_string())];
    let lines = context_to_unified_lines(&old, &new);
    assert_eq!(shown(&lines), vec![" a", "-b", "+c", " d"]);
}

#[test]
fn normal_diff() {
    let input = "diff -r a/f b/f\n1c1,2\n< one\n---\n> ONE\n> TWO\n3a5\n> new\n5d6\n< gone\n";
    let lines: Vec<&str> = input.trim_end().split('\n').collect();
    let (p, next) = parse_normal_patch(&lines, 0).unwrap().unwrap();
    assert_eq!(next, lines.len());
    assert_eq!(p.format, DiffFormat::Normal);
    assert_eq!(p.old_file, "a/f");
    assert_eq!(p.new_file, "b/f");
    assert_eq!(p.hunks.len(), 3);
    assert_eq!(shown(&p.hunks[0].lines), vec!["-one", "+ONE", "+TWO"]);
    assert_eq!((p.hunks[0].old_count, p.hunks[0].new_count), (1, 2));
    assert_eq!((p.hunks[1].old_start, p.hunks[1].old_count), (3, 0));
    assert_eq!((p.hunks[2].old_count, p.hunks[2].new_count), (1, 0));
}

#[test]
fn normal_diff_with_a_backward_range() {
    let lines = vec!["5,3d2", "< x"];
    assert_eq!(parse_normal_patch(&lines, 0).err(), Some(PatchError::NumberOutOfRange));
    assert!(parse_normal_patch(&vec!["text"], 0).unwrap().is_none());
}

#[test]
fn formats_are_told_apart() {
    assert_eq!(detect_format(&["x", "@@ -1 +1 @@"], 0), Ok(DiffFormat::Unified));
    assert_eq!(detect_format(&["x", "***************"], 0), Ok(DiffFormat::Context));
    assert_eq!(detect_format(&["x", "1d0"], 0), Ok(DiffFormat::Normal));
    assert_eq!(detect_format(&["x"], 0), Ok(DiffFormat::Unified));
    assert_eq!(detect_format(&["1d0", "@@"], 1), Ok(DiffFormat::Unified));
}

#[test]
fn forms_follow_each_other() {
    let input = format!("{UNIFIED}{CONTEXT}1d0\n< x\n");
    let patches = read(&input);
    let forms: Vec<DiffFormat> = patches.iter().map(|p| p.format).collect();
    assert_eq!(
        forms,
        vec![DiffFormat::Unified, DiffFormat::Context, DiffFormat::Normal]
    );
}

#[test]
fn nothing_in_plain_text() {
    assert!(read("hello\nworld\n").is_empty());
    assert!(read("").is_empty());
    let mut notes = Notes::new();
    assert!(parse_unified_patch(&["hello"], 0, &mut notes).unwrap().is_none());
    assert!(parse_context_patch(&["hello"], 0).unwrap().is_none());
}
