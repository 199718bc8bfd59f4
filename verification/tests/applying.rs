use rust_patch::apply::{apply_hunk, ApplyError};
use rust_patch::model::{DiffFormat, FilePatch, GitMeta, Hunk, HunkLine, Notes};
use rust_patch::options::Options;
use rust_patch::parse::parse_patches;
use rust_patch::run::{
    apply_hunks, expected_line, finish, output_text, refuse_hunks, split_content, Manner,
};
use rust_patch::session::patch_content;

fn lines(text: &str) -> Vec<String> {
    text.split(' ').map(|s| s.to_string()).collect()
}

fn hunk(old_start: usize, old_count: usize, new_start: usize, new_count: usize, body: &[&str]) -> Hunk {
    let lines = body
        .iter()
        .map(|l| {
            let rest = l[1..].to_string();
            match &l[..1] {
                "-" => HunkLine::Remove(rest),
                "+" => HunkLine::Add(rest),
                _ => HunkLine::Context(rest),
            }
        })
        .collect();
    Hunk { old_start, old_count, new_start, new_count, header_suffix: String::new(), lines }
}

fn patch_of(hunks: Vec<Hunk>) -> FilePatch {
    FilePatch {
        old_file: "f".to_string(),
        new_file: "f".to_string(),
        old_header: "f".to_string(),
        new_header: "f".to_string(),
        index_line: None,
        hunks,
        format: DiffFormat::Unified,
        git: GitMeta::default(),
    }
}

fn manner() -> Manner {
    Manner {
        fuzz: 2,
        reverse: false,
        strip_cr: false,
        silent: false,
        verbose: false,
        forward: false,
        endings_differ: false,
    }
}

#[test]
fn hunk_at_its_place() {
    let h = hunk(2, 2, 2, 2, &[" b", "-c", "+C"]);
    let r = apply_hunk(&lines("a b c d"), &h, 2, false, false).unwrap().unwrap();
    assert_eq!(r, (lines("a b C d"), 0, 0, 1));
}

#[test]
fn hunk_in_reverse_gives_the_file_back() {
    let h = hunk(2, 3, 2, 4, &[" b", "-c", "+C", "+D", " d"]);
    let file = lines("a b c d e");
    let there = apply_hunk(&file, &h, 2, false, false).unwrap().unwrap();
    assert_eq!(there.0, lines("a b C D d e"));
    let back = apply_hunk(&there.0, &h, 2, true, false).unwrap().unwrap();
    assert_eq!(back, (file, 0, 0, 1));
}

#[test]
fn nearer_place_first_and_forward_before_backward() {
    let h = hunk(3, 1, 3, 1, &["-x", "+y"]);
    let r = apply_hunk(&lines("a x b x c"), &h, 0, false, false).unwrap().unwrap();
    assert_eq!(r, (lines("a x b y c"), 0, 1, 3));
    let r = apply_hunk(&lines("a x b c d"), &h, 0, false, false).unwrap().unwrap();
    assert_eq!(r, (lines("a y b c d"), 0, -1, 1));
}

#[test]
fn fuzz_leaves_out_context() {
    let h = hunk(1, 3, 1, 3, &[" a", "-b", "+B", " c"]);
    let file = lines("a b X");
    assert_eq!(apply_hunk(&file, &h, 0, false, false).unwrap(), None);
    let r = apply_hunk(&file, &h, 1, false, false).unwrap().unwrap();
    assert_eq!(r, (lines("a B X"), 1, 0, 0));
}

#[test]
fn first_fit_is_the_only_result() {
    let h = hunk(1, 1, 1, 1, &["-x", "+y"]);
    let file = lines("x x x");
    let a = apply_hunk(&file, &h, 2, false, false).unwrap();
    let b = apply_hunk(&file, &h, 2, false, false).unwrap();
    assert_eq!(a, b);
    assert_eq!(a.unwrap().0, lines("y x x"));
}

#[test]
fn insertion_after_a_line() {
    let h = hunk(2, 0, 3, 1, &["+n"]);
    let r = apply_hunk(&lines("a b c"), &h, 0, false, false).unwrap().unwrap();
    assert_eq!(r.0, lines("a b n c"));
    let h = hunk(0, 0, 1, 1, &["+n"]);
    let r = apply_hunk(&Vec::new(), &h, 0, false, false).unwrap().unwrap();
    assert_eq!(r.0, lines("n"));
}

#[test]
fn carriage_returns_are_left_out_on_request() {
    let h = hunk(1, 1, 1, 1, &["-x\r", "+y\r"]);
    let file = lines("x");
    assert_eq!(apply_hunk(&file, &h, 0, false, false).unwrap(), None);
    assert_eq!(apply_hunk(&file, &h, 0, false, true).unwrap().unwrap().0, lines("y"));
}

#[test]
fn context_alone_can_be_cut_twice() {
    let h = hunk(1, 3, 1, 3, &[" p", " q", " r"]);
    assert_eq!(apply_hunk(&lines("a b c"), &h, 2, false, false), Err(ApplyError::FuzzOverlap));
}

#[test]
fn hunks_one_after_the_other() {
    let p = patch_of(vec![
        hunk(1, 1, 1, 2, &[" a", "+new"]),
        hunk(4, 1, 5, 1, &["-d", "+D"]),
    ]);
    let run = apply_hunks(lines("a b c d e"), &p, manner()).unwrap();
    assert_eq!(run.lines, lines("a new b c D e"));
    assert_eq!(run.delta, 1);
    assert!(run.failed.is_empty());
    assert!(run.messages.is_empty());
}

#[test]
fn hunks_in_reverse_give_the_file_back() {
    let p = patch_of(vec![
        hunk(1, 2, 1, 4, &[" a", "+x", "+y", " b"]),
        hunk(4, 3, 6, 2, &[" d", "-e", " f"]),
        hunk(8, 1, 9, 1, &["-h", "+H"]),
    ]);
    let there = apply_hunks(lines("a b c d e f g h"), &p, manner()).unwrap();
    assert_eq!(there.lines, lines("a x y b c d f g H"));
    let mut back = manner();
    back.reverse = true;
    let run = apply_hunks(there.lines, &p, back).unwrap();
    assert_eq!(run.lines, lines("a b c d e f g h"));
    assert!(run.failed.is_empty());
}

#[test]
fn a_nearer_place_is_taken_in_reverse() {
    let p = patch_of(vec![
        hunk(1, 1, 1, 3, &[" a", "+p", "+q"]),
        hunk(3, 1, 5, 1, &["-x", "+y"]),
    ]);
    let there = apply_hunks(lines("a b x c y"), &p, manner()).unwrap();
    assert_eq!(there.lines, lines("a p q b y c y"));
    let mut back = manner();
    back.reverse = true;
    let run = apply_hunks(there.lines, &p, back).unwrap();
    assert_eq!(run.lines, lines("a b y c x"));
}

#[test]
fn messages_on_hunks() {
    let p = patch_of(vec![
        hunk(1, 1, 1, 1, &["-c", "+C"]),
        hunk(9, 1, 9, 1, &["-nowhere", "+x"]),
    ]);
    let run = apply_hunks(lines("a b c"), &p, manner()).unwrap();
    assert_eq!(
        run.messages,
        vec!["Hunk #1 succeeded at 3 (offset 2 lines).", "Hunk #2 FAILED at 9."]
    );
    assert_eq!(run.failed, vec![1]);
    let m = Manner { verbose: true, ..manner() };
    let p = patch_of(vec![hunk(1, 1, 1, 1, &["-a", "+A"])]);
    let run = apply_hunks(lines("a"), &p, m).unwrap();
    assert_eq!(run.messages, vec!["Hunk #1 succeeded at 1."]);
}

#[test]
fn one_line_of_offset_is_one_line() {
    let p = patch_of(vec![hunk(1, 1, 1, 1, &["-b", "+B"])]);
    let run = apply_hunks(lines("a b"), &p, manner()).unwrap();
    assert_eq!(run.messages, vec!["Hunk #1 succeeded at 2 (offset 1 line)."]);
}

#[test]
fn uneven_context_counts_as_fuzz() {
    let p = patch_of(vec![hunk(2, 3, 2, 3, &[" b", " c", "-d", "+D"])]);
    let run = apply_hunks(lines("a b c d e"), &p, manner()).unwrap();
    assert_eq!(run.messages, vec!["Hunk #1 succeeded at 2 with fuzz 2."]);
    let run = apply_hunks(lines("a b c d"), &p, manner()).unwrap();
    assert!(run.messages.is_empty());
    let run = apply_hunks(lines("a a b c d e"), &p, manner()).unwrap();
    assert_eq!(run.messages, vec!["Hunk #1 succeeded at 3 with fuzz 2 (offset 1 line)."]);
}

#[test]
fn forward_skips_what_is_there() {
    let p = patch_of(vec![hunk(1, 1, 1, 1, &["-a", "+A"])]);
    let m = Manner { forward: true, ..manner() };
    let run = apply_hunks(lines("A"), &p, m).unwrap();
    assert_eq!(run.messages, vec!["Skipping patch -- already applied (hunk #1)."]);
    assert!(run.failed.is_empty());
    assert_eq!(run.lines, lines("A"));
}

#[test]
fn line_endings_are_mentioned() {
    let p = patch_of(vec![hunk(1, 1, 1, 1, &["-a\r", "+A\r"])]);
    let m = Manner { endings_differ: true, ..manner() };
    let run = apply_hunks(lines("a"), &p, m).unwrap();
    assert_eq!(run.messages, vec!["Hunk #1 FAILED at 1 (different line endings)."]);
}

#[test]
fn failed_hunks_leave_the_lines() {
    let p = patch_of(vec![
        hunk(1, 1, 1, 1, &["-p", "+P"]),
        hunk(2, 1, 2, 1, &["-q", "+Q"]),
    ]);
    let run = apply_hunks(lines("a b c"), &p, manner()).unwrap();
    assert_eq!(run.failed, vec![0, 1]);
    assert_eq!(run.lines, lines("a b c"));
    let run = refuse_hunks(lines("a b c"), &p, false);
    assert_eq!(run.failed, vec![0, 1]);
    assert_eq!(run.messages, vec!["Hunk #1 FAILED at 1.", "Hunk #2 FAILED at 2."]);
    assert!(refuse_hunks(Vec::new(), &p, true).messages.is_empty());
}

#[test]
fn lines_at_which_hunks_belong() {
    let h = hunk(5, 2, 8, 0, &[]);
    assert_eq!(expected_line(&h, false, 3), 8);
    assert_eq!(expected_line(&h, true, 3), 12);
    assert_eq!(expected_line(&hunk(0, 0, 1, 1, &[]), false, 3), 1);
}

#[test]
fn lines_of_a_file_and_back() {
    assert_eq!(split_content("a\r\nb\n", false), lines("a b"));
    assert_eq!(split_content("a\r\nb\n", true), lines("a\r b"));
    assert_eq!(split_content("a\nb", false), lines("a b"));
    assert!(split_content("", false).is_empty());
    assert_eq!(output_text(&lines("a b"), "x\n", false), "a\nb\n");
    assert_eq!(output_text(&lines("a b\r"), "x\r\n", true), "a\r\nb\r\n");
    assert_eq!(output_text(&lines("a b"), "", false), "a\nb");
    assert_eq!(output_text(&Vec::new(), "x\n", false), "");
    let text = output_text(&lines("a b\r"), "x", true);
    assert_eq!(split_content(&text, false), lines("a b"));
    let text = output_text(&lines("a b c"), "x", false);
    assert_eq!(split_content(&text, true), lines("a b c"));
}

#[test]
fn what_becomes_of_a_file() {
    let mut opts = Options::default();
    let mut p = patch_of(Vec::new());
    let o = finish(&p, &opts, "f", false, 0, "x\n".to_string(), false);
    assert!(!o.remove);
    assert_eq!(o.failures, 0);
    opts.on.remove_empty = true;
    let o = finish(&p, &opts, "f", false, 0, " \n".to_string(), false);
    assert!(o.remove);
    opts.on.remove_empty = false;
    p.new_file = "/dev/null".to_string();
    assert!(finish(&p, &opts, "f", false, 0, String::new(), false).remove);
    assert!(finish(&p, &opts, "f", false, 0, "\r\n".to_string(), true).remove);
    let o = finish(&p, &opts, "f", false, 0, "rest\n".to_string(), false);
    assert!(!o.remove);
    assert_eq!(o.failures, 1);
    assert_eq!(o.messages, vec!["Not deleting file f as content differs from patch"]);
    let o = finish(&p, &opts, "f", false, 2, String::new(), false);
    assert!(!o.remove);
    assert_eq!(o.failures, 2);
    opts.on.posix = true;
    assert!(!finish(&p, &opts, "f", false, 0, String::new(), false).remove);
    p.old_file = "/dev/null".to_string();
    assert!(finish(&p, &opts, "f", true, 0, "x\n".to_string(), false).remove);
}

#[test]
fn a_whole_patch_on_a_text() {
    let mut notes = Notes::new();
    let input = "--- f\n+++ f\n@@ -1,3 +1,3 @@\n a\n-b\n+B\n c\n";
    let patches = parse_patches(input, &mut notes).unwrap();
    let opts = Options::default();
    let r = patch_content(&patches[0], &opts, "f", "a\r\nb\r\nc\r\n", false, false, false, true)
        .unwrap();
    assert!(r.summary.is_empty());
    assert_eq!(r.outcome.unwrap().text, "a\r\nB\r\nc\r\n");
    let r = patch_content(&patches[0], &opts, "f", "x\n", false, false, false, false).unwrap();
    assert_eq!(r.run.messages, vec!["Hunk #1 FAILED at 1."]);
    assert_eq!(
        r.summary,
        vec!["1 out of 1 hunk FAILED -- saving rejects to file f.rej"]
    );
    assert!(r.outcome.is_none());
}

#[test]
fn a_whole_patch_in_reverse() {
    let mut notes = Notes::new();
    let input = "--- f\n+++ f\n@@ -1,3 +1,4 @@\n a\n-b\n+B\n+C\n c\n";
    let patches = parse_patches(input, &mut notes).unwrap();
    let opts = Options::default();
    let there =
        patch_content(&patches[0], &opts, "f", "a\nb\nc\n", false, false, false, false).unwrap();
    let text = there.outcome.unwrap().text;
    assert_eq!(text, "a\nB\nC\nc\n");
    let back = patch_content(&patches[0], &opts, "f", &text, true, false, false, false).unwrap();
    assert_eq!(back.outcome.unwrap().text, "a\nb\nc\n");
}

#[test]
fn a_creation_that_is_refused() {
    let mut notes = Notes::new();
    let input = "--- /dev/null\n+++ f\n@@ -0,0 +1 @@\n+x\n";
    let patches = parse_patches(input, &mut notes).unwrap();
    let mut opts = Options::default();
    opts.on.set_utc = true;
    opts.on.dry_run = true;
    let r = patch_content(&patches[0], &opts, "f", "y\n", false, false, true, false).unwrap();
    assert_eq!(r.run.messages, vec!["Hunk #1 FAILED at 1."]);
    assert_eq!(
        r.summary,
        vec!["Not setting time of file f (time mismatch)", "1 out of 1 hunk FAILED"]
    );
    assert!(r.outcome.is_none());
}
