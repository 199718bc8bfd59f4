use rust_patch::ed::{
    allows_run, looks_like_ed_script, plan_ed_patches, reading_after, shell_line, shell_script,
    EdPlan, EdRun, Reading,
};
use rust_patch::links::{Place, Question, Tok, Walk};
use rust_patch::model::{DiffFormat, FilePatch, GitMeta, Hunk, HunkLine, Notes};
use rust_patch::number::{decimal_of, decimal_of_signed, parse_octal, parse_u32, parse_usize};
use rust_patch::options::Options;
use rust_patch::parse::parse_patches;
use rust_patch::paths::Whereabouts;
use rust_patch::preflight::{NameVerdict, Verdict};
use rust_patch::reject::{
    all_hunks, format_hunk_range, reject_text, rejects_as_context, write_context_hunk,
    write_unified_hunk,
};
use rust_patch::report::failure_summary;
use rust_patch::session::{
    appends_output, appends_rejects, content_source, ed_status, exit_status, header_status,
    header_step, implicit_backup, link_status, link_step, mode_after, move_status, name_status,
    nul_line, patch_content, patched_status, patches_link, paths_to_remember, plan_move, plan_run,
    plan_status, refused_move, rename_destinations, rename_step, saves_rejects, source_status,
    stand_in, target_status, time_after, verdict_status, wants_backup, worse, HeaderStep, LinkStep,
    Move, MoveFacts, NamePlace, RenameStep, RunPlan, Source, EXIT_HUNKS_FAILED, EXIT_SUCCESS,
    EXIT_TROUBLE,
};
use rust_patch::store::{Cache, PathSet};

fn read(input: &str) -> Vec<FilePatch> {
    let mut notes = Notes::new();
    parse_patches(input, &mut notes).unwrap()
}

fn named(old_file: &str, new_file: &str) -> FilePatch {
    FilePatch {
        old_file: old_file.to_string(),
        new_file: new_file.to_string(),
        old_header: old_file.to_string(),
        new_header: new_file.to_string(),
        index_line: None,
        hunks: Vec::new(),
        format: DiffFormat::Unified,
        git: GitMeta::default(),
    }
}

#[test]
fn numbers_and_their_texts() {
    assert_eq!(decimal_of(0), "0");
    assert_eq!(decimal_of(1205), "1205");
    assert_eq!(decimal_of_signed(-42), "-42");
    assert_eq!(decimal_of_signed(i64::MIN), "-9223372036854775808");
    assert_eq!(parse_usize(&decimal_of(1205)), Some(1205));
    assert_eq!(parse_usize("+7"), Some(7));
    assert_eq!(parse_usize(""), None);
    assert_eq!(parse_usize("7x"), None);
    assert_eq!(parse_u32("4294967296"), None);
    assert_eq!(parse_octal("100644"), Some(0o100644));
    assert_eq!(parse_octal("8"), None);
}

#[test]
fn ranges_of_hunks() {
    assert_eq!(format_hunk_range(3, 1), "3");
    assert_eq!(format_hunk_range(3, 0), "3,0");
    assert_eq!(format_hunk_range(3, 4), "3,4");
}

const INPUT: &str = "Index: f\n--- f\told\n+++ f\tnew\n@@ -1,2 +1,2 @@ main\n a\n-b\n+B\n@@ -9 +9,2 @@\n z\n+y\n";

#[test]
fn unified_rejects() {
    let p = &read(INPUT)[0];
    let opts = Options::default();
    assert_eq!(reject_text(p, &opts, &all_hunks(p)), INPUT);
    assert_eq!(
        reject_text(p, &opts, &vec![1]),
        "Index: f\n--- f\told\n+++ f\tnew\n@@ -9 +9,2 @@\n z\n+y\n"
    );
    assert_eq!(write_unified_hunk(&p.hunks[1]), "@@ -9 +9,2 @@\n z\n+y\n");
}

#[test]
fn unified_rejects_are_read_back() {
    let p = &read(INPUT)[0];
    let text = reject_text(p, &Options::default(), &all_hunks(p));
    let q = &read(&text)[0];
    assert_eq!(q.hunks.len(), 2);
    assert_eq!(q.old_header, "f\told");
    assert_eq!(q.index_line.as_deref(), Some("Index: f"));
    assert_eq!(q.hunks[0].header_suffix, " main");
    assert_eq!(write_unified_hunk(&q.hunks[0]), write_unified_hunk(&p.hunks[0]));
    assert_eq!(write_unified_hunk(&q.hunks[1]), write_unified_hunk(&p.hunks[1]));
}

#[test]
fn context_rejects() {
    let p = &read(INPUT)[0];
    let mut opts = Options::default();
    assert!(!rejects_as_context(p, &opts));
    opts.reject_format = Some("context".to_string());
    assert!(rejects_as_context(p, &opts));
    assert_eq!(
        reject_text(p, &opts, &all_hunks(p)),
        "Index: f\n*** f\told\n--- f\tnew\n*************** main\n*** 1,2 ****\n  a\n! b\n--- 1,2 ----\n  a\n! B\n***************\n*** 9 ****\n  z\n--- 9,10 ----\n  z\n+ y\n"
    );
    let removal = Hunk {
        old_start: 4,
        old_count: 1,
        new_start: 3,
        new_count: 0,
        header_suffix: String::new(),
        lines: vec![HunkLine::Remove("x".to_string())],
    };
    assert_eq!(write_context_hunk(&removal), "*** 4 ****\n- x\n--- 3,3 ----\n");
}

#[test]
fn context_rejects_are_read_back() {
    let p = &read(INPUT)[0];
    let mut opts = Options::default();
    opts.reject_format = Some("context".to_string());
    let text = reject_text(p, &opts, &all_hunks(p));
    let q = &read(&text)[0];
    assert_eq!(q.format, DiffFormat::Context);
    assert_eq!(q.hunks.len(), 2);
    for (a, b) in p.hunks.iter().zip(q.hunks.iter()) {
        assert_eq!(write_unified_hunk(a), write_unified_hunk(b));
        assert_eq!(write_context_hunk(a), write_context_hunk(b));
    }
}

#[test]
fn context_ranges_reach_the_last_number() {
    let mut p = named("f", "f");
    p.hunks.push(Hunk {
        old_start: usize::MAX,
        old_count: 1,
        new_start: usize::MAX - 1,
        new_count: 2,
        header_suffix: String::new(),
        lines: vec![HunkLine::Context("x".to_string()), HunkLine::Add("y".to_string())],
    });
    let mut opts = Options::default();
    opts.reject_format = Some("context".to_string());
    let q = &read(&reject_text(&p, &opts, &all_hunks(&p)))[0];
    assert_eq!(q.hunks.len(), 1);
    assert_eq!((q.hunks[0].old_start, q.hunks[0].old_count), (usize::MAX, 1));
    assert_eq!((q.hunks[0].new_start, q.hunks[0].new_count), (usize::MAX - 1, 2));
    assert_eq!(write_context_hunk(&q.hunks[0]), write_context_hunk(&p.hunks[0]));
}

#[test]
fn nameless_rejects() {
    let mut p = named("", "");
    p.format = DiffFormat::Context;
    assert_eq!(reject_text(&p, &Options::default(), &all_hunks(&p)), "*** a\n--- b\n");
    p.old_file = "x".to_string();
    let mut opts = Options::default();
    opts.reject_format = Some("unified".to_string());
    assert_eq!(reject_text(&p, &opts, &all_hunks(&p)), "--- x\n+++ b\n");
}

#[test]
fn summaries_of_failures() {
    let mut opts = Options::default();
    assert!(failure_summary(&opts, "f", 0, 3).is_empty());
    assert_eq!(
        failure_summary(&opts, "f", 2, 3),
        vec!["2 out of 3 hunks FAILED -- saving rejects to file f.rej"]
    );
    opts.on.silent = true;
    assert!(failure_summary(&opts, "f", 2, 3).is_empty());
}

#[test]
fn ed_scripts_are_recognised() {
    assert!(looks_like_ed_script("  5a\ntext\n.\n"));
    assert!(looks_like_ed_script("1,3d\n"));
    assert!(looks_like_ed_script("$d\n"));
    assert!(looks_like_ed_script("3,$c\nx\n.\n"));
    assert!(!looks_like_ed_script("$date\n"));
    assert!(!looks_like_ed_script("x,$d\n"));
    assert!(!looks_like_ed_script("5a\n--- f\n"));
    assert!(!looks_like_ed_script("5a\n*** f\n"));
    assert!(!looks_like_ed_script("hello\n"));
}

#[test]
fn ed_scripts_by_file() {
    let mut opts = Options::default();
    assert!(matches!(plan_ed_patches("1d\n", &opts), EdPlan::NoFile));
    opts.positional_file = Some("f".to_string());
    assert!(matches!(plan_ed_patches("1d\n  w  !rm\n", &opts), EdPlan::Shell));
    assert!(matches!(plan_ed_patches("r !ls\n", &opts), EdPlan::Shell));
    assert!(matches!(plan_ed_patches("1r !ls\n", &opts), EdPlan::Shell));
    match plan_ed_patches("1d\n--- g \n+++ g\n2d\r\n", &opts) {
        EdPlan::Run(runs) => {
            assert_eq!(runs.len(), 2);
            assert_eq!((runs[0].file.as_str(), runs[0].script.as_str()), ("f", "1d\nw\nq\n"));
            assert_eq!((runs[1].file.as_str(), runs[1].script.as_str()), ("g", "2d\r\nw\nq\n"));
        }
        _ => panic!("no scripts"),
    }
    opts.positional_file = None;
    match plan_ed_patches("1d\n--- g\n+++ g\n2d\n", &opts) {
        EdPlan::Run(runs) => {
            assert_eq!(runs.len(), 1);
            assert_eq!(runs[0].script, "1d\n2d\nw\nq\n");
        }
        _ => panic!("no scripts"),
    }
}

fn toks(path: &str) -> Vec<Tok> {
    let mut out = Vec::new();
    if path.starts_with('/') {
        out.push(Tok::Root);
    }
    for part in path.split('/') {
        match part {
            "" => {}
            "." => out.push(Tok::CurDir),
            ".." => out.push(Tok::ParentDir),
            name => out.push(Tok::Normal(name.as_bytes().to_vec())),
        }
    }
    out
}

fn text(place: &Place) -> String {
    let names: Vec<String> =
        place.names.iter().map(|n| String::from_utf8(n.clone()).unwrap()).collect();
    format!("{}{}", if place.rooted { "/" } else { "" }, names.join("/"))
}

fn walk(path: &str, links: &[(&str, &str)]) -> (bool, usize) {
    let home = vec![b"w".to_vec()];
    let mut walk = Walk::new(toks(path), home.clone(), home);
    let mut asked: usize = 0;
    loop {
        let (next, question) = walk.next_question();
        walk = match question {
            Question::Done(found) => return (found, asked),
            Question::IsLink => {
                let here = text(next.place());
                let whole = if here.starts_with('/') { here } else { format!("/w/{here}") };
                next.tell_mark(links.iter().any(|l| l.0 == whole))
            }
            Question::ReadLink => {
                let here = text(next.place());
                let target = links.iter().find(|l| l.0 == here).map(|l| toks(l.1));
                if target.is_some() {
                    asked += 1;
                }
                next.tell_link(target)
            }
        };
    }
}

#[test]
fn links_within_the_directory() {
    assert_eq!(walk("a/b/f", &[]), (false, 0));
    assert_eq!(walk("l/f", &[("/w/l", "d")]), (false, 1));
    assert_eq!(walk("l/f", &[("/w/l", "../w/d")]), (false, 1));
    assert_eq!(walk("l", &[("/w/l", "/etc")]), (false, 0));
    assert_eq!(walk("/w/l/f", &[("/w/l", "d")]), (false, 1));
}

#[test]
fn links_out_of_the_directory() {
    assert_eq!(walk("l/f", &[("/w/l", "/etc")]), (true, 1));
    assert_eq!(walk("l/f", &[("/w/l", "..")]), (true, 1));
    assert_eq!(walk("a/./l/f", &[("/w/a/l", "m"), ("/w/a/m", "../../x")]), (true, 2));
    assert_eq!(walk("l/../k/f", &[("/w/l", "d"), ("/w/k", "/")]), (true, 2));
}

#[test]
fn links_in_a_circle_are_left() {
    assert_eq!(walk("l/f", &[("/w/l", "l")]), (false, 40));
}

#[test]
fn the_line_with_a_nul() {
    assert_eq!(nul_line("a\nb\n"), None);
    assert_eq!(nul_line("\0"), Some(1));
    assert_eq!(nul_line("a\nb\0\n\0"), Some(2));
}

#[test]
fn plans_for_inputs() {
    let mut opts = Options::default();
    let none: Vec<FilePatch> = Vec::new();
    assert_eq!(plan_run(" \n", &opts, &none, false), RunPlan::Nothing);
    assert_eq!(plan_run("5d\n", &opts, &none, false), RunPlan::Garbage);
    assert_eq!(plan_run("", &opts, &none, true), RunPlan::BinaryOnly);
    assert_eq!(plan_run(INPUT, &opts, &read(INPUT), false), RunPlan::Patches);
    assert_eq!(plan_run(INPUT, &opts, &read(INPUT), true), RunPlan::Patches);
    assert_eq!(plan_run("x", &opts, &vec![named("a", "b")], true), RunPlan::BinaryOnly);
    opts.output = Some("o".to_string());
    assert_eq!(plan_run("", &opts, &none, false), RunPlan::CopyInput);
    opts.positional_file = Some("f".to_string());
    assert_eq!(plan_run("5d\n", &opts, &none, false), RunPlan::EdScript);
}

fn inside() -> MoveFacts {
    let at = NamePlace { place: Whereabouts::Missing, escapes: false };
    MoveFacts {
        cwd: Some("/work".to_string()),
        rename_from: at,
        rename_to: at,
        copy_from: at,
        copy_to: at,
    }
}

#[test]
fn moves_out_of_the_directory_are_refused() {
    let mut opts = Options::default();
    let mut p = named("x", "y");
    p.git.rename_from = Some("x".to_string());
    p.git.rename_to = Some("../x".to_string());
    assert!(matches!(plan_move(&p, &opts, &inside()), Move::Refuse));
    let said = refused_move(&p, &opts, &inside());
    assert_eq!(said[0], "Ignoring potentially dangerous file name ../x");
    assert_eq!(said[1], "can't find file to patch at input line 3");
    opts.on.reverse = true;
    assert!(matches!(plan_move(&p, &opts, &inside()), Move::Refuse));
    p.git.rename_to = Some("/work/y".to_string());
    assert!(matches!(plan_move(&p, &opts, &inside()), Move::Rename { .. }));
    let out = NamePlace { place: Whereabouts::Outside, escapes: false };
    assert!(matches!(
        plan_move(&p, &opts, &MoveFacts { rename_to: out, ..inside() }),
        Move::Refuse
    ));
    let linked = NamePlace { place: Whereabouts::Below, escapes: true };
    assert!(matches!(
        plan_move(&p, &opts, &MoveFacts { rename_from: linked, ..inside() }),
        Move::Refuse
    ));
    p.git.copy_to = Some("a/../../y".to_string());
    assert!(matches!(plan_move(&p, &opts, &inside()), Move::Refuse));
    opts.on.silent = true;
    assert!(refused_move(&p, &opts, &inside()).is_empty());
}

#[test]
fn a_dry_run_changes_nothing() {
    let mut opts = Options::default();
    let mut p = named("f.orig", "f");
    p.git.rename_from = Some("x".to_string());
    p.git.rename_to = Some("y".to_string());
    p.git.new_mode = Some(0o100755);
    assert_eq!(stand_in(&p, &opts), None);
    assert!(saves_rejects(&opts, 1));
    opts.on.dry_run = true;
    opts.on.backup = true;
    opts.on.set_utc = true;
    assert!(matches!(plan_move(&p, &opts, &inside()), Move::Stay));
    assert_eq!(stand_in(&p, &opts).as_deref(), Some("./x"));
    assert_eq!(header_step(&p.git, &opts), HeaderStep::Nothing);
    assert_eq!(mode_after(&p.git, &opts), None);
    p.git.new_file_mode = Some(0o120000);
    assert_eq!(header_step(&p.git, &opts), HeaderStep::Nothing);
    assert!(!patches_link(&p.git, &opts));
    p.git.deleted_file_mode = Some(0o100644);
    assert_eq!(header_step(&p.git, &opts), HeaderStep::Nothing);
    p.git.binary_summary = true;
    assert_eq!(header_step(&p.git, &opts), HeaderStep::Keep { backup: false });
    assert_eq!(implicit_backup(&p, &opts), None);
    assert!(!wants_backup(&opts, true, 0));
    assert!(!saves_rejects(&opts, 1));
    p.new_header = "b\t1970-01-01 00:02:00 +0000".to_string();
    assert_eq!(time_after(&p, &opts, 0), None);
    opts.output = Some("o".to_string());
    opts.positional_file = Some("f".to_string());
    assert_eq!(plan_run("", &opts, &Vec::new(), false), RunPlan::Nothing);
    assert!(matches!(plan_ed_patches("1d\n", &opts), EdPlan::Run(runs) if runs.is_empty()));
}

#[test]
fn scripts_for_files_elsewhere_are_not_run() {
    let mut opts = Options::default();
    let run = |file: &str| EdRun { file: file.to_string(), script: String::new() };
    let missing = Whereabouts::Missing;
    assert!(allows_run(&run("f"), &opts, missing, Some("/work")));
    assert!(!allows_run(&run("../f"), &opts, missing, Some("/work")));
    assert!(!allows_run(&run("/etc/f"), &opts, Whereabouts::Outside, Some("/work")));
    assert!(allows_run(&run("/work/f"), &opts, Whereabouts::Below, Some("/work")));
    opts.positional_file = Some("../f".to_string());
    assert!(allows_run(&run("../f"), &opts, missing, Some("/work")));
    assert!(!allows_run(&run("../g"), &opts, missing, Some("/work")));
}

#[test]
fn binary_content_changes_nothing() {
    let input = "diff --git a/x b/y\nnew file mode 120000\nrename from x\nrename to y\nGIT binary patch\nliteral 3\nabc\n";
    let p = read(input).remove(0);
    let opts = Options::default();
    assert_eq!(p.git.new_file_mode, Some(0o120000));
    assert!(p.git.binary_payload);
    assert_eq!(header_step(&p.git, &opts), HeaderStep::Nothing);
    assert!(matches!(plan_move(&p, &opts, &inside()), Move::Stay));
    assert!(!patches_link(&p.git, &opts));
}

#[test]
fn lines_that_run_a_shell() {
    for line in [
        "!ls", "r !ls", "r!ls", "1r !ls", "1,$w !ls", "e !ls", "E !ls", "W !x", "wq !x", "wq!x",
        "  .,+3 !sort", "/foo/r !ls", "?a/b?!x", "'a!x", "g/x/!ls", "v/a\\/b/r !ls", "g/[/]/e !x",
        "%!sort", "g!x!!y", "/a/,/b/!sort", "/[[:space:]/]/!x", "/[]/]/r !x", "/[^]/]/!x",
        "/a/I!x", "g/a/I/b/w !x", "/a\\\\/!x", "g/x/1,2!y",
    ] {
        assert!(shell_line(line), "{line}");
    }
    for line in [
        "", "1d", "s/a/b!/", "1,2c", "hello!", "w file!", "r a !b", "good!", "a!", "k!", "g/x/p",
        "/a/s/b/!/", "/a/s/b/r !x/", "g/a/s/b/!/", "1,$s,a,!,", "/a\\/!x", "/[/!x", "/a!x", "'",
        "g x !y", "/[[:a/]/!x",
    ] {
        assert!(!shell_line(line), "{line}");
    }
}

#[test]
fn text_of_a_script_is_no_command() {
    for script in [
        "1a\n! hello\n.\n",
        "2i\n  !done\n![logo](x.png)\n.\n1d\n",
        "1,3c\n- !Ref x\n1r !ls\n.\n",
        "/x/a\n!\n.\n$ap\n!\n.\n",
        "s/a/b\\\n!c/\n1d\n",
        "s/a/b\\\n!c\\\n!d\n1d\n",
        "g/x/a\\\n!y\\\n!z\n1d\n",
        "g/x/p\\\na\\\n!y\\\n.\\\np\n",
        "a\n!x\n",
        "1a\n--- q\n! x\n.\n",
    ] {
        assert!(!shell_script(script), "{script}");
    }
    for script in [
        "1a\nx\n.\n!ls\n",
        "1a!\n!ls\n",
        "1a\r\n!ls\r\n.\r\n",
        "1a\nx\n.\r\n.\n1,2!ls\n",
        "s/a/b\\\nc/\n!ls\n",
        "s/a/b\\\\\n!ls\n",
        "s/a\\\n!ls\n",
        "s/a/b/\\\n!ls\n",
        "sg\\\n!ls\n",
        "g/x/p\\\n!ls\n",
        "g/x/a\\\ny\n!ls\n",
        "g/x/a\\\ny\\\n.\\\n!ls\n",
        "g/x/a\n!ls\n",
    ] {
        assert!(shell_script(script), "{script}");
    }
    assert!(matches!(reading_after(Reading::Command, "3,5c"), Reading::Text));
    assert!(matches!(reading_after(Reading::Text, "!x"), Reading::Text));
    assert!(matches!(reading_after(Reading::Text, "."), Reading::Command));
    assert!(matches!(reading_after(Reading::Command, "s,a,b\\"), Reading::Replacement(',')));
    assert!(matches!(reading_after(Reading::Replacement(','), "b,p"), Reading::Command));
    assert!(matches!(reading_after(Reading::Command, "g/x/d\\"), Reading::Listed));
    assert!(matches!(reading_after(Reading::Listed, "i\\"), Reading::ListedText));
    assert!(matches!(reading_after(Reading::ListedText, ".\\"), Reading::Listed));
    assert!(matches!(reading_after(Reading::ListedText, "x"), Reading::Command));
}

#[test]
fn scripts_that_run_a_shell_are_refused() {
    let mut opts = Options::default();
    assert!(matches!(plan_ed_patches("r !ls\n", &opts), EdPlan::Shell));
    assert!(matches!(plan_ed_patches("1r !ls\n", &opts), EdPlan::NoFile));
    opts.positional_file = Some("f".to_string());
    match plan_ed_patches("1a\n! hello\n.\n", &opts) {
        EdPlan::Run(runs) => {
            assert_eq!(runs.len(), 1);
            assert_eq!(runs[0].script, "1a\n! hello\n.\nw\nq\n");
        }
        _ => panic!("no script"),
    }
    assert!(matches!(plan_ed_patches("/a/s/b/!/\n", &opts), EdPlan::Run(_)));
    assert!(matches!(plan_ed_patches("1a\n r  !x\n.\n", &opts), EdPlan::Shell));
    let apart = "1a\nx\n--- g\n+++ g\n!ls\n";
    assert!(matches!(plan_ed_patches(apart, &opts), EdPlan::Shell));
    opts.positional_file = None;
    assert!(matches!(plan_ed_patches(apart, &opts), EdPlan::Run(_)));
    opts.on.dry_run = true;
    assert!(matches!(plan_ed_patches("--- g\n+++ g\n!ls\n", &opts), EdPlan::Shell));
}

#[test]
fn statuses_of_patches_that_stop() {
    assert_eq!(plan_status(RunPlan::BinaryOnly), Some(EXIT_HUNKS_FAILED));
    assert_eq!(plan_status(RunPlan::Nothing), Some(EXIT_SUCCESS));
    assert_eq!(plan_status(RunPlan::Garbage), Some(EXIT_TROUBLE));
    assert_eq!(plan_status(RunPlan::Patches), None);
    let mut opts = Options::default();
    assert_eq!(ed_status(&EdPlan::Shell, &opts), Some(EXIT_TROUBLE));
    assert_eq!(ed_status(&EdPlan::NoFile, &opts), Some(EXIT_TROUBLE));
    assert_eq!(ed_status(&EdPlan::Run(Vec::new()), &opts), None);
    opts.on.force = true;
    assert_eq!(ed_status(&EdPlan::NoFile, &opts), Some(EXIT_HUNKS_FAILED));
    let copy = Move::Copy { source: "a".to_string(), target: "b".to_string() };
    assert_eq!(move_status(&Move::Refuse, true), Some(EXIT_HUNKS_FAILED));
    assert_eq!(move_status(&Move::Stay, false), None);
    assert_eq!(move_status(&copy, true), None);
    assert_eq!(move_status(&copy, false), Some(EXIT_TROUBLE));
    assert_eq!(name_status(NameVerdict::Skip), Some(EXIT_HUNKS_FAILED));
    assert_eq!(name_status(NameVerdict::Garbage), Some(EXIT_TROUBLE));
    assert_eq!(name_status(NameVerdict::Go), None);
    assert_eq!(target_status(&None), Some(EXIT_HUNKS_FAILED));
    assert_eq!(target_status(&Some("f".to_string())), None);
    let go = Verdict::Go { reverse: false, strip_cr: false, refuse_hunks: false };
    assert_eq!(verdict_status(&Verdict::Refuse { save: false }), Some(EXIT_HUNKS_FAILED));
    assert_eq!(verdict_status(&Verdict::Abort { message: String::new() }), Some(EXIT_TROUBLE));
    assert_eq!(verdict_status(&go), None);
    assert_eq!(link_status(&LinkStep::NoTarget, true), EXIT_HUNKS_FAILED);
    assert_eq!(link_status(&LinkStep::Remove, true), EXIT_SUCCESS);
    assert_eq!(link_status(&LinkStep::Create("x".to_string()), false), EXIT_TROUBLE);
    assert_eq!(header_status(HeaderStep::Keep { backup: true }, true), EXIT_HUNKS_FAILED);
    assert_eq!(header_status(HeaderStep::Delete, true), EXIT_SUCCESS);
    assert_eq!(header_status(HeaderStep::Create { mode: 0o644 }, false), EXIT_TROUBLE);
    assert_eq!(header_status(HeaderStep::Nothing, false), EXIT_SUCCESS);
    assert_eq!(source_status(Source::Missing, true), Some(EXIT_TROUBLE));
    assert_eq!(source_status(Source::Disk, false), Some(EXIT_TROUBLE));
    assert_eq!(source_status(Source::Disk, true), None);
    assert_eq!(source_status(Source::Cached, false), None);
}

#[test]
fn statuses_of_patched_files() {
    let p = &read("--- f\n+++ f\n@@ -1 +1 @@\n-a\n+b\n@@ -3 +3 @@\n-y\n+z\n")[0];
    let mut opts = Options::default();
    let status = |content: &str, opts: &Options| {
        let done = patch_content(p, opts, "f", content, false, false, false, false).unwrap();
        (done.outcome.is_some(), patched_status(&done))
    };
    assert_eq!(status("a\nc\ny\n", &opts), (true, EXIT_SUCCESS));
    assert_eq!(status("a\nc\n", &opts), (true, EXIT_HUNKS_FAILED));
    assert_eq!(status("c\n", &opts), (false, EXIT_HUNKS_FAILED));
    opts.on.dry_run = true;
    assert_eq!(status("a\nc\ny\n", &opts), (false, EXIT_SUCCESS));
    assert_eq!(status("a\nc\n", &opts), (false, EXIT_HUNKS_FAILED));
}

#[test]
fn moves() {
    let mut opts = Options::default();
    let mut p = named("a", "b");
    assert!(matches!(plan_move(&p, &opts, &inside()), Move::Stay));
    p.git.copy_from = Some("c".to_string());
    p.git.copy_to = Some("d".to_string());
    assert!(matches!(
        plan_move(&p, &opts, &inside()),
        Move::Copy { source, target } if source == "./c" && target == "./d"
    ));
    p.git.rename_from = Some("x".to_string());
    p.git.rename_to = Some("y".to_string());
    assert!(matches!(
        plan_move(&p, &opts, &inside()),
        Move::Rename { source, target } if source == "./x" && target == "./y"
    ));
    opts.on.reverse = true;
    assert!(matches!(
        plan_move(&p, &opts, &inside()),
        Move::Rename { source, target } if source == "./y" && target == "./x"
    ));
    let patches = vec![p];
    assert_eq!(paths_to_remember(&patches, &opts), vec!["./x", "./y", "./c", "./d"]);
    let set = rename_destinations(&patches, &opts);
    assert!(set.contains("./x"));
    assert!(!set.contains("./y"));
    opts.on.reverse = false;
    let set = rename_destinations(&patches, &opts);
    assert!(set.contains("./y"));
    assert!(!set.contains("./x"));
}

#[test]
fn ways_to_rename() {
    assert_eq!(rename_step(false, true, true, false, false), RenameStep::Already);
    assert_eq!(
        rename_step(true, true, true, false, false),
        RenameStep::WriteOriginal { unlink: true }
    );
    assert_eq!(
        rename_step(true, false, true, false, true),
        RenameStep::WriteOriginal { unlink: false }
    );
    assert_eq!(rename_step(true, false, false, false, false), RenameStep::Rename);
}

#[test]
fn links_and_headers() {
    let mut opts = Options::default();
    let mut p = named("a", "b");
    assert!(matches!(link_step(&p), LinkStep::NoTarget));
    p.hunks = read("--- a\n+++ b\n@@ -1 +1,2 @@\n-old\n+tar\n+get\n").remove(0).hunks;
    assert!(matches!(link_step(&p), LinkStep::Create(s) if s == "target"));
    p.git.deleted_file_mode = Some(0o120000);
    assert!(matches!(link_step(&p), LinkStep::Remove));
    assert_eq!(header_step(&p.git, &opts), HeaderStep::Delete);
    p.git.binary_summary = true;
    assert_eq!(header_step(&p.git, &opts), HeaderStep::Keep { backup: false });
    p.git.deleted_file_mode = None;
    assert_eq!(header_step(&p.git, &opts), HeaderStep::Nothing);
    p.git.new_mode = Some(0o100755);
    assert_eq!(header_step(&p.git, &opts), HeaderStep::SetMode { mode: 0o100755 });
    p.git.new_file_mode = Some(0o100644);
    assert_eq!(header_step(&p.git, &opts), HeaderStep::Create { mode: 0o100644 });
    p.git.index_mode = Some(0o120000);
    assert_eq!(header_step(&p.git, &opts), HeaderStep::Create { mode: 0o100644 });
    assert!(patches_link(&p.git, &opts));
    assert_eq!(mode_after(&p.git, &opts), Some(0o100755));
    opts.on.reverse = true;
    assert_eq!(mode_after(&p.git, &opts), Some(0o100644));
}

#[test]
fn times_of_files() {
    let mut opts = Options::default();
    let mut p = named("a", "b");
    p.old_header = "a\t1970-01-01 00:01:00".to_string();
    p.new_header = "b\t1970-01-01 00:02:00 +0000".to_string();
    assert_eq!(time_after(&p, &opts, 0), None);
    opts.on.set_time = true;
    assert_eq!(time_after(&p, &opts, 0), Some(120));
    assert_eq!(time_after(&p, &opts, 1), None);
    opts.on.reverse = true;
    assert_eq!(time_after(&p, &opts, 0), Some(60));
    p.old_header = "a".to_string();
    assert_eq!(time_after(&p, &opts, 0), None);
}

#[test]
fn where_content_comes_from() {
    let mut opts = Options::default();
    let mut p = named("a", "b");
    p.hunks = read("--- a\n+++ b\n@@ -1 +1 @@\n-x\n+y\n").remove(0).hunks;
    assert_eq!(content_source(&p, &opts, true, true), Source::Cached);
    assert_eq!(content_source(&p, &opts, false, true), Source::Disk);
    assert_eq!(content_source(&p, &opts, false, false), Source::Missing);
    p.old_file = "/dev/null".to_string();
    assert_eq!(content_source(&p, &opts, true, true), Source::Disk);
    assert_eq!(content_source(&p, &opts, true, false), Source::Empty);
    p.old_file = "a".to_string();
    p.new_file = "/dev/null".to_string();
    assert_eq!(content_source(&p, &opts, false, false), Source::Missing);
    opts.on.force = true;
    assert_eq!(content_source(&p, &opts, false, false), Source::Empty);
    p.hunks[0].old_count = 0;
    assert_eq!(content_source(&p, &Options::default(), false, false), Source::Empty);
}

#[test]
fn when_files_are_backed_up() {
    let mut opts = Options::default();
    assert_eq!(
        implicit_backup(&named("d/f.orig", "d/f"), &opts).as_deref(),
        Some("./f.orig")
    );
    assert_eq!(implicit_backup(&named("f", "f"), &opts), None);
    assert_eq!(implicit_backup(&named("f.orig", "/dev/null"), &opts), None);
    assert!(!wants_backup(&opts, true, 0));
    opts.on.backup = true;
    assert!(wants_backup(&opts, true, 2));
    assert!(!wants_backup(&opts, false, 0));
    opts.on.no_backup_if_mismatch = true;
    assert!(!wants_backup(&opts, true, 2));
}

#[test]
fn exit_statuses() {
    assert_eq!(exit_status(0), EXIT_SUCCESS);
    assert_eq!(exit_status(3), EXIT_HUNKS_FAILED);
    assert_eq!(worse(EXIT_HUNKS_FAILED, EXIT_TROUBLE), EXIT_TROUBLE);
    assert_eq!(worse(EXIT_TROUBLE, EXIT_SUCCESS), EXIT_TROUBLE);
}

#[test]
fn later_results_follow_earlier_ones() {
    let mut opts = Options::default();
    let mut written = PathSet::new();
    assert!(!appends_output(&mut written, &opts, "o"));
    assert!(!appends_output(&mut written, &opts, "o"));
    opts.output = Some("o".to_string());
    assert!(!appends_output(&mut written, &opts, "o"));
    assert!(appends_output(&mut written, &opts, "o"));
    let mut saved = PathSet::new();
    assert!(!appends_rejects(&mut saved, "f.rej"));
    assert!(appends_rejects(&mut saved, "f.rej"));
    assert!(!appends_rejects(&mut saved, "g.rej"));
}

#[test]
fn what_a_run_remembers() {
    let mut set = PathSet::new();
    assert!(set.insert("a"));
    assert!(!set.insert("a"));
    assert!(set.contains("a"));
    assert!(!set.contains("b"));
    let mut cache = Cache::new();
    cache.insert("k", "1");
    cache.insert_if_absent("k", "2");
    assert_eq!(cache.get("k").map(|s| s.as_str()), Some("1"));
    cache.insert("k", "3");
    cache.insert_if_absent("m", "4");
    assert_eq!(cache.get("k").map(|s| s.as_str()), Some("3"));
    assert_eq!(cache.get("m").map(|s| s.as_str()), Some("4"));
    assert_eq!(cache.get("n"), None);
}
