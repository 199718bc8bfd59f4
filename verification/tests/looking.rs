use rust_patch::model::{DiffFormat, FilePatch, GitMeta, Hunk, HunkLine};
use rust_patch::options::{Options, ReadOnlyMode};
use rust_patch::paths::Whereabouts;
use rust_patch::preflight::{
    announce, check_names, choose_target, effective_from, effective_to, is_symlink_patch,
    patch_has_cr, preflight, NameFacts, NameVerdict, TargetFacts, Verdict,
};

fn hunk(old_count: usize, new_count: usize, lines: Vec<HunkLine>) -> Hunk {
    Hunk { old_start: 1, old_count, new_start: 1, new_count, header_suffix: String::new(), lines }
}

fn named(old_file: &str, new_file: &str) -> FilePatch {
    FilePatch {
        old_file: old_file.to_string(),
        new_file: new_file.to_string(),
        old_header: old_file.to_string(),
        new_header: new_file.to_string(),
        index_line: None,
        hunks: vec![hunk(1, 1, Vec::new())],
        format: DiffFormat::Unified,
        git: GitMeta::default(),
    }
}

fn here() -> NameFacts {
    NameFacts {
        cwd: Some("/work".to_string()),
        old_place: Whereabouts::Missing,
        new_place: Whereabouts::Missing,
        old_exists: false,
        new_exists: false,
    }
}

fn plain() -> TargetFacts {
    TargetFacts {
        is_link: false,
        readonly: false,
        exists: true,
        present: true,
        loops: false,
        escapes: false,
        empty: false,
        has_crlf: false,
    }
}

fn look(patch: &FilePatch, opts: &Options, facts: TargetFacts) -> (Vec<String>, Verdict) {
    let mut told = false;
    preflight(patch, opts, "f", facts, false, &mut told)
}

#[test]
fn names_that_will_do() {
    let r = check_names(&named("a/f", "b/f"), &Options::default(), &here());
    assert_eq!(r, (Vec::new(), NameVerdict::Go));
}

#[test]
fn no_name_at_all() {
    let mut opts = Options::default();
    let p = named("", "");
    assert_eq!(check_names(&p, &opts, &here()), (Vec::new(), NameVerdict::Garbage));
    opts.on.force = true;
    let r = check_names(&p, &opts, &here());
    assert_eq!(r.1, NameVerdict::Skip);
    assert_eq!(
        r.0,
        vec![
            "can't find file to patch at input line 1",
            "No file to patch.  Skipping patch.",
            "1 out of 1 hunk ignored",
        ]
    );
    opts.on.silent = true;
    assert_eq!(check_names(&p, &opts, &here()), (Vec::new(), NameVerdict::Skip));
}

#[test]
fn names_stripped_away() {
    let mut opts = Options::default();
    opts.strip = Some(1);
    let mut p = named("f", "f");
    p.format = DiffFormat::Context;
    let r = check_names(&p, &opts, &here());
    assert_eq!(r.1, NameVerdict::Skip);
    assert_eq!(
        r.0,
        vec![
            "can't find file to patch at input line 3",
            "Perhaps you used the wrong -p or --strip option?",
            "The text leading up to this was:",
            "--------------------------",
            "|*** f",
            "|--- f",
            "--------------------------",
            "No file to patch.  Skipping patch.",
            "1 out of 1 hunk ignored",
        ]
    );
}

#[test]
fn dangerous_names_are_passed_over() {
    let mut opts = Options::default();
    opts.strip = Some(0);
    let r = check_names(&named("../f", "../f"), &opts, &here());
    assert_eq!(r.1, NameVerdict::Skip);
    assert_eq!(r.0.len(), 10);
    assert_eq!(r.0[0], "Ignoring potentially dangerous file name ../f");
    assert_eq!(r.0[5], "|--- ../f");
    let r = check_names(&named("../f", "/etc/g"), &opts, &here());
    assert_eq!(r.0[1], "Ignoring potentially dangerous file name /etc/g");
    let r = check_names(&named("../f", "g"), &opts, &here());
    assert_eq!(r.1, NameVerdict::Skip);
    assert_eq!(r.0.len(), 9);
    let facts = NameFacts { new_exists: true, ..here() };
    assert_eq!(check_names(&named("../f", "g"), &opts, &facts).1, NameVerdict::Go);
    let facts = NameFacts { old_place: Whereabouts::Below, ..here() };
    assert_eq!(check_names(&named("/x/f", "/x/f"), &opts, &facts).1, NameVerdict::Skip);
    assert_eq!(check_names(&named("/work/f", "/work/f"), &opts, &here()).1, NameVerdict::Go);
    let facts = NameFacts {
        old_place: Whereabouts::Outside,
        new_place: Whereabouts::Outside,
        old_exists: true,
        new_exists: true,
        ..here()
    };
    let r = check_names(&named("/work/../f", "/work/../f"), &opts, &facts);
    assert_eq!(r.1, NameVerdict::Skip);
}

#[test]
fn a_dangerous_name_is_never_the_target() {
    let mut opts = Options::default();
    opts.strip = Some(0);
    let both = NameFacts { old_exists: true, new_exists: true, ..here() };
    assert_eq!(choose_target(&named("f", "g"), &opts, &both).as_deref(), Some("./f"));
    let p = named("../f", "g");
    assert_eq!(check_names(&p, &opts, &both).1, NameVerdict::Go);
    assert_eq!(choose_target(&p, &opts, &both).as_deref(), Some("./g"));
    let mut p = named("f", "../g");
    p.git.rename_from = Some("f".to_string());
    p.git.rename_to = Some("g".to_string());
    assert_eq!(choose_target(&p, &opts, &both), None);
    assert_eq!(check_names(&p, &opts, &both).1, NameVerdict::Skip);
    opts.positional_file = Some("../h".to_string());
    assert_eq!(choose_target(&p, &opts, &both).as_deref(), Some("../h"));
}

#[test]
fn names_in_messages_are_quoted() {
    let facts = TargetFacts { readonly: true, ..plain() };
    let mut told = false;
    let mut opts = Options::default();
    opts.read_only = ReadOnlyMode::Fail;
    let (said, _) = preflight(&named("a b", "a b"), &opts, "a b", facts, false, &mut told);
    assert_eq!(said[0], "File 'a b' is read-only; refusing to patch");
    assert!(said[1].ends_with("saving rejects to file 'a b.rej'"));
    let mut p = named("a", "b");
    p.git.rename_from = Some("c d".to_string());
    p.git.rename_to = Some("b".to_string());
    assert_eq!(
        announce(&p, &Options::default(), "b", false),
        "patching file b (renamed from 'c d')"
    );
}

#[test]
fn an_ordinary_file() {
    let (said, verdict) = look(&named("f", "f"), &Options::default(), plain());
    assert_eq!(said, vec!["patching file f"]);
    assert!(matches!(
        verdict,
        Verdict::Go { reverse: false, strip_cr: false, refuse_hunks: false }
    ));
}

#[test]
fn announcements() {
    let mut opts = Options::default();
    let mut p = named("f", "f");
    opts.on.dry_run = true;
    assert_eq!(announce(&p, &opts, "a b", false), "checking file 'a b'");
    opts.on.dry_run = false;
    opts.output = Some("out".to_string());
    assert_eq!(announce(&p, &opts, "f", false), "patching file out (read from f)");
    p.git.rename_from = Some("x".to_string());
    p.git.rename_to = Some("y".to_string());
    assert_eq!(announce(&p, &opts, "f", false), "patching file out (renamed from x)");
    opts.output = None;
    opts.on.reverse = true;
    assert_eq!(announce(&p, &opts, "f", true), "patching file f (already renamed from y)");
    p.git.rename_from = None;
    p.git.rename_to = None;
    p.git.copy_from = Some("c".to_string());
    assert_eq!(announce(&p, &opts, "f", false), "patching file f (copied from c)");
    p.git.copy_from = None;
    p.git.new_mode = Some(0o120000);
    assert_eq!(announce(&p, &opts, "f", false), "patching symbolic link f");
}

#[test]
fn the_two_ends_of_a_move() {
    let from = Some("x".to_string());
    let to = Some("y".to_string());
    assert_eq!(effective_from(&from, &to, false).as_deref(), Some("x"));
    assert_eq!(effective_to(&from, &to, false).as_deref(), Some("y"));
    assert_eq!(effective_from(&from, &to, true).as_deref(), Some("y"));
    assert_eq!(effective_to(&from, &to, true).as_deref(), Some("x"));
    assert_eq!(effective_from(&from, &None, true).as_deref(), Some("x"));
}

#[test]
fn links_are_refused() {
    let mut opts = Options::default();
    let p = named("f", "f");
    let facts = TargetFacts { is_link: true, ..plain() };
    let (said, verdict) = look(&p, &opts, facts);
    assert_eq!(
        said,
        vec![
            "File f is not a regular file -- refusing to patch",
            "1 out of 1 hunk ignored -- saving rejects to file f.rej",
        ]
    );
    assert!(matches!(verdict, Verdict::Refuse { save: true }));
    opts.on.follow_symlinks = true;
    assert!(matches!(look(&p, &opts, facts).1, Verdict::Go { .. }));
    let mut p = named("f", "f");
    p.git.index_mode = Some(0o120000);
    assert!(is_symlink_patch(&p.git));
    assert!(matches!(look(&p, &Options::default(), facts).1, Verdict::Go { .. }));
}

#[test]
fn files_that_are_not_writable() {
    let mut opts = Options::default();
    let p = named("f", "f");
    let facts = TargetFacts { readonly: true, ..plain() };
    assert_eq!(
        look(&p, &opts, facts).0,
        vec!["File f is read-only; trying to patch anyway", "patching file f"]
    );
    opts.read_only = ReadOnlyMode::Ignore;
    assert_eq!(look(&p, &opts, facts).0, vec!["patching file f"]);
    opts.read_only = ReadOnlyMode::Fail;
    opts.reject_file = Some("r".to_string());
    opts.on.dry_run = true;
    let (said, verdict) = look(&p, &opts, facts);
    assert_eq!(
        said,
        vec![
            "File f is read-only; refusing to patch",
            "1 out of 1 hunk ignored -- saving rejects to file r",
        ]
    );
    assert!(matches!(verdict, Verdict::Refuse { save: false }));
}

#[test]
fn a_file_that_is_there_already() {
    let mut opts = Options::default();
    let p = named("/dev/null", "f");
    let (said, verdict) = look(&p, &opts, plain());
    assert_eq!(
        said,
        vec![
            "The next patch would create the file f,",
            "which already exists!  Applying it anyway.",
            "patching file f",
        ]
    );
    assert!(matches!(verdict, Verdict::Go { refuse_hunks: true, .. }));
    opts.on.reverse = true;
    let (said, verdict) = look(&p, &opts, plain());
    assert_eq!(said, vec!["patching file f"]);
    assert!(matches!(verdict, Verdict::Go { refuse_hunks: false, reverse: true, .. }));
}

#[test]
fn a_file_that_is_missing() {
    let mut opts = Options::default();
    let p = named("f", "/dev/null");
    let facts = TargetFacts { exists: false, present: false, ..plain() };
    let (said, verdict) = look(&p, &opts, facts);
    assert_eq!(
        said,
        vec![
            "The next patch would delete the file f,",
            "which does not exist!  Assume -R? [n] ",
            "Apply anyway? [n] ",
            "Skipping patch.",
            "1 out of 1 hunk ignored",
        ]
    );
    assert!(matches!(verdict, Verdict::Refuse { save: false }));
    opts.on.force = true;
    let (said, verdict) = look(&p, &opts, facts);
    assert_eq!(said[1], "which does not exist!  Applying it anyway.");
    assert!(matches!(verdict, Verdict::Go { .. }));
}

#[test]
fn a_file_that_is_empty_already() {
    let mut opts = Options::default();
    let mut p = named("f", "f");
    p.hunks = vec![hunk(3, 0, Vec::new())];
    let facts = TargetFacts { empty: true, ..plain() };
    assert_eq!(look(&p, &opts, facts).0, vec!["patching file f"]);
    opts.on.force = true;
    assert_eq!(
        look(&p, &opts, facts).0[1],
        "which is already empty!  Applying it anyway."
    );
    opts.on.batch = true;
    let (said, verdict) = look(&p, &opts, facts);
    assert_eq!(said[0], "The next patch would empty out the file f,");
    assert_eq!(said[1], "which is already empty!  Assuming -R.");
    assert!(matches!(verdict, Verdict::Go { reverse: true, .. }));
    p.hunks.push(hunk(1, 1, Vec::new()));
    assert!(matches!(look(&p, &opts, facts).1, Verdict::Go { reverse: false, .. }));
}

#[test]
fn ways_that_lead_out() {
    let opts = Options::default();
    let p = named("f", "f");
    for facts in [TargetFacts { loops: true, ..plain() }, TargetFacts { escapes: true, ..plain() }] {
        let (said, verdict) = look(&p, &opts, facts);
        assert_eq!(said, vec!["Invalid file name f -- skipping patch"]);
        assert!(matches!(verdict, Verdict::Refuse { save: false }));
    }
}

#[test]
fn names_with_newlines_end_the_run() {
    let mut opts = Options::default();
    let p = named("f", "f");
    let mut told = false;
    let (said, verdict) = preflight(&p, &opts, "a\nb", plain(), false, &mut told);
    assert_eq!(said, vec!["patching file 'a\nb'"]);
    assert!(matches!(
        verdict,
        Verdict::Abort { message }
            if message == "Can't rename file ab.XXXXXX to 'a\nb' : Invalid byte sequence"
    ));
    opts.output = Some("x\ny".to_string());
    let (said, verdict) = preflight(&p, &opts, "f", plain(), false, &mut told);
    assert!(said.is_empty());
    assert!(matches!(
        verdict,
        Verdict::Abort { message } if message == "Can't create file 'x\ny' : Invalid byte sequence"
    ));
}

#[test]
fn names_with_nul_are_passed_over() {
    let p = named("f", "f");
    let mut told = false;
    let (said, verdict) =
        preflight(&p, &Options::default(), "a\0b", plain(), false, &mut told);
    assert_eq!(said.len(), 9);
    assert_eq!(said[1], "Perhaps you should have used the -p or --strip option?");
    assert!(matches!(verdict, Verdict::Refuse { save: false }));
}

#[test]
fn the_notice_on_carriage_returns_comes_once() {
    let opts = Options::default();
    let mut p = named("f", "f");
    p.hunks = vec![hunk(1, 1, vec![HunkLine::Context("x\r".to_string())])];
    assert!(patch_has_cr(&p));
    let mut told = false;
    let (said, verdict) = preflight(&p, &opts, "f", plain(), false, &mut told);
    assert_eq!(
        said,
        vec![
            "(Stripping trailing CRs from patch; use --binary to disable.)",
            "patching file f",
        ]
    );
    assert!(matches!(verdict, Verdict::Go { strip_cr: true, .. }));
    assert!(told);
    let (said, verdict) = preflight(&p, &opts, "f", plain(), false, &mut told);
    assert_eq!(said, vec!["patching file f"]);
    assert!(matches!(verdict, Verdict::Go { strip_cr: true, .. }));
    let mut told = false;
    let facts = TargetFacts { has_crlf: true, ..plain() };
    let (said, _) = preflight(&p, &opts, "f", facts, false, &mut told);
    assert_eq!(said, vec!["patching file f"]);
    assert!(!told);
}
