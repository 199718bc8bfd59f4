use rust_patch::backup::{
    backup_directory, choose_backup, compute_backup_path, next_numbered, numbered_backup,
    parents_to_remove, suffix_if_no_prefix_only, BackupEnv, BackupPlace, NumberStep,
};
use rust_patch::mode::{
    apply_git_mode, is_path_readonly, make_writable, mode_is_link, nlinks_gt_one, restore_mode,
    saved_mode_of,
};
use rust_patch::model::{DiffFormat, FilePatch, GitMeta};
use rust_patch::options::Options;
use rust_patch::paths::{
    candidates, display_path, filename_is_invalid, is_dangerous_path, join_path,
    quote_for_display, resolve_target_file, strip_path, strip_path_opt, Whereabouts,
};
use rust_patch::text::{join, split};

fn named(old_file: &str, new_file: &str) -> FilePatch {
    FilePatch {
        old_file: old_file.to_string(),
        new_file: new_file.to_string(),
        old_header: old_file.to_string(),
        new_header: new_file.to_string(),
        index_line: None,
        hunks: Vec::new(),
        format: DiffFormat::Unified,
        git: GitMeta::default(),
    }
}

fn no_env() -> BackupEnv {
    BackupEnv { suffix: None, patch_version_control: None, version_control: None }
}

fn at(place: BackupPlace) -> String {
    match place {
        BackupPlace::At(s) => s,
        BackupPlace::Numbered(s) => format!("numbered {s}"),
    }
}

#[test]
fn stripping() {
    assert_eq!(strip_path("a/b/c", 1), "b/c");
    assert_eq!(strip_path("a/b/c", 2), "c");
    assert_eq!(strip_path("a/b/c", 3), "");
    assert_eq!(strip_path("f", 1), "");
    assert_eq!(strip_path("/abs/f", 1), "abs/f");
    assert_eq!(strip_path_opt("a/b/c", None), "c");
    assert_eq!(strip_path_opt("c", None), "c");
}

#[test]
fn zero_keeps_and_null_is_kept() {
    assert_eq!(strip_path("a//b", 0), "a//b");
    assert_eq!(strip_path("/dev/null", 1), "/dev/null");
    assert_eq!(strip_path_opt("/dev/null", None), "/dev/null");
}

#[test]
fn stripping_adds_up() {
    let path = "a/b/c/d";
    assert_eq!(strip_path(&strip_path(path, 1), 2), strip_path(path, 3));
}

#[test]
fn splitting_and_joining() {
    let parts = split("a//b", '/');
    assert_eq!(parts, vec!["a", "", "b"]);
    assert_eq!(join(&parts, "/"), "a//b");
}

#[test]
fn joining_paths() {
    assert_eq!(join_path(".", "f"), "./f");
    assert_eq!(join_path("d/", "f"), "d/f");
    assert_eq!(join_path("d", "/f"), "/f");
    assert_eq!(join_path("", "f"), "f");
}

#[test]
fn target_of_a_patch() {
    let mut opts = Options::default();
    let p = named("a/old", "b/new");
    assert_eq!(candidates(&p, &opts), ("./old".to_string(), "./new".to_string()));
    assert_eq!(resolve_target_file(&p, &opts, true, true), "./old");
    assert_eq!(resolve_target_file(&p, &opts, false, true), "./new");
    assert_eq!(resolve_target_file(&p, &opts, false, false), "./old");
    assert_eq!(resolve_target_file(&named("/dev/null", "b/new"), &opts, false, false), "./new");
    assert_eq!(resolve_target_file(&named("a/old", "/dev/null"), &opts, false, false), "./old");
    assert_eq!(resolve_target_file(&named("f.orig", "f"), &opts, true, true), "./f");
    opts.strip = Some(1);
    assert_eq!(resolve_target_file(&named("f", "b/new"), &opts, true, false), "./new");
    assert_eq!(resolve_target_file(&named("f", "g"), &opts, true, true), ".");
    opts.positional_file = Some("given".to_string());
    assert_eq!(resolve_target_file(&p, &opts, true, true), "given");
}

#[test]
fn target_of_a_rename() {
    let mut opts = Options::default();
    opts.directory = Some("d".to_string());
    let mut p = named("a/x", "b/y");
    p.git.rename_from = Some("x".to_string());
    p.git.rename_to = Some("y".to_string());
    assert_eq!(resolve_target_file(&p, &opts, true, true), "d/y");
    opts.on.reverse = true;
    assert_eq!(resolve_target_file(&p, &opts, true, true), "d/x");
    p.git.rename_from = None;
    assert_eq!(resolve_target_file(&p, &opts, true, true), "d/x");
    opts.on.reverse = false;
    p.new_file = String::new();
    assert_eq!(resolve_target_file(&p, &opts, true, true), "d/y");
}

#[test]
fn dangerous_names() {
    let missing = Whereabouts::Missing;
    assert!(is_dangerous_path("../f", missing, None));
    assert!(is_dangerous_path("a/../f", missing, Some("/home")));
    assert!(!is_dangerous_path("a/..b/f", missing, None));
    assert!(is_dangerous_path("/etc/f", missing, Some("/home")));
    assert!(!is_dangerous_path("/home/f", missing, Some("/home")));
    assert!(is_dangerous_path("/homes/f", missing, Some("/home")));
    assert!(is_dangerous_path("/home/../etc/f", missing, Some("/home")));
    assert!(!is_dangerous_path("/etc/f", missing, Some("/")));
    assert!(is_dangerous_path("/home/f", missing, None));
    assert!(!is_dangerous_path("/etc/f", Whereabouts::Below, None));
    assert!(is_dangerous_path("/w/../etc/passwd", Whereabouts::Outside, Some("/w")));
    assert!(!is_dangerous_path("/dev/null", Whereabouts::Outside, None));
    assert!(!is_dangerous_path("", missing, None));
}

#[test]
fn names_as_shown() {
    assert_eq!(display_path("./f"), "f");
    assert_eq!(display_path("../f"), "../f");
    assert_eq!(quote_for_display("plain"), "plain");
    assert_eq!(quote_for_display("a b"), "'a b'");
    assert_eq!(quote_for_display("it's"), "'it'\\''s'");
    assert_eq!(quote_for_display("a;b"), "'a;b'");
    for c in ";()<>#~[]{}!^&|$`*?\"\\".chars() {
        assert_eq!(quote_for_display(&format!("x{c}y")), format!("'x{c}y'"));
    }
    assert_eq!(quote_for_display("dir/a-b_c.d+e=f,g:h@i%"), "dir/a-b_c.d+e=f,g:h@i%");
    assert!(filename_is_invalid("a\nb"));
    assert!(!filename_is_invalid("a b"));
}

#[test]
fn modes() {
    assert!(is_path_readonly(Some(0o444)));
    assert!(!is_path_readonly(Some(0o644)));
    assert!(!is_path_readonly(None));
    assert_eq!(make_writable(Some(0o444)), Some(0o644));
    assert_eq!(make_writable(None), None);
    assert_eq!(saved_mode_of(Some(0o755)), 0o755);
    assert_eq!(saved_mode_of(None), 0o644);
    assert_eq!(restore_mode(Some(0o644), 0o444), Some(0o444));
    assert_eq!(restore_mode(None, 0o444), None);
    assert!(nlinks_gt_one(Some(2)));
    assert!(!nlinks_gt_one(Some(1)));
    assert!(!nlinks_gt_one(None));
    assert_eq!(apply_git_mode(Some(0o644), Some(0o100755)), Some(0o755));
    assert_eq!(apply_git_mode(None, Some(0o100755)), None);
    assert_eq!(apply_git_mode(Some(0o644), None), None);
    assert!(mode_is_link(Some(0o120000)));
    assert!(!mode_is_link(Some(0o100644)));
}

#[test]
fn simple_backups() {
    let mut opts = Options::default();
    let none: Vec<String> = Vec::new();
    assert_eq!(at(compute_backup_path("./d/f", &opts, &no_env(), &none)), "d/f.orig");
    let env = BackupEnv { suffix: Some("~".to_string()), ..no_env() };
    assert_eq!(at(compute_backup_path("f", &opts, &env, &none)), "f~");
    opts.backup_suffix = Some(".bak".to_string());
    assert_eq!(at(compute_backup_path("f", &opts, &env, &none)), "f.bak");
    opts.backup_prefix = Some("pre/".to_string());
    assert_eq!(at(compute_backup_path("d/f", &opts, &env, &none)), "pre/d/f.bak");
    opts.backup_suffix = None;
    assert_eq!(at(compute_backup_path("d/f", &opts, &env, &none)), "pre/d/f");
    assert_eq!(suffix_if_no_prefix_only(&opts, ".x"), "");
    opts.backup_prefix = None;
    opts.basename_prefix = Some("b-".to_string());
    assert_eq!(at(compute_backup_path("d/f", &opts, &env, &none)), "d/b-f");
    assert_eq!(at(compute_backup_path("f", &opts, &env, &none)), "b-f");
    assert_eq!(suffix_if_no_prefix_only(&Options::default(), ".x"), ".x");
}

#[test]
fn numbered_backups() {
    let opts = Options::default();
    let names = vec!["g.~1~".to_string(), "f.~1~".to_string()];
    assert_eq!(at(compute_backup_path("./f", &opts, &no_env(), &names)), "numbered f");
    assert_eq!(at(compute_backup_path("h", &opts, &no_env(), &names)), "h.orig");
    let env = BackupEnv { version_control: Some("numbered".to_string()), ..no_env() };
    assert_eq!(at(compute_backup_path("h", &opts, &env, &Vec::new())), "numbered h");
    let env = BackupEnv {
        patch_version_control: Some("simple".to_string()),
        version_control: Some("numbered".to_string()),
        ..no_env()
    };
    assert_eq!(at(compute_backup_path("f", &opts, &env, &names)), "f.orig");
    assert_eq!(
        at(choose_backup(&opts, &no_env(), "f", &None, &Some("f".to_string()), &names)),
        "numbered f"
    );
}

#[test]
fn numbers_of_backups() {
    assert_eq!(numbered_backup("f", 12), "f.~12~");
    assert_ne!(numbered_backup("f", 1), numbered_backup("f", 2));
    assert!(matches!(next_numbered("f", 1, false), NumberStep::Use(s) if s == "f.~1~"));
    assert!(matches!(next_numbered("f", 1, true), NumberStep::Next(2)));
    assert!(matches!(next_numbered("f", u32::MAX, true), NumberStep::Exhausted));
}

#[test]
fn the_least_free_number_is_used() {
    let taken = ["f.~1~", "f.~2~", "f.~4~", "g.~3~"];
    let mut n: u32 = 1;
    let name = loop {
        let there = taken.contains(&numbered_backup("f", n).as_str());
        match next_numbered("f", n, there) {
            NumberStep::Use(name) => break name,
            NumberStep::Next(m) => n = m,
            NumberStep::Exhausted => panic!("no number is left"),
        }
    };
    assert_eq!(name, "f.~3~");
}

#[test]
fn directories_of_backups() {
    assert_eq!(backup_directory("./f").as_deref(), Some("."));
    assert_eq!(backup_directory("d/e/f").as_deref(), Some("d/e"));
    assert_eq!(backup_directory("/"), None);
    assert_eq!(parents_to_remove("a/b/c/f"), vec!["a/b/c", "a/b", "a"]);
    assert_eq!(parents_to_remove("./a/f"), vec!["./a"]);
    assert!(parents_to_remove("f").is_empty());
}
