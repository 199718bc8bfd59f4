use rust_patch::options::{parse_args, parse_strip, ArgsStop, Options, ReadOnlyMode};

fn args(list: &[&str]) -> Result<Options, ArgsStop> {
    parse_args(&list.iter().map(|s| s.to_string()).collect())
}

#[test]
fn defaults() {
    let o = args(&[]).unwrap();
    assert_eq!(o.strip, None);
    assert_eq!(o.fuzz, 2);
    assert_eq!(o.read_only, ReadOnlyMode::Warn);
    assert_eq!(o.read_only, ReadOnlyMode::default());
    assert!(!o.on.reverse);
    assert_eq!(o.positional_file, None);
}

#[test]
fn strip_counts() {
    assert_eq!(args(&["-p1"]).unwrap().strip, Some(1));
    assert_eq!(args(&["-p", "2"]).unwrap().strip, Some(2));
    assert_eq!(args(&["--strip=3"]).unwrap().strip, Some(3));
    assert_eq!(args(&["--strip", "4"]).unwrap().strip, Some(4));
    assert_eq!(args(&["-p"]).unwrap().strip, None);
    assert!(matches!(args(&["-px"]), Err(ArgsStop::BadStrip(v)) if v == "x"));
    assert!(matches!(parse_strip(""), Err(ArgsStop::BadStrip(v)) if v.is_empty()));
}

#[test]
fn the_last_strip_count_counts() {
    assert_eq!(args(&["-p1", "-p0", "--strip=5"]).unwrap().strip, Some(5));
}

#[test]
fn values_in_both_forms() {
    let o = args(&["-d", "dir", "--input=in", "-o", "out", "-F3", "-r", "rej"]).unwrap();
    assert_eq!(o.directory.as_deref(), Some("dir"));
    assert_eq!(o.input.as_deref(), Some("in"));
    assert_eq!(o.output.as_deref(), Some("out"));
    assert_eq!(o.fuzz, 3);
    assert_eq!(o.reject_file.as_deref(), Some("rej"));
    assert_eq!(args(&["--fuzz=many"]).unwrap().fuzz, 2);
    let o = args(&["--reject-format=context", "--version-control", "t"]).unwrap();
    assert_eq!(o.reject_format.as_deref(), Some("context"));
    assert_eq!(o.version_control.as_deref(), Some("t"));
    let o = args(&["-V", "numbered"]).unwrap();
    assert_eq!(o.version_control.as_deref(), Some("numbered"));
    assert!(!o.on.backup);
}

#[test]
fn names_of_backups_ask_for_backups() {
    let o = args(&["-B", "p", "-z", "s", "-Y", "b"]).unwrap();
    assert_eq!(o.backup_prefix.as_deref(), Some("p"));
    assert_eq!(o.backup_suffix.as_deref(), Some("s"));
    assert_eq!(o.basename_prefix.as_deref(), Some("b"));
    assert!(o.on.backup);
    let o = args(&["--backup-prefix=q", "--backup-suffix=t"]).unwrap();
    assert_eq!(o.backup_prefix.as_deref(), Some("q"));
    assert_eq!(o.backup_suffix.as_deref(), Some("t"));
    assert!(o.on.backup);
    assert!(!args(&["-z"]).unwrap().on.backup);
}

#[test]
fn flags_alone_and_combined() {
    let o = args(&["-R", "--dry-run", "--posix", "--binary", "-e", "--set-utc"]).unwrap();
    assert!(o.on.reverse && o.on.dry_run && o.on.posix && o.on.binary && o.on.ed && o.on.set_utc);
    let o = args(&["-sNfx"]).unwrap();
    assert!(o.on.silent && o.on.forward && o.on.force);
    assert!(!o.on.reverse && !o.on.batch);
    let o = args(&["-REbvt"]).unwrap();
    assert!(o.on.reverse && o.on.remove_empty && o.on.backup && o.on.verbose && o.on.batch);
    let o = args(&["--no-backup-if-mismatch", "--follow-symlinks", "--set-time"]).unwrap();
    assert!(o.on.no_backup_if_mismatch && o.on.follow_symlinks && o.on.set_time);
    assert!(!args(&["--unknown", "-"]).unwrap().on.silent);
}

#[test]
fn the_first_file_name_counts() {
    assert_eq!(args(&["a", "b"]).unwrap().positional_file.as_deref(), Some("a"));
    assert_eq!(args(&["--", "-x", "b"]).unwrap().positional_file.as_deref(), Some("-x"));
    assert_eq!(args(&["--"]).unwrap().positional_file, None);
}

#[test]
fn read_only_modes() {
    assert_eq!(args(&["--read-only=ignore"]).unwrap().read_only, ReadOnlyMode::Ignore);
    assert_eq!(args(&["--read-only=fail"]).unwrap().read_only, ReadOnlyMode::Fail);
    assert!(matches!(args(&["--read-only=no"]), Err(ArgsStop::BadReadOnly(v)) if v == "no"));
}

#[test]
fn requests_that_end_the_run() {
    assert!(matches!(args(&["-s", "--version", "-px"]), Err(ArgsStop::Version)));
    assert!(matches!(args(&["--version"]), Err(ArgsStop::Version)));
    assert!(matches!(args(&["--merge"]), Err(ArgsStop::Merge)));
    assert!(matches!(args(&["--merge=diff3"]), Err(ArgsStop::Merge)));
}
