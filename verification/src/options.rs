//! The command line and what it asks for.
use vstd::prelude::*;

use crate::number::{parse_usize, parsed};
use crate::text::{chars_of, has_prefix, opt_text, starts_with, str_eq, strip_prefix, texts};

verus! {

/// What happens to a target that is not writable.
#[derive(Debug, Clone, Copy, PartialEq, Eq, Structural)]
pub enum ReadOnlyMode {
    Ignore,
    Warn,
    Fail,
}

impl Default for ReadOnlyMode {
    fn default() -> (r: ReadOnlyMode)
        ensures
            r == ReadOnlyMode::Warn,
    {
        ReadOnlyMode::Warn
    }
}

/// The options that are on or off.
#[derive(Debug, Clone, Copy, PartialEq, Eq, Structural)]
pub struct Switches {
    pub reverse: bool,
    pub dry_run: bool,
    pub silent: bool,
    pub verbose: bool,
    pub forward: bool,
    pub backup: bool,
    pub no_backup_if_mismatch: bool,
    pub posix: bool,
    pub binary: bool,
    pub follow_symlinks: bool,
    pub ed: bool,
    pub set_utc: bool,
    pub set_time: bool,
    pub force: bool,
    pub batch: bool,
    pub remove_empty: bool,
}

/// Every option off.
pub open spec fn all_off() -> Switches {
    Switches {
        reverse: false,
        dry_run: false,
        silent: false,
        verbose: false,
        forward: false,
        backup: false,
        no_backup_if_mismatch: false,
        posix: false,
        binary: false,
        follow_symlinks: false,
        ed: false,
        set_utc: false,
        set_time: false,
        force: false,
        batch: false,
        remove_empty: false,
    }
}

impl Default for Switches {
    fn default() -> (r: Switches)
        ensures
            r == all_off(),
    {
        Switches {
            reverse: false,
            dry_run: false,
            silent: false,
            verbose: false,
            forward: false,
            backup: false,
            no_backup_if_mismatch: false,
            posix: false,
            binary: false,
            follow_symlinks: false,
            ed: false,
            set_utc: false,
            set_time: false,
            force: false,
            batch: false,
            remove_empty: false,
        }
    }
}

/// What the command line asks for.
#[derive(Debug)]
pub struct Options {
    /// How many leading components file names lose; all of them when absent.
    pub strip: Option<usize>,
    pub directory: Option<String>,
    pub input: Option<String>,
    pub output: Option<String>,
    pub on: Switches,
    pub fuzz: usize,
    /// What goes before the whole path of a backup.
    pub backup_prefix: Option<String>,
    pub backup_suffix: Option<String>,
    /// What goes before the last component of the path of a backup.
    pub basename_prefix: Option<String>,
    pub version_control: Option<String>,
    pub read_only: ReadOnlyMode,
    pub reject_file: Option<String>,
    /// `unified` or `context`; the format of the patch when absent.
    pub reject_format: Option<String>,
    pub positional_file: Option<String>,
}

/// The options with their texts.
pub struct OptionsModel {
    pub strip: Option<usize>,
    pub directory: Option<Seq<char>>,
    pub input: Option<Seq<char>>,
    pub output: Option<Seq<char>>,
    pub on: Switches,
    pub fuzz: usize,
    pub backup_prefix: Option<Seq<char>>,
    pub backup_suffix: Option<Seq<char>>,
    pub basename_prefix: Option<Seq<char>>,
    pub version_control: Option<Seq<char>>,
    pub read_only: ReadOnlyMode,
    pub reject_file: Option<Seq<char>>,
    pub reject_format: Option<Seq<char>>,
    pub positional_file: Option<Seq<char>>,
}

impl View for Options {
    type V = OptionsModel;

    open spec fn view(&self) -> OptionsModel {
        OptionsModel {
            strip: self.strip,
            directory: opt_text(self.directory),
            input: opt_text(self.input),
            output: opt_text(self.output),
            on: self.on,
            fuzz: self.fuzz,
            backup_prefix: opt_text(self.backup_prefix),
            backup_suffix: opt_text(self.backup_suffix),
            basename_prefix: opt_text(self.basename_prefix),
            version_control: opt_text(self.version_control),
            read_only: self.read_only,
            reject_file: opt_text(self.reject_file),
            reject_format: opt_text(self.reject_format),
            positional_file: opt_text(self.positional_file),
        }
    }
}

/// The options of an empty command line.
pub open spec fn no_options() -> OptionsModel {
    OptionsModel {
        strip: None,
        directory: None,
        input: None,
        output: None,
        on: all_off(),
        fuzz: 2,
        backup_prefix: None,
        backup_suffix: None,
        basename_prefix: None,
        version_control: None,
        read_only: ReadOnlyMode::Warn,
        reject_file: None,
        reject_format: None,
        positional_file: None,
    }
}

impl Default for Options {
    fn default() -> (r: Options)
        ensures
            r@ == no_options(),
    {
        Options {
            strip: None,
            directory: None,
            input: None,
            output: None,
            on: Switches::default(),
            fuzz: 2,
            backup_prefix: None,
            backup_suffix: None,
            basename_prefix: None,
            version_control: None,
            read_only: ReadOnlyMode::Warn,
            reject_file: None,
            reject_format: None,
            positional_file: None,
        }
    }
}

/// Why the command line asks for no run.
#[derive(Debug)]
pub enum ArgsStop {
    /// It asks for the version.
    Version,
    /// This strip count is not a number.
    BadStrip(String),
    /// This is not a way to treat files that are not writable.
    BadReadOnly(String),
    /// It asks for a merge, which there is none of.
    Merge,
}

/// The reason with its text.
pub enum StopModel {
    Version,
    BadStrip(Seq<char>),
    BadReadOnly(Seq<char>),
    Merge,
}

impl View for ArgsStop {
    type V = StopModel;

    open spec fn view(&self) -> StopModel {
        match self {
            ArgsStop::Version => StopModel::Version,
            ArgsStop::BadStrip(s) => StopModel::BadStrip(s@),
            ArgsStop::BadReadOnly(s) => StopModel::BadReadOnly(s@),
            ArgsStop::Merge => StopModel::Merge,
        }
    }
}

/// The names of the options that are on or off.
#[derive(Debug, Clone, Copy, PartialEq, Eq, Structural)]
pub enum Flag {
    Reverse,
    DryRun,
    Silent,
    Verbose,
    Forward,
    Backup,
    NoBackupIfMismatch,
    Posix,
    Binary,
    FollowSymlinks,
    Ed,
    SetUtc,
    SetTime,
    Force,
    Batch,
    RemoveEmpty,
}

/// The options that take a value.
#[derive(Debug, Clone, Copy, PartialEq, Eq, Structural)]
pub enum Valued {
    Strip,
    Directory,
    Input,
    Output,
    Fuzz,
    Prefix,
    Suffix,
    BasenamePrefix,
    VersionControl,
    RejectFile,
    RejectFormat,
    ReadOnly,
}

/// The flag that an argument is the name of.
pub open spec fn flag_named(arg: Seq<char>) -> Option<Flag> {
    if arg == "-R"@ || arg == "--reverse"@ {
        Some(Flag::Reverse)
    } else if arg == "--dry-run"@ {
        Some(Flag::DryRun)
    } else if arg == "-s"@ || arg == "--quiet"@ || arg == "--silent"@ {
        Some(Flag::Silent)
    } else if arg == "-v"@ || arg == "--verbose"@ {
        Some(Flag::Verbose)
    } else if arg == "-N"@ || arg == "--forward"@ {
        Some(Flag::Forward)
    } else if arg == "-b"@ || arg == "--backup"@ {
        Some(Flag::Backup)
    } else if arg == "--no-backup-if-mismatch"@ {
        Some(Flag::NoBackupIfMismatch)
    } else if arg == "--posix"@ {
        Some(Flag::Posix)
    } else if arg == "--binary"@ {
        Some(Flag::Binary)
    } else if arg == "--follow-symlinks"@ {
        Some(Flag::FollowSymlinks)
    } else if arg == "-e"@ || arg == "--ed"@ {
        Some(Flag::Ed)
    } else if arg == "--set-utc"@ {
        Some(Flag::SetUtc)
    } else if arg == "--set-time"@ {
        Some(Flag::SetTime)
    } else if arg == "-f"@ || arg == "--force"@ {
        Some(Flag::Force)
    } else if arg == "-t"@ || arg == "--batch"@ {
        Some(Flag::Batch)
    } else if arg == "-E"@ || arg == "--remove-empty-files"@ {
        Some(Flag::RemoveEmpty)
    } else {
        None
    }
}

/// The flag that a letter stands for among combined letters.
pub open spec fn flag_letter(c: char) -> Option<Flag> {
    if c == 's' {
        Some(Flag::Silent)
    } else if c == 'R' {
        Some(Flag::Reverse)
    } else if c == 'N' {
        Some(Flag::Forward)
    } else if c == 'b' {
        Some(Flag::Backup)
    } else if c == 'f' {
        Some(Flag::Force)
    } else if c == 'E' {
        Some(Flag::RemoveEmpty)
    } else if c == 'v' {
        Some(Flag::Verbose)
    } else if c == 't' {
        Some(Flag::Batch)
    } else {
        None
    }
}

/// The option whose value is the next argument.
pub open spec fn awaits_value(arg: Seq<char>) -> Option<Valued> {
    if arg == "-p"@ || arg == "--strip"@ {
        Some(Valued::Strip)
    } else if arg == "-d"@ || arg == "--directory"@ {
        Some(Valued::Directory)
    } else if arg == "-i"@ || arg == "--input"@ {
        Some(Valued::Input)
    } else if arg == "-o"@ || arg == "--output"@ {
        Some(Valued::Output)
    } else if arg == "-F"@ || arg == "--fuzz"@ {
        Some(Valued::Fuzz)
    } else if arg == "-B"@ || arg == "--prefix"@ || arg == "--backup-prefix"@ {
        Some(Valued::Prefix)
    } else if arg == "-z"@ || arg == "--suffix"@ || arg == "--backup-suffix"@ {
        Some(Valued::Suffix)
    } else if arg == "-Y"@ || arg == "--basename-prefix"@ {
        Some(Valued::BasenamePrefix)
    } else if arg == "-V"@ || arg == "--version-control"@ {
        Some(Valued::VersionControl)
    } else if arg == "-r"@ || arg == "--reject-file"@ {
        Some(Valued::RejectFile)
    } else {
        None
    }
}

/// The option that an argument holds together with its value, and how many
/// characters stand before the value.
pub open spec fn carries_value(arg: Seq<char>) -> Option<(Valued, nat)> {
    if has_prefix(arg, "--strip="@) {
        Some((Valued::Strip, "--strip="@.len()))
    } else if has_prefix(arg, "-p"@) {
        Some((Valued::Strip, "-p"@.len()))
    } else if has_prefix(arg, "--directory="@) {
        Some((Valued::Directory, "--directory="@.len()))
    } else if has_prefix(arg, "--input="@) {
        Some((Valued::Input, "--input="@.len()))
    } else if has_prefix(arg, "--output="@) {
        Some((Valued::Output, "--output="@.len()))
    } else if has_prefix(arg, "--fuzz="@) {
        Some((Valued::Fuzz, "--fuzz="@.len()))
    } else if has_prefix(arg, "-F"@) {
        Some((Valued::Fuzz, "-F"@.len()))
    } else if has_prefix(arg, "--prefix="@) {
        Some((Valued::Prefix, "--prefix="@.len()))
    } else if has_prefix(arg, "--backup-prefix="@) {
        Some((Valued::Prefix, "--backup-prefix="@.len()))
    } else if has_prefix(arg, "--suffix="@) {
        Some((Valued::Suffix, "--suffix="@.len()))
    } else if has_prefix(arg, "--backup-suffix="@) {
        Some((Valued::Suffix, "--backup-suffix="@.len()))
    } else if has_prefix(arg, "--basename-prefix="@) {
        Some((Valued::BasenamePrefix, "--basename-prefix="@.len()))
    } else if has_prefix(arg, "--version-control="@) {
        Some((Valued::VersionControl, "--version-control="@.len()))
    } else if has_prefix(arg, "--reject-file="@) {
        Some((Valued::RejectFile, "--reject-file="@.len()))
    } else if has_prefix(arg, "--reject-format="@) {
        Some((Valued::RejectFormat, "--reject-format="@.len()))
    } else if has_prefix(arg, "--read-only="@) {
        Some((Valued::ReadOnly, "--read-only="@.len()))
    } else {
        None
    }
}

/// The switches with one more on.
pub open spec fn switched(on: Switches, f: Flag) -> Switches {
    match f {
        Flag::Reverse => Switches { reverse: true, ..on },
        Flag::DryRun => Switches { dry_run: true, ..on },
        Flag::Silent => Switches { silent: true, ..on },
        Flag::Verbose => Switches { verbose: true, ..on },
        Flag::Forward => Switches { forward: true, ..on },
        Flag::Backup => Switches { backup: true, ..on },
        Flag::NoBackupIfMismatch => Switches { no_backup_if_mismatch: true, ..on },
        Flag::Posix => Switches { posix: true, ..on },
        Flag::Binary => Switches { binary: true, ..on },
        Flag::FollowSymlinks => Switches { follow_symlinks: true, ..on },
        Flag::Ed => Switches { ed: true, ..on },
        Flag::SetUtc => Switches { set_utc: true, ..on },
        Flag::SetTime => Switches { set_time: true, ..on },
        Flag::Force => Switches { force: true, ..on },
        Flag::Batch => Switches { batch: true, ..on },
        Flag::RemoveEmpty => Switches { remove_empty: true, ..on },
    }
}

/// The options with a flag set.
pub open spec fn with_flag(o: OptionsModel, f: Flag) -> OptionsModel {
    OptionsModel { on: switched(o.on, f), ..o }
}

/// The options with the flags of combined letters set. Letters that stand for
/// no flag say nothing.
pub open spec fn with_letters(o: OptionsModel, letters: Seq<char>) -> OptionsModel
    decreases letters.len(),
{
    if letters.len() == 0 {
        o
    } else {
        let before = with_letters(o, letters.drop_last());
        match flag_letter(letters.last()) {
            Some(f) => with_flag(before, f),
            None => before,
        }
    }
}

/// The fuzz that a text asks for; 2 when it is no number.
pub open spec fn fuzz_value(val: Seq<char>) -> usize {
    match parsed(val, 10, usize::MAX as nat) {
        Some(n) => n as usize,
        None => 2,
    }
}

/// The way to treat files that are not writable that a text names.
pub open spec fn read_only_named(val: Seq<char>) -> Option<ReadOnlyMode> {
    if val == "ignore"@ {
        Some(ReadOnlyMode::Ignore)
    } else if val == "warn"@ {
        Some(ReadOnlyMode::Warn)
    } else if val == "fail"@ {
        Some(ReadOnlyMode::Fail)
    } else {
        None
    }
}

/// The options with a value set. A prefix or a suffix for backups also asks
/// for backups.
pub open spec fn with_value(o: OptionsModel, v: Valued, val: Seq<char>) -> Result<
    OptionsModel,
    StopModel,
> {
    match v {
        Valued::Strip => match parsed(val, 10, usize::MAX as nat) {
            Some(n) => Ok(OptionsModel { strip: Some(n as usize), ..o }),
            None => Err(StopModel::BadStrip(val)),
        },
        Valued::Directory => Ok(OptionsModel { directory: Some(val), ..o }),
        Valued::Input => Ok(OptionsModel { input: Some(val), ..o }),
        Valued::Output => Ok(OptionsModel { output: Some(val), ..o }),
        Valued::Fuzz => Ok(OptionsModel { fuzz: fuzz_value(val), ..o }),
        Valued::Prefix => Ok(OptionsModel { backup_prefix: Some(val), on: switched(o.on, Flag::Backup), ..o }),
        Valued::Suffix => Ok(OptionsModel { backup_suffix: Some(val), on: switched(o.on, Flag::Backup), ..o }),
        Valued::BasenamePrefix => Ok(
            OptionsModel { basename_prefix: Some(val), on: switched(o.on, Flag::Backup), ..o },
        ),
        Valued::VersionControl => Ok(OptionsModel { version_control: Some(val), ..o }),
        Valued::RejectFile => Ok(OptionsModel { reject_file: Some(val), ..o }),
        Valued::RejectFormat => Ok(OptionsModel { reject_format: Some(val), ..o }),
        Valued::ReadOnly => match read_only_named(val) {
            Some(mode) => Ok(OptionsModel { read_only: mode, ..o }),
            None => Err(StopModel::BadReadOnly(val)),
        },
    }
}

/// The options with a file name from the command line. Only the first counts.
pub open spec fn with_positional(o: OptionsModel, name: Seq<char>) -> OptionsModel {
    if o.positional_file is None {
        OptionsModel { positional_file: Some(name), ..o }
    } else {
        o
    }
}

/// The options after argument `i`, and the argument to go on with.
pub open spec fn arg_step(args: Seq<Seq<char>>, i: int, o: OptionsModel) -> Result<
    (OptionsModel, int),
    StopModel,
> {
    let arg = args[i];
    if arg == "--version"@ {
        Err(StopModel::Version)
    } else if arg == "--"@ {
        if i + 1 < args.len() {
            Ok((with_positional(o, args[i + 1]), i + 2))
        } else {
            Ok((o, i + 2))
        }
    } else if let Some(v) = awaits_value(arg) {
        if i + 1 < args.len() {
            match with_value(o, v, args[i + 1]) {
                Ok(o2) => Ok((o2, i + 2)),
                Err(e) => Err(e),
            }
        } else {
            Ok((o, i + 2))
        }
    } else if let Some((v, n)) = carries_value(arg) {
        match with_value(o, v, arg.skip(n as int)) {
            Ok(o2) => Ok((o2, i + 1)),
            Err(e) => Err(e),
        }
    } else if arg == "--merge"@ || has_prefix(arg, "--merge="@) {
        Err(StopModel::Merge)
    } else if let Some(f) = flag_named(arg) {
        Ok((with_flag(o, f), i + 1))
    } else if !has_prefix(arg, "-"@) {
        Ok((with_positional(o, arg), i + 1))
    } else if !has_prefix(arg, "--"@) {
        Ok((with_letters(o, arg.skip(1)), i + 1))
    } else {
        Ok((o, i + 1))
    }
}

/// The options after the arguments from `i` on.
pub open spec fn args_from(args: Seq<Seq<char>>, i: int, o: OptionsModel) -> Result<
    OptionsModel,
    StopModel,
>
    decreases args.len() - i,
{
    if i >= args.len() {
        Ok(o)
    } else {
        match arg_step(args, i, o) {
            Err(e) => Err(e),
            Ok((o2, next)) => if next > i {
                args_from(args, if next < args.len() {
                    next
                } else {
                    args.len() as int
                }, o2)
            } else {
                Ok(o2)
            },
        }
    }
}

/// Of two strip counts, the later counts: after both, the options are as if
/// the first had not been given.
pub proof fn law_last_strip_counts(
    o: OptionsModel,
    first: Seq<char>,
    second: Seq<char>,
    mid: OptionsModel,
)
    requires
        with_value(o, Valued::Strip, first) == Ok::<_, StopModel>(mid),
    ensures
        with_value(mid, Valued::Strip, second) == with_value(o, Valued::Strip, second),
{
}

/// A letter among combined letters does what the flag with that letter does
/// alone.
pub proof fn law_letters_are_flags(o: OptionsModel, letters: Seq<char>, c: char)
    ensures
        flag_letter(c) matches Some(f) ==> with_letters(o, letters.push(c)) == with_flag(
            with_letters(o, letters),
            f,
        ),
        flag_letter(c) is None ==> with_letters(o, letters.push(c)) == with_letters(o, letters),
{
    assert(letters.push(c).drop_last() =~= letters);
}

// ---------------------------------------------------------------------------
// Operations
// ---------------------------------------------------------------------------

/// The flag that an argument is the name of.
fn read_flag(arg: &str) -> (r: Option<Flag>)
    ensures
        r == flag_named(arg@),
{
    if str_eq(arg, "-R") || str_eq(arg, "--reverse") {
        Some(Flag::Reverse)
    } else if str_eq(arg, "--dry-run") {
        Some(Flag::DryRun)
    } else if str_eq(arg, "-s") || str_eq(arg, "--quiet") || str_eq(arg, "--silent") {
        Some(Flag::Silent)
    } else if str_eq(arg, "-v") || str_eq(arg, "--verbose") {
        Some(Flag::Verbose)
    } else if str_eq(arg, "-N") || str_eq(arg, "--forward") {
        Some(Flag::Forward)
    } else if str_eq(arg, "-b") || str_eq(arg, "--backup") {
        Some(Flag::Backup)
    } else if str_eq(arg, "--no-backup-if-mismatch") {
        Some(Flag::NoBackupIfMismatch)
    } else if str_eq(arg, "--posix") {
        Some(Flag::Posix)
    } else if str_eq(arg, "--binary") {
        Some(Flag::Binary)
    } else if str_eq(arg, "--follow-symlinks") {
        Some(Flag::FollowSymlinks)
    } else if str_eq(arg, "-e") || str_eq(arg, "--ed") {
        Some(Flag::Ed)
    } else if str_eq(arg, "--set-utc") {
        Some(Flag::SetUtc)
    } else if str_eq(arg, "--set-time") {
        Some(Flag::SetTime)
    } else if str_eq(arg, "-f") || str_eq(arg, "--force") {
        Some(Flag::Force)
    } else if str_eq(arg, "-t") || str_eq(arg, "--batch") {
        Some(Flag::Batch)
    } else if str_eq(arg, "-E") || str_eq(arg, "--remove-empty-files") {
        Some(Flag::RemoveEmpty)
    } else {
        None
    }
}

/// The flag that a letter stands for.
fn read_letter(c: char) -> (r: Option<Flag>)
    ensures
        r == flag_letter(c),
{
    match c {
        's' => Some(Flag::Silent),
        'R' => Some(Flag::Reverse),
        'N' => Some(Flag::Forward),
        'b' => Some(Flag::Backup),
        'f' => Some(Flag::Force),
        'E' => Some(Flag::RemoveEmpty),
        'v' => Some(Flag::Verbose),
        't' => Some(Flag::Batch),
        _ => None,
    }
}

/// The option whose value is the next argument.
fn read_awaits_value(arg: &str) -> (r: Option<Valued>)
    ensures
        r == awaits_value(arg@),
{
    if str_eq(arg, "-p") || str_eq(arg, "--strip") {
        Some(Valued::Strip)
    } else if str_eq(arg, "-d") || str_eq(arg, "--directory") {
        Some(Valued::Directory)
    } else if str_eq(arg, "-i") || str_eq(arg, "--input") {
        Some(Valued::Input)
    } else if str_eq(arg, "-o") || str_eq(arg, "--output") {
        Some(Valued::Output)
    } else if str_eq(arg, "-F") || str_eq(arg, "--fuzz") {
        Some(Valued::Fuzz)
    } else if str_eq(arg, "-B") || str_eq(arg, "--prefix") || str_eq(arg, "--backup-prefix") {
        Some(Valued::Prefix)
    } else if str_eq(arg, "-z") || str_eq(arg, "--suffix") || str_eq(arg, "--backup-suffix") {
        Some(Valued::Suffix)
    } else if str_eq(arg, "-Y") || str_eq(arg, "--basename-prefix") {
        Some(Valued::BasenamePrefix)
    } else if str_eq(arg, "-V") || str_eq(arg, "--version-control") {
        Some(Valued::VersionControl)
    } else if str_eq(arg, "-r") || str_eq(arg, "--reject-file") {
        Some(Valued::RejectFile)
    } else {
        None
    }
}

/// The option that an argument holds together with its value, and the value.
fn read_carries_value<'a>(arg: &'a str) -> (r: Option<(Valued, &'a str)>)
    ensures
        match r {
            Some((v, val)) => carries_value(arg@) matches Some((w, n)) && v == w && val@
                == arg@.skip(n as int),
            None => carries_value(arg@) is None,
        },
{
    if let Some(val) = strip_prefix(arg, "--strip=") {
        Some((Valued::Strip, val))
    } else if let Some(val) = strip_prefix(arg, "-p") {
        Some((Valued::Strip, val))
    } else if let Some(val) = strip_prefix(arg, "--directory=") {
        Some((Valued::Directory, val))
    } else if let Some(val) = strip_prefix(arg, "--input=") {
        Some((Valued::Input, val))
    } else if let Some(val) = strip_prefix(arg, "--output=") {
        Some((Valued::Output, val))
    } else if let Some(val) = strip_prefix(arg, "--fuzz=") {
        Some((Valued::Fuzz, val))
    } else if let Some(val) = strip_prefix(arg, "-F") {
        Some((Valued::Fuzz, val))
    } else if let Some(val) = strip_prefix(arg, "--prefix=") {
        Some((Valued::Prefix, val))
    } else if let Some(val) = strip_prefix(arg, "--backup-prefix=") {
        Some((Valued::Prefix, val))
    } else if let Some(val) = strip_prefix(arg, "--suffix=") {
        Some((Valued::Suffix, val))
    } else if let Some(val) = strip_prefix(arg, "--backup-suffix=") {
        Some((Valued::Suffix, val))
    } else if let Some(val) = strip_prefix(arg, "--basename-prefix=") {
        Some((Valued::BasenamePrefix, val))
    } else if let Some(val) = strip_prefix(arg, "--version-control=") {
        Some((Valued::VersionControl, val))
    } else if let Some(val) = strip_prefix(arg, "--reject-file=") {
        Some((Valued::RejectFile, val))
    } else if let Some(val) = strip_prefix(arg, "--reject-format=") {
        Some((Valued::RejectFormat, val))
    } else if let Some(val) = strip_prefix(arg, "--read-only=") {
        Some((Valued::ReadOnly, val))
    } else {
        None
    }
}

/// The switches with one more on.
fn switch_on(on: Switches, f: Flag) -> (r: Switches)
    ensures
        r == switched(on, f),
{
    match f {
        Flag::Reverse => Switches { reverse: true, ..on },
        Flag::DryRun => Switches { dry_run: true, ..on },
        Flag::Silent => Switches { silent: true, ..on },
        Flag::Verbose => Switches { verbose: true, ..on },
        Flag::Forward => Switches { forward: true, ..on },
        Flag::Backup => Switches { backup: true, ..on },
        Flag::NoBackupIfMismatch => Switches { no_backup_if_mismatch: true, ..on },
        Flag::Posix => Switches { posix: true, ..on },
        Flag::Binary => Switches { binary: true, ..on },
        Flag::FollowSymlinks => Switches { follow_symlinks: true, ..on },
        Flag::Ed => Switches { ed: true, ..on },
        Flag::SetUtc => Switches { set_utc: true, ..on },
        Flag::SetTime => Switches { set_time: true, ..on },
        Flag::Force => Switches { force: true, ..on },
        Flag::Batch => Switches { batch: true, ..on },
        Flag::RemoveEmpty => Switches { remove_empty: true, ..on },
    }
}

/// Sets a flag.
fn set_flag(o: &mut Options, f: Flag)
    ensures
        final(o)@ == with_flag(old(o)@, f),
{
    o.on = switch_on(o.on, f);
}

/// Sets the flags of combined letters, which follow the dash of `arg`.
fn set_letters(o: &mut Options, arg: &str)
    requires
        arg@.len() >= 1,
    ensures
        final(o)@ == with_letters(old(o)@, arg@.skip(1)),
{
    let cs = chars_of(arg);
    let ghost letters = arg@.skip(1);
    let ghost o0 = o@;
    let mut j: usize = 1;
    assert(letters.take(0) =~= Seq::empty());
    while j < cs.len()
        invariant
            cs@ == arg@,
            letters == arg@.skip(1),
            o0 == old(o)@,
            1 <= j <= cs@.len(),
            o@ == with_letters(o0, letters.take(j - 1)),
        decreases cs@.len() - j,
    {
        proof {
            assert(letters.take(j as int).drop_last() =~= letters.take(j - 1));
            assert(letters.take(j as int).last() == cs@[j as int]);
        }
        if let Some(f) = read_letter(cs[j]) {
            set_flag(o, f);
        }
        j = j + 1;
    }
    assert(letters.take(j - 1) =~= letters);
}

/// Reads a strip count.
pub fn parse_strip(val: &str) -> (r: Result<usize, ArgsStop>)
    ensures
        match r {
            Ok(n) => parsed(val@, 10, usize::MAX as nat) == Some(n as nat),
            Err(e) => parsed(val@, 10, usize::MAX as nat) is None && e@ == StopModel::BadStrip(
                val@,
            ),
        },
{
    match parse_usize(val) {
        Some(n) => Ok(n),
        None => Err(ArgsStop::BadStrip(val.to_owned())),
    }
}

/// Reads a way to treat files that are not writable.
fn read_read_only(val: &str) -> (r: Option<ReadOnlyMode>)
    ensures
        r == read_only_named(val@),
{
    if str_eq(val, "ignore") {
        Some(ReadOnlyMode::Ignore)
    } else if str_eq(val, "warn") {
        Some(ReadOnlyMode::Warn)
    } else if str_eq(val, "fail") {
        Some(ReadOnlyMode::Fail)
    } else {
        None
    }
}

/// Sets a part of the names of backups.
fn set_backup_name(o: &mut Options, v: Valued, val: &str)
    requires
        v == Valued::Prefix || v == Valued::Suffix || v == Valued::BasenamePrefix,
    ensures
        with_value(old(o)@, v, val@) == Ok::<_, StopModel>(final(o)@),
{
    match v {
        Valued::Prefix => {
            o.backup_prefix = Some(val.to_owned());
        },
        Valued::Suffix => {
            o.backup_suffix = Some(val.to_owned());
        },
        _ => {
            o.basename_prefix = Some(val.to_owned());
        },
    }
    o.on = switch_on(o.on, Flag::Backup);
}

/// Sets a value.
fn set_value(o: &mut Options, v: Valued, val: &str) -> (r: Result<(), ArgsStop>)
    ensures
        match r {
            Ok(_) => with_value(old(o)@, v, val@) == Ok::<_, StopModel>(final(o)@),
            Err(e) => with_value(old(o)@, v, val@) == Err::<OptionsModel, _>(e@),
        },
{
    match v {
        Valued::Strip => match parse_strip(val) {
            Ok(n) => {
                o.strip = Some(n);
                Ok(())
            },
            Err(e) => Err(e),
        },
        Valued::Directory => {
            o.directory = Some(val.to_owned());
            Ok(())
        },
        Valued::Input => {
            o.input = Some(val.to_owned());
            Ok(())
        },
        Valued::Output => {
            o.output = Some(val.to_owned());
            Ok(())
        },
        Valued::Fuzz => {
            o.fuzz = match parse_usize(val) {
                Some(n) => n,
                None => 2,
            };
            Ok(())
        },
        Valued::Prefix | Valued::Suffix | Valued::BasenamePrefix => {
            set_backup_name(o, v, val);
            Ok(())
        },
        Valued::VersionControl => {
            o.version_control = Some(val.to_owned());
            Ok(())
        },
        Valued::RejectFile => {
            o.reject_file = Some(val.to_owned());
            Ok(())
        },
        Valued::RejectFormat => {
            o.reject_format = Some(val.to_owned());
            Ok(())
        },
        Valued::ReadOnly => match read_read_only(val) {
            Some(mode) => {
                o.read_only = mode;
                Ok(())
            },
            None => Err(ArgsStop::BadReadOnly(val.to_owned())),
        },
    }
}

/// Takes a file name from the command line.
fn set_positional(o: &mut Options, name: &String)
    ensures
        final(o)@ == with_positional(old(o)@, name@),
{
    if o.positional_file.is_none() {
        o.positional_file = Some(name.clone());
    }
}

/// Takes argument `i`; gives the argument to go on with.
fn take_arg(args: &Vec<String>, i: usize, o: &mut Options) -> (r: Result<usize, ArgsStop>)
    requires
        i < args@.len(),
    ensures
        match r {
            Ok(next) => {
                &&& i < next <= args@.len()
                &&& arg_step(texts(args@), i as int, old(o)@) matches Ok((o2, n)) && o2
                    == final(o)@ && (n == next || (n > args@.len() && next == args@.len()))
            },
            Err(e) => arg_step(texts(args@), i as int, old(o)@) == Err::<(OptionsModel, int), _>(
                e@,
            ),
        },
{
    let n = args.len();
    let ghost all = texts(args@);
    assert(all[i as int] == args@[i as int]@);
    assert(i + 1 < n ==> all[i + 1] == args@[i + 1]@);
    let arg = args[i].as_str();
    proof {
        reveal_strlit("-");
    }
    if str_eq(arg, "--version") {
        return Err(ArgsStop::Version);
    }
    if str_eq(arg, "--") {
        if i + 1 < n {
            set_positional(o, &args[i + 1]);
            return Ok(i + 2);
        }
        return Ok(n);
    }
    if let Some(v) = read_awaits_value(arg) {
        if i + 1 < n {
            return match set_value(o, v, args[i + 1].as_str()) {
                Ok(_) => Ok(i + 2),
                Err(e) => Err(e),
            };
        }
        return Ok(n);
    }
    if let Some((v, val)) = read_carries_value(arg) {
        return match set_value(o, v, val) {
            Ok(_) => Ok(i + 1),
            Err(e) => Err(e),
        };
    }
    if str_eq(arg, "--merge") || starts_with(arg, "--merge=") {
        return Err(ArgsStop::Merge);
    }
    if let Some(f) = read_flag(arg) {
        set_flag(o, f);
    } else if !starts_with(arg, "-") {
        set_positional(o, &args[i]);
    } else if !starts_with(arg, "--") {
        set_letters(o, arg);
    }
    Ok(i + 1)
}

/// Reads the command line, without the name of the program.
pub fn parse_args(args: &Vec<String>) -> (r: Result<Options, ArgsStop>)
    ensures
        match r {
            Ok(o) => args_from(texts(args@), 0, no_options()) == Ok::<_, StopModel>(o@),
            Err(e) => args_from(texts(args@), 0, no_options()) == Err::<OptionsModel, _>(e@),
        },
{
    let ghost all = texts(args@);
    let mut o = Options::default();
    let mut i: usize = 0;
    while i < args.len()
        invariant
            all == texts(args@),
            i <= args@.len(),
            args_from(all, i as int, o@) == args_from(all, 0, no_options()),
        decreases args@.len() - i,
    {
        match take_arg(args, i, &mut o) {
            Ok(next) => {
                i = next;
            },
            Err(e) => {
                return Err(e);
            },
        }
    }
    Ok(o)
}

} // verus!
