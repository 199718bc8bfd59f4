//! Where backups go.
use vstd::prelude::*;

use crate::number::{decimal, decimal_of, lemma_decimal_reads_back, number};
use crate::options::{Options, OptionsModel};
use crate::paths::{first_text, join_path, seen_from};
use crate::report::text3;
use crate::text::{ends_with, has_prefix, has_suffix, opt_text, starts_with, str_eq, texts};

verus! {

// ---------------------------------------------------------------------------
// Parts of a path
// ---------------------------------------------------------------------------

/// What `Path::strip_prefix` gives, on Unix.
pub uninterp spec fn path_after(path: Seq<char>, prefix: Seq<char>) -> Option<Seq<char>>;

/// What `Path::parent` gives, on Unix.
pub uninterp spec fn parent_of(path: Seq<char>) -> Option<Seq<char>>;

/// What `Path::file_name` gives, on Unix.
pub uninterp spec fn last_component(path: Seq<char>) -> Option<Seq<char>>;

/// Calls `Path::strip_prefix`. The claim: the result is `path_after` of the
/// path and the prefix, and `None` stands for its error.
#[verifier::external_body]
pub(crate) fn strip_path_prefix(path: &str, prefix: &str) -> (r: Option<String>)
    ensures
        opt_text(r) == path_after(path@, prefix@),
{
    std::path::Path::new(path).strip_prefix(prefix).ok().map(|p| p.to_string_lossy().into_owned())
}

/// Calls `Path::parent`. The claim: the result is `parent_of` of the path, and
/// it is shorter than the path, of which it lacks the last component.
#[verifier::external_body]
pub(crate) fn parent(path: &str) -> (r: Option<String>)
    ensures
        opt_text(r) == parent_of(path@),
        r matches Some(p) ==> p@.len() < path@.len(),
{
    std::path::Path::new(path).parent().map(|p| p.to_string_lossy().into_owned())
}

/// Calls `Path::file_name`. The claim: the result is `last_component` of the
/// path.
#[verifier::external_body]
pub(crate) fn file_name(path: &str) -> (r: Option<String>)
    ensures
        opt_text(r) == last_component(path@),
{
    std::path::Path::new(path).file_name().map(|p| p.to_string_lossy().into_owned())
}

/// The directories above a path, the nearest first, up to the working
/// directory.
pub open spec fn directories_above(path: Seq<char>) -> Seq<Seq<char>>
    decreases path.len(),
{
    match parent_of(path) {
        Some(dir) => if dir.len() == 0 || dir == "."@ || dir.len() >= path.len() {
            Seq::empty()
        } else {
            seq![dir] + directories_above(dir)
        },
        None => Seq::empty(),
    }
}

/// The directories above a path, the nearest first, up to the working
/// directory: those to try to remove after the file is removed.
pub fn parents_to_remove(path: &str) -> (r: Vec<String>)
    ensures
        texts(r@) == directories_above(path@),
{
    let mut out: Vec<String> = Vec::new();
    let mut here = path.to_owned();
    assert(texts(out@) + directories_above(here@) =~= directories_above(path@));
    loop
        invariant
            texts(out@) + directories_above(here@) == directories_above(path@),
        ensures
            texts(out@) == directories_above(path@),
        decreases here@.len(),
    {
        match parent(here.as_str()) {
            Some(dir) => {
                if dir.as_str().is_empty() || str_eq(dir.as_str(), ".") {
                    assert(texts(out@) + Seq::<Seq<char>>::empty() =~= texts(out@));
                    break;
                }
                let ghost before = texts(out@);
                out.push(dir.clone());
                proof {
                    assert(texts(out@) =~= before.push(dir@));
                    assert(texts(out@) + directories_above(dir@) =~= before + (seq![dir@]
                        + directories_above(dir@)));
                }
                here = dir;
            },
            None => {
                assert(texts(out@) + Seq::<Seq<char>>::empty() =~= texts(out@));
                break;
            },
        }
    }
    out
}

// ---------------------------------------------------------------------------
// Names of backups
// ---------------------------------------------------------------------------

/// What the environment says of backups: `SIMPLE_BACKUP_SUFFIX`,
/// `PATCH_VERSION_CONTROL` and `VERSION_CONTROL`.
#[derive(Debug)]
pub struct BackupEnv {
    pub suffix: Option<String>,
    pub patch_version_control: Option<String>,
    pub version_control: Option<String>,
}

/// The same with its texts.
pub struct BackupEnvModel {
    pub suffix: Option<Seq<char>>,
    pub patch_version_control: Option<Seq<char>>,
    pub version_control: Option<Seq<char>>,
}

impl View for BackupEnv {
    type V = BackupEnvModel;

    open spec fn view(&self) -> BackupEnvModel {
        BackupEnvModel {
            suffix: opt_text(self.suffix),
            patch_version_control: opt_text(self.patch_version_control),
            version_control: opt_text(self.version_control),
        }
    }
}

/// Where the backup of a file goes.
#[derive(Debug)]
pub enum BackupPlace {
    /// To this file.
    At(String),
    /// To the first numbered name of this file that is free.
    Numbered(String),
}

/// The place with its text.
pub enum BackupPlaceModel {
    At(Seq<char>),
    Numbered(Seq<char>),
}

impl View for BackupPlace {
    type V = BackupPlaceModel;

    open spec fn view(&self) -> BackupPlaceModel {
        match self {
            BackupPlace::At(s) => BackupPlaceModel::At(s@),
            BackupPlace::Numbered(s) => BackupPlaceModel::Numbered(s@),
        }
    }
}

/// The file that is backed up, without a leading `./`.
pub open spec fn backed_up(target: Seq<char>) -> Seq<char> {
    match path_after(target, "./"@) {
        Some(rest) => rest,
        None => target,
    }
}

/// The suffix of simple backups: the option's, or the environment's, or
/// `.orig`.
pub open spec fn backup_suffix(o: OptionsModel, env: BackupEnvModel) -> Seq<char> {
    match first_text(o.backup_suffix, env.suffix) {
        Some(s) => s,
        None => ".orig"@,
    }
}

/// The kind of backups: the option's, or the environment's, or numbered where
/// there are numbered ones.
pub open spec fn backup_style(o: OptionsModel, env: BackupEnvModel) -> Seq<char> {
    match first_text(
        o.version_control,
        first_text(env.patch_version_control, env.version_control),
    ) {
        Some(s) => s,
        None => "existing"@,
    }
}

/// What follows a name with a prefix: the suffix, if an option gives one.
pub open spec fn suffix_after_prefix(o: OptionsModel, suffix: Seq<char>) -> Seq<char> {
    if o.backup_suffix is Some {
        suffix
    } else if o.backup_prefix is Some || o.basename_prefix is Some {
        Seq::empty()
    } else {
        suffix
    }
}

/// The name of a simple backup.
pub open spec fn simple_backup(
    o: OptionsModel,
    target: Seq<char>,
    dir: Option<Seq<char>>,
    name: Option<Seq<char>>,
    suffix: Seq<char>,
) -> Seq<char> {
    let tail = suffix_after_prefix(o, suffix);
    if let Some(prefix) = o.backup_prefix {
        prefix + target + tail
    } else if let Some(prefix) = o.basename_prefix {
        let dir = match dir {
            Some(d) => d,
            None => Seq::empty(),
        };
        let name = match name {
            Some(n) => n,
            None => Seq::empty(),
        };
        seen_from(dir, prefix + name + tail)
    } else {
        target + suffix
    }
}

/// A name of a numbered backup is among the names in the directory.
pub open spec fn has_numbered(name: Option<Seq<char>>, siblings: Seq<Seq<char>>) -> bool {
    let start = match name {
        Some(n) => n,
        None => Seq::empty(),
    } + ".~"@;
    exists|i: int|
        0 <= i < siblings.len() && has_prefix(#[trigger] siblings[i], start) && has_suffix(
            siblings[i],
            "~"@,
        )
}

/// Backups are numbered.
pub open spec fn is_numbered(
    style: Seq<char>,
    name: Option<Seq<char>>,
    siblings: Seq<Seq<char>>,
) -> bool {
    if style == "numbered"@ || style == "t"@ {
        true
    } else if style == "existing"@ || style == "nil"@ {
        has_numbered(name, siblings)
    } else {
        false
    }
}

/// Where the backup of a file goes, given the parts of its path.
pub open spec fn backup_place(
    o: OptionsModel,
    env: BackupEnvModel,
    target: Seq<char>,
    dir: Option<Seq<char>>,
    name: Option<Seq<char>>,
    siblings: Seq<Seq<char>>,
) -> BackupPlaceModel {
    if is_numbered(backup_style(o, env), name, siblings) && o.backup_prefix is None
        && o.basename_prefix is None && o.backup_suffix is None {
        BackupPlaceModel::Numbered(target)
    } else {
        BackupPlaceModel::At(simple_backup(o, target, dir, name, backup_suffix(o, env)))
    }
}

/// The name of numbered backup `n`.
pub open spec fn numbered_name(target: Seq<char>, n: nat) -> Seq<char> {
    target + ".~"@ + decimal(n) + "~"@
}

/// Numbered backups with different numbers have different names.
pub proof fn law_numbered_names_differ(target: Seq<char>, n: nat, m: nat)
    requires
        n != m,
    ensures
        numbered_name(target, n) != numbered_name(target, m),
{
    reveal_strlit(".~");
    reveal_strlit("~");
    lemma_decimal_reads_back(n);
    lemma_decimal_reads_back(m);
    let a = numbered_name(target, n);
    let b = numbered_name(target, m);
    let k = target.len() + 2;
    if a == b {
        assert(a.len() == k + decimal(n).len() + 1);
        assert(b.len() == k + decimal(m).len() + 1);
        assert(decimal(n) =~= a.subrange(k as int, a.len() - 1));
        assert(decimal(m) =~= b.subrange(k as int, b.len() - 1));
        assert(number(decimal(n), 10) == number(decimal(m), 10));
    }
}

/// What to do after trying a numbered backup, with its text.
pub enum NumberStepModel {
    Use(Seq<char>),
    Next(u32),
    Exhausted,
}

/// A name that is free is used, and after one that is taken comes the next
/// number, as long as there is one.
pub open spec fn number_step(target: Seq<char>, n: u32, taken: bool) -> NumberStepModel {
    if !taken {
        NumberStepModel::Use(numbered_name(target, n as nat))
    } else if n == u32::MAX {
        NumberStepModel::Exhausted
    } else {
        NumberStepModel::Next((n + 1) as u32)
    }
}

/// The name that step after step from `n` on ends with; `None` when the numbers
/// run out. `taken` says of a name whether it is taken.
pub open spec fn backup_from(
    target: Seq<char>,
    n: u32,
    taken: spec_fn(Seq<char>) -> bool,
) -> Option<Seq<char>>
    decreases u32::MAX - n,
{
    match number_step(target, n, taken(numbered_name(target, n as nat))) {
        NumberStepModel::Use(name) => Some(name),
        NumberStepModel::Next(m) => if m > n {
            backup_from(target, m, taken)
        } else {
            None
        },
        NumberStepModel::Exhausted => None,
    }
}

proof fn lemma_least_from(target: Seq<char>, n: u32, taken: spec_fn(Seq<char>) -> bool)
    ensures
        match backup_from(target, n, taken) {
            Some(name) => exists|k: nat|
                #![trigger numbered_name(target, k)]
                n <= k <= u32::MAX && name == numbered_name(target, k) && !taken(name) && forall|
                    j: nat,
                |
                    n <= j < k ==> taken(#[trigger] numbered_name(target, j)),
            None => forall|j: nat|
                n <= j <= u32::MAX ==> taken(#[trigger] numbered_name(target, j)),
        },
    decreases u32::MAX - n,
{
    let here = numbered_name(target, n as nat);
    if taken(here) && n < u32::MAX {
        let m = (n + 1) as u32;
        lemma_least_from(target, m, taken);
        match backup_from(target, m, taken) {
            Some(name) => {
                let k = choose|k: nat|
                    #![trigger numbered_name(target, k)]
                    m <= k <= u32::MAX && name == numbered_name(target, k) && !taken(name)
                        && forall|j: nat|
                        m <= j < k ==> taken(#[trigger] numbered_name(target, j));
                assert forall|j: nat| n <= j < k implies taken(
                    #[trigger] numbered_name(target, j),
                ) by {
                    if j > n {
                        assert(m <= j);
                    }
                }
            },
            None => {
                assert forall|j: nat| n <= j <= u32::MAX implies taken(
                    #[trigger] numbered_name(target, j),
                ) by {
                    if j > n {
                        assert(m <= j);
                    }
                }
            },
        }
    }
}

/// A numbered backup gets the least number from one on whose name is free, and
/// there is a backup if any number is free.
pub proof fn law_least_free_number_is_used(
    target: Seq<char>,
    k: nat,
    taken: spec_fn(Seq<char>) -> bool,
)
    requires
        1 <= k <= u32::MAX,
        !taken(numbered_name(target, k)),
        forall|j: nat| 1 <= j < k ==> taken(#[trigger] numbered_name(target, j)),
    ensures
        backup_from(target, 1, taken) == Some(numbered_name(target, k)),
{
    lemma_least_from(target, 1, taken);
    match backup_from(target, 1, taken) {
        Some(name) => {
            let found = choose|i: nat|
                #![trigger numbered_name(target, i)]
                1 <= i <= u32::MAX && name == numbered_name(target, i) && !taken(name) && forall|
                    j: nat,
                |
                    1 <= j < i ==> taken(#[trigger] numbered_name(target, j));
            assert(found == k);
        },
        None => {
            assert(taken(numbered_name(target, k)));
        },
    }
}

/// No backup is made over a file that is there: the name that is used is free,
/// and it is the target's with a number.
pub proof fn law_numbered_backup_is_new(target: Seq<char>, taken: spec_fn(Seq<char>) -> bool)
    ensures
        match backup_from(target, 1, taken) {
            Some(name) => !taken(name) && exists|k: nat|
                1 <= k <= u32::MAX && name == #[trigger] numbered_name(target, k),
            None => forall|j: nat|
                1 <= j <= u32::MAX ==> taken(#[trigger] numbered_name(target, j)),
        },
{
    lemma_least_from(target, 1, taken);
}

/// The directory whose names tell whether there are numbered backups; `None`
/// when the path has none.
pub fn backup_directory(target: &str) -> (r: Option<String>)
    ensures
        opt_text(r) == match parent_of(backed_up(target@)) {
            Some(dir) => Some(
                if dir.len() == 0 {
                    "."@
                } else {
                    dir
                },
            ),
            None => None,
        },
{
    let target = match strip_path_prefix(target, "./") {
        Some(rest) => rest,
        None => target.to_owned(),
    };
    match parent(target.as_str()) {
        Some(dir) => if dir.as_str().is_empty() {
            Some(".".to_owned())
        } else {
            Some(dir)
        },
        None => None,
    }
}

/// What follows a name with a prefix.
pub fn suffix_if_no_prefix_only(opts: &Options, suffix: &str) -> (r: String)
    ensures
        r@ == suffix_after_prefix(opts@, suffix@),
{
    if opts.backup_suffix.is_some() {
        suffix.to_owned()
    } else if opts.backup_prefix.is_some() || opts.basename_prefix.is_some() {
        String::new()
    } else {
        suffix.to_owned()
    }
}

fn numbered_among(name: &Option<String>, siblings: &Vec<String>) -> (r: bool)
    ensures
        r == has_numbered(opt_text(*name), texts(siblings@)),
{
    let mut start = match name {
        Some(n) => n.clone(),
        None => String::new(),
    };
    start.append(".~");
    let ghost all = texts(siblings@);
    let mut i: usize = 0;
    while i < siblings.len()
        invariant
            all == texts(siblings@),
            i <= siblings@.len(),
            forall|j: int|
                0 <= j < i ==> !(has_prefix(#[trigger] all[j], start@) && has_suffix(
                    all[j],
                    "~"@,
                )),
            start@ == match opt_text(*name) {
                Some(n) => n,
                None => Seq::empty(),
            } + ".~"@,
        decreases siblings@.len() - i,
    {
        assert(all[i as int] == siblings@[i as int]@);
        if starts_with(siblings[i].as_str(), start.as_str()) && ends_with(
            siblings[i].as_str(),
            "~",
        ) {
            return true;
        }
        i = i + 1;
    }
    false
}

/// Decides where the backup of a file goes, given the parts of its path, which
/// has no leading `./`. `siblings` are the names in its directory.
pub fn choose_backup(
    opts: &Options,
    env: &BackupEnv,
    target: &str,
    dir: &Option<String>,
    name: &Option<String>,
    siblings: &Vec<String>,
) -> (r: BackupPlace)
    ensures
        r@ == backup_place(
            opts@,
            env@,
            target@,
            opt_text(*dir),
            opt_text(*name),
            texts(siblings@),
        ),
{
    let suffix: &str = match &opts.backup_suffix {
        Some(s) => s.as_str(),
        None => match &env.suffix {
            Some(s) => s.as_str(),
            None => ".orig",
        },
    };
    let style: &str = match &opts.version_control {
        Some(s) => s.as_str(),
        None => match &env.patch_version_control {
            Some(s) => s.as_str(),
            None => match &env.version_control {
                Some(s) => s.as_str(),
                None => "existing",
            },
        },
    };
    let numbered = if str_eq(style, "numbered") || str_eq(style, "t") {
        true
    } else if str_eq(style, "existing") || str_eq(style, "nil") {
        numbered_among(name, siblings)
    } else {
        false
    };
    if numbered && opts.backup_prefix.is_none() && opts.basename_prefix.is_none()
        && opts.backup_suffix.is_none() {
        return BackupPlace::Numbered(target.to_owned());
    }
    let tail = suffix_if_no_prefix_only(opts, suffix);
    if let Some(prefix) = &opts.backup_prefix {
        BackupPlace::At(text3(prefix.as_str(), target, tail.as_str()))
    } else if let Some(prefix) = &opts.basename_prefix {
        let dir: &str = match dir {
            Some(d) => d.as_str(),
            None => "",
        };
        let name: &str = match name {
            Some(n) => n.as_str(),
            None => "",
        };
        proof {
            reveal_strlit("");
            assert(""@ =~= Seq::empty());
        }
        let base = text3(prefix.as_str(), name, tail.as_str());
        BackupPlace::At(join_path(dir, base.as_str()))
    } else {
        let mut s = target.to_owned();
        s.append(suffix);
        BackupPlace::At(s)
    }
}

/// Decides where the backup of `target` goes. `siblings` are the names in
/// [`backup_directory`].
pub fn compute_backup_path(
    target: &str,
    opts: &Options,
    env: &BackupEnv,
    siblings: &Vec<String>,
) -> (r: BackupPlace)
    ensures
        r@ == backup_place(
            opts@,
            env@,
            backed_up(target@),
            parent_of(backed_up(target@)),
            last_component(backed_up(target@)),
            texts(siblings@),
        ),
{
    let target = match strip_path_prefix(target, "./") {
        Some(rest) => rest,
        None => target.to_owned(),
    };
    let dir = parent(target.as_str());
    let name = file_name(target.as_str());
    choose_backup(opts, env, target.as_str(), &dir, &name, siblings)
}

/// What to do after trying numbered backup `n`.
#[derive(Debug)]
pub enum NumberStep {
    /// This name is free.
    Use(String),
    /// Try this number.
    Next(u32),
    /// There is no higher number.
    Exhausted,
}

impl View for NumberStep {
    type V = NumberStepModel;

    open spec fn view(&self) -> NumberStepModel {
        match self {
            NumberStep::Use(name) => NumberStepModel::Use(name@),
            NumberStep::Next(n) => NumberStepModel::Next(*n),
            NumberStep::Exhausted => NumberStepModel::Exhausted,
        }
    }
}

/// The name of numbered backup `n`.
pub fn numbered_backup(target: &str, n: u32) -> (r: String)
    ensures
        r@ == numbered_name(target@, n as nat),
{
    let mut s = target.to_owned();
    s.append(".~");
    s.append(decimal_of(n as u64).as_str());
    s.append("~");
    s
}

/// Goes on from numbered backup `n`, whose name is taken or not.
pub fn next_numbered(target: &str, n: u32, taken: bool) -> (r: NumberStep)
    ensures
        r@ == number_step(target@, n, taken),
{
    if !taken {
        NumberStep::Use(numbered_backup(target, n))
    } else if n == u32::MAX {
        NumberStep::Exhausted
    } else {
        NumberStep::Next(n + 1)
    }
}

} // verus!
