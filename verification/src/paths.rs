//! File names: which file a patch is about, and how names are shown.
//!
//! Paths are text with `/` between their components, as on Unix.
use vstd::prelude::*;

use crate::model::{FilePatch, PatchModel};
use crate::options::{Options, OptionsModel};
use crate::text::{
    chars_of, contains_char, ends_with, has_prefix, has_suffix, is_white, is_whitespace, join,
    joined, law_split_undoes_join, lemma_split_on, lemma_split_on_last, opt_text, split, split_on,
    starts_with, str_eq, strip_prefix, strip_suffix, texts,
};

verus! {

/// The name that stands for no file.
pub open spec fn is_null(path: Seq<char>) -> bool {
    path == "/dev/null"@
}

/// `path` without its first `n` components, counting what stands between
/// slashes; nothing when it has no more than `n`. The null file keeps its
/// name.
pub open spec fn stripped(path: Seq<char>, n: nat) -> Seq<char> {
    let parts = split_on(path, '/');
    if is_null(path) || n == 0 {
        path
    } else if n >= parts.len() {
        Seq::empty()
    } else {
        joined(parts.skip(n as int), "/"@)
    }
}

/// `path` without the components that the options say, or without all but the
/// last when they say none.
pub open spec fn stripped_opt(path: Seq<char>, strip: Option<usize>) -> Seq<char> {
    match strip {
        Some(n) => stripped(path, n as nat),
        None => if is_null(path) {
            path
        } else {
            split_on(path, '/').last()
        },
    }
}

/// `path` seen from the directory `base`. A path from the root stays as it is.
pub open spec fn seen_from(base: Seq<char>, path: Seq<char>) -> Seq<char> {
    if has_prefix(path, "/"@) || base.len() == 0 {
        path
    } else if has_suffix(base, "/"@) {
        base + path
    } else {
        base + "/"@ + path
    }
}

/// The directory that file names are seen from.
pub open spec fn base_of(o: OptionsModel) -> Seq<char> {
    match o.directory {
        Some(d) => d,
        None => "."@,
    }
}

/// A stripped name that can name a file.
pub open spec fn names_a_file(name: Seq<char>) -> bool {
    name.len() > 0 && !is_null(name)
}

/// The first of two texts that is there.
pub open spec fn first_text(a: Option<Seq<char>>, b: Option<Seq<char>>) -> Option<Seq<char>> {
    if a is Some {
        a
    } else {
        b
    }
}

/// The file that a patch renames or copies something to, seen in the
/// direction of application; `None` when it names none there.
pub open spec fn moved_target(p: PatchModel, o: OptionsModel) -> Option<Seq<char>> {
    let from = first_text(p.git.rename_from, p.git.copy_from);
    let to = first_text(p.git.rename_to, p.git.copy_to);
    let old = stripped_opt(p.old_file, o.strip);
    let new = stripped_opt(p.new_file, o.strip);
    if to is None {
        None
    } else if o.on.reverse && from is Some {
        from
    } else if o.on.reverse && names_a_file(old) {
        Some(old)
    } else if names_a_file(new) {
        Some(new)
    } else {
        to
    }
}

/// Of the two names of a patch, the one of the file to change. A name with
/// `.orig` is the backup of the other. Else the old name counts if its file is
/// there, then the new name if its file is there, then the old name.
pub open spec fn chosen_name(
    base: Seq<char>,
    old: Seq<char>,
    new: Seq<char>,
    old_exists: bool,
    new_exists: bool,
) -> Seq<char> {
    if is_null(old) {
        seen_from(base, new)
    } else if is_null(new) {
        seen_from(base, old)
    } else if has_suffix(old, ".orig"@) && old.take(old.len() - 5) == new {
        seen_from(base, new)
    } else if old.len() > 0 && old_exists {
        seen_from(base, old)
    } else if new.len() > 0 && new_exists {
        seen_from(base, new)
    } else if old.len() > 0 {
        seen_from(base, old)
    } else if new.len() > 0 {
        seen_from(base, new)
    } else {
        base
    }
}

/// The file to change: the one on the command line, or the one that a rename
/// or a copy leads to, or one of the two names of the patch.
pub open spec fn target_of(
    p: PatchModel,
    o: OptionsModel,
    old_exists: bool,
    new_exists: bool,
) -> Seq<char> {
    if let Some(name) = o.positional_file {
        name
    } else if let Some(name) = moved_target(p, o) {
        seen_from(base_of(o), name)
    } else {
        chosen_name(
            base_of(o),
            stripped_opt(p.old_file, o.strip),
            stripped_opt(p.new_file, o.strip),
            old_exists,
            new_exists,
        )
    }
}

/// Where the file of a name is found.
#[derive(Debug, Clone, Copy, PartialEq, Eq, Structural)]
pub enum Whereabouts {
    /// It is there and, behind links, lies below the working directory.
    Below,
    /// It is there and lies somewhere else.
    Outside,
    /// It is not there.
    Missing,
}

/// A name with a component `..`.
pub open spec fn climbs(path: Seq<char>) -> bool {
    split_on(path, '/').contains(".."@)
}

/// A name that leads out of the working directory: one from the root whose
/// file lies elsewhere, or that has no file and is not written as a path below
/// the working directory, or one with a component `..`.
pub open spec fn is_dangerous(path: Seq<char>, place: Whereabouts, cwd: Option<Seq<char>>) -> bool {
    if path.len() == 0 || is_null(path) {
        false
    } else if has_prefix(path, "/"@) {
        match place {
            Whereabouts::Below => false,
            Whereabouts::Outside => cwd != Some("/"@),
            Whereabouts::Missing => match cwd {
                Some(dir) => dir != "/"@ && (!has_prefix(path, dir + "/"@) || climbs(path)),
                None => true,
            },
        }
    } else {
        climbs(path)
    }
}

/// `path` without a leading `./`.
pub open spec fn shown(path: Seq<char>) -> Seq<char> {
    if has_prefix(path, "./"@) {
        path.skip(2)
    } else {
        path
    }
}

/// A character that makes a shell read a name in another way.
pub open spec fn is_special(c: char) -> bool {
    ends_word(c) || changes_word(c) || c == '\'' || c == '\\'
}

/// A character at which a word of the shell ends.
pub open spec fn ends_word(c: char) -> bool {
    is_white(c) || c == ';' || c == '&' || c == '|' || c == '<' || c == '>' || c == '(' || c == ')'
}

/// A character that makes a shell expand a word, or read it as something other
/// than what is written.
pub open spec fn changes_word(c: char) -> bool {
    c == '"' || c == '$' || c == '`' || c == '*' || c == '?' || c == '[' || c == ']' || c == '{' || c
        == '}' || c == '~' || c == '#' || c == '!' || c == '^'
}

/// `s` with every single quote closed, escaped and opened again.
pub open spec fn escaped(s: Seq<char>) -> Seq<char>
    decreases s.len(),
{
    if s.len() == 0 {
        Seq::empty()
    } else {
        escaped(s.drop_last()) + if s.last() == '\'' {
            "'\\''"@
        } else {
            seq![s.last()]
        }
    }
}

/// `name` as it is shown: in single quotes when it has special characters.
pub open spec fn quoted(name: Seq<char>) -> Seq<char> {
    if exists|i: int| 0 <= i < name.len() && is_special(#[trigger] name[i]) {
        "'"@ + escaped(name) + "'"@
    } else {
        name
    }
}

/// How a shell reads a word: what is between single quotes stands for itself,
/// and so does a character after a backslash. Outside of quotes the word ends
/// at white space and at an operator. `None` when a quote is open at the end,
/// when nothing follows a backslash, or when the shell would expand the word.
pub open spec fn shell_word(s: Seq<char>, in_quotes: bool, read: Seq<char>) -> Option<Seq<char>>
    decreases s.len(),
{
    if s.len() == 0 {
        if in_quotes {
            None
        } else {
            Some(read)
        }
    } else if s[0] == '\'' {
        shell_word(s.skip(1), !in_quotes, read)
    } else if !in_quotes && s[0] == '\\' {
        if s.len() < 2 {
            None
        } else {
            shell_word(s.skip(2), in_quotes, read.push(s[1]))
        }
    } else if !in_quotes && ends_word(s[0]) {
        Some(read)
    } else if !in_quotes && changes_word(s[0]) {
        None
    } else {
        shell_word(s.skip(1), in_quotes, read.push(s[0]))
    }
}

// ---------------------------------------------------------------------------
// Laws
// ---------------------------------------------------------------------------

/// The null file keeps its name whatever is stripped.
pub proof fn law_null_is_never_stripped(strip: Option<usize>)
    ensures
        stripped_opt("/dev/null"@, strip) == "/dev/null"@,
{
}

/// A strip count of zero keeps every name.
pub proof fn law_strip_zero_keeps(path: Seq<char>)
    ensures
        stripped_opt(path, Some(0)) == path,
{
}

/// Stripping some components and then some more is stripping them at once,
/// unless what is left in between is the name of the null file.
pub proof fn law_strip_adds(path: Seq<char>, n: nat, m: nat)
    requires
        !is_null(path),
        !is_null(stripped(path, n)),
    ensures
        stripped(stripped(path, n), m) == stripped(path, n + m),
{
    let parts = split_on(path, '/');
    lemma_split_on(path, '/');
    if n > 0 && m > 0 {
        if n >= parts.len() {
            lemma_split_on_last(Seq::empty(), '/');
        } else {
            let rest = parts.skip(n as int);
            assert forall|i: int| 0 <= i < rest.len() implies !(#[trigger] rest[i]).contains(
                '/',
            ) by {
                assert(rest[i] == parts[i + n]);
            }
            reveal_strlit("/");
            assert("/"@ =~= seq!['/']);
            law_split_undoes_join(rest, '/');
            if m < rest.len() {
                assert(rest.skip(m as int) =~= parts.skip((n + m) as int));
            }
        }
    }
}

/// A file that lies below the working directory is not dangerous under a name
/// from the root, and neither is a new file that is named as a path below it.
/// When the working directory is the root directory, no name from the root is.
pub proof fn law_paths_in_cwd_are_safe(path: Seq<char>, place: Whereabouts, cwd: Seq<char>)
    requires
        has_prefix(path, "/"@),
        place == Whereabouts::Below || cwd == "/"@ || (place == Whereabouts::Missing && has_prefix(
            path,
            cwd + "/"@,
        ) && !climbs(path)),
    ensures
        !is_dangerous(path, place, Some(cwd)),
{
}

/// A file that is there but lies outside of the working directory is dangerous
/// under any name from the root, however the name begins, unless the working
/// directory is the root directory and nothing lies outside of it.
pub proof fn law_outside_files_are_dangerous(path: Seq<char>, cwd: Option<Seq<char>>)
    requires
        has_prefix(path, "/"@),
        !is_null(path),
        cwd != Some("/"@),
    ensures
        is_dangerous(path, Whereabouts::Outside, cwd),
{
    reveal_strlit("/");
}

/// Reading on from inside the quotes, past an escaped text.
proof fn lemma_reads_escaped(s: Seq<char>, tail: Seq<char>, read: Seq<char>)
    ensures
        shell_word(escaped(s) + tail, true, read) == shell_word(tail, true, read + s),
    decreases s.len(),
{
    reveal_strlit("'\\''");
    if s.len() == 0 {
        assert(escaped(s) + tail =~= tail);
        assert(read + s =~= read);
    } else {
        let init = s.drop_last();
        let c = s.last();
        let bit = if c == '\'' {
            "'\\''"@
        } else {
            seq![c]
        };
        assert(escaped(s) + tail =~= escaped(init) + (bit + tail));
        lemma_reads_escaped(init, bit + tail, read);
        let next = bit + tail;
        assert(read + s =~= (read + init).push(c));
        if c == '\'' {
            assert(next.skip(1)[0] == '\\' && next.skip(1)[1] == '\'');
            assert(next.skip(1).skip(2) =~= next.skip(3));
            assert(next.skip(3)[0] == '\'');
            assert(next.skip(3).skip(1) =~= tail);
            assert(shell_word(next, true, read + init) == shell_word(
                next.skip(1),
                false,
                read + init,
            ));
            assert(shell_word(next.skip(1), false, read + init) == shell_word(
                next.skip(3),
                false,
                (read + init).push('\''),
            ));
        } else {
            assert(next.skip(1) =~= tail);
        }
    }
}

proof fn lemma_reads_plain(s: Seq<char>, read: Seq<char>)
    requires
        forall|i: int| 0 <= i < s.len() ==> !is_special(#[trigger] s[i]),
    ensures
        shell_word(s, false, read) == Some(read + s),
    decreases s.len(),
{
    if s.len() == 0 {
        assert(read + s =~= read);
    } else {
        assert(!is_special(s[0]));
        assert forall|i: int| 0 <= i < s.skip(1).len() implies !is_special(
            #[trigger] s.skip(1)[i],
        ) by {
            assert(s.skip(1)[i] == s[i + 1]);
        }
        lemma_reads_plain(s.skip(1), read.push(s[0]));
        assert(read.push(s[0]) + s.skip(1) =~= read + s);
    }
}

/// A shell that reads a name as it is shown reads the name.
pub proof fn law_shell_reads_quoted(name: Seq<char>)
    ensures
        shell_word(quoted(name), false, Seq::empty()) == Some(name),
{
    reveal_strlit("'");
    if exists|i: int| 0 <= i < name.len() && is_special(#[trigger] name[i]) {
        let q = quoted(name);
        assert(q.skip(1) =~= escaped(name) + "'"@);
        lemma_reads_escaped(name, "'"@, Seq::empty());
        assert(Seq::<char>::empty() + name =~= name);
        assert("'"@.skip(1) =~= Seq::empty());
        assert(shell_word("'"@, true, name) == shell_word("'"@.skip(1), false, name));
    } else {
        lemma_reads_plain(name, Seq::empty());
        assert(Seq::<char>::empty() + name =~= name);
    }
}

// ---------------------------------------------------------------------------
// Operations
// ---------------------------------------------------------------------------

/// The strings from the `n`th on.
fn tail_of(parts: &Vec<String>, n: usize) -> (r: Vec<String>)
    requires
        n <= parts@.len(),
    ensures
        texts(r@) == texts(parts@).skip(n as int),
{
    let mut out: Vec<String> = Vec::new();
    let mut i: usize = n;
    while i < parts.len()
        invariant
            n <= i <= parts@.len(),
            texts(out@) == texts(parts@).subrange(n as int, i as int),
        decreases parts@.len() - i,
    {
        let ghost before = texts(out@);
        out.push(parts[i].clone());
        proof {
            assert(texts(out@) =~= before.push(parts@[i as int]@));
            assert(texts(parts@).subrange(n as int, i + 1) =~= before.push(parts@[i as int]@));
        }
        i = i + 1;
    }
    assert(texts(parts@).subrange(n as int, i as int) =~= texts(parts@).skip(n as int));
    out
}

/// `path` without its first `strip` components.
pub fn strip_path(path: &str, strip: usize) -> (r: String)
    ensures
        r@ == stripped(path@, strip as nat),
{
    if str_eq(path, "/dev/null") || strip == 0 {
        return path.to_owned();
    }
    let parts = split(path, '/');
    assert(texts(parts@).len() == parts@.len());
    if strip >= parts.len() {
        String::new()
    } else {
        let rest = tail_of(&parts, strip);
        join(&rest, "/")
    }
}

/// `path` without the components that `strip` says.
pub fn strip_path_opt(path: &str, strip: Option<usize>) -> (r: String)
    ensures
        r@ == stripped_opt(path@, strip),
{
    match strip {
        Some(n) => strip_path(path, n),
        None => {
            if str_eq(path, "/dev/null") {
                return path.to_owned();
            }
            let parts = split(path, '/');
            proof {
                lemma_split_on(path@, '/');
                assert(texts(parts@).len() == parts@.len());
                assert(texts(parts@).last() == parts@.last()@);
            }
            parts[parts.len() - 1].clone()
        },
    }
}

/// `path` seen from the directory `base`.
pub fn join_path(base: &str, path: &str) -> (r: String)
    ensures
        r@ == seen_from(base@, path@),
{
    if starts_with(path, "/") || base.is_empty() {
        return path.to_owned();
    }
    let mut s = base.to_owned();
    if !ends_with(base, "/") {
        s.append("/");
    }
    s.append(path);
    s
}

/// The directory that file names are seen from.
pub fn base_directory<'a>(opts: &'a Options) -> (r: &'a str)
    ensures
        r@ == base_of(opts@),
{
    match &opts.directory {
        Some(d) => d.as_str(),
        None => ".",
    }
}

/// The files that the two names of a patch stand for.
pub fn candidates(patch: &FilePatch, opts: &Options) -> (r: (String, String))
    ensures
        r.0@ == seen_from(base_of(opts@), stripped_opt(patch@.old_file, opts@.strip)),
        r.1@ == seen_from(base_of(opts@), stripped_opt(patch@.new_file, opts@.strip)),
{
    let base = base_directory(opts);
    let old = strip_path_opt(patch.old_file.as_str(), opts.strip);
    let new = strip_path_opt(patch.new_file.as_str(), opts.strip);
    (join_path(base, old.as_str()), join_path(base, new.as_str()))
}

fn first_of<'a>(a: &'a Option<String>, b: &'a Option<String>) -> (r: Option<&'a String>)
    ensures
        match r {
            Some(s) => first_text(opt_text(*a), opt_text(*b)) == Some(s@),
            None => first_text(opt_text(*a), opt_text(*b)) is None,
        },
{
    match a {
        Some(s) => Some(s),
        None => match b {
            Some(s) => Some(s),
            None => None,
        },
    }
}

fn usable(name: &str) -> (r: bool)
    ensures
        r == names_a_file(name@),
{
    !name.is_empty() && !str_eq(name, "/dev/null")
}

/// The file to change. `old_exists` and `new_exists` say whether the files of
/// [`candidates`] are there.
pub fn resolve_target_file(
    patch: &FilePatch,
    opts: &Options,
    old_exists: bool,
    new_exists: bool,
) -> (r: String)
    ensures
        r@ == target_of(patch@, opts@, old_exists, new_exists),
{
    if let Some(name) = &opts.positional_file {
        return name.clone();
    }
    let base = base_directory(opts);
    let old = strip_path_opt(patch.old_file.as_str(), opts.strip);
    let new = strip_path_opt(patch.new_file.as_str(), opts.strip);
    let from = first_of(&patch.git.rename_from, &patch.git.copy_from);
    let to = first_of(&patch.git.rename_to, &patch.git.copy_to);
    if let Some(to) = to {
        if opts.on.reverse {
            if let Some(from) = from {
                return join_path(base, from.as_str());
            }
            if usable(old.as_str()) {
                return join_path(base, old.as_str());
            }
        }
        if usable(new.as_str()) {
            return join_path(base, new.as_str());
        }
        return join_path(base, to.as_str());
    }
    if str_eq(old.as_str(), "/dev/null") {
        return join_path(base, new.as_str());
    }
    if str_eq(new.as_str(), "/dev/null") {
        return join_path(base, old.as_str());
    }
    proof {
        reveal_strlit(".orig");
    }
    if let Some(stem) = strip_suffix(old.as_str(), ".orig") {
        if str_eq(stem, new.as_str()) {
            return join_path(base, new.as_str());
        }
    }
    let old_empty = old.as_str().is_empty();
    let new_empty = new.as_str().is_empty();
    if !old_empty && old_exists {
        join_path(base, old.as_str())
    } else if !new_empty && new_exists {
        join_path(base, new.as_str())
    } else if !old_empty {
        join_path(base, old.as_str())
    } else if !new_empty {
        join_path(base, new.as_str())
    } else {
        base.to_owned()
    }
}

/// Whether a name has a component `..`.
fn has_parent_step(path: &str) -> (r: bool)
    ensures
        r == climbs(path@),
{
    let parts = split(path, '/');
    let ghost all = split_on(path@, '/');
    let mut i: usize = 0;
    while i < parts.len()
        invariant
            all == split_on(path@, '/'),
            texts(parts@) == all,
            i <= parts@.len(),
            forall|j: int| 0 <= j < i ==> all[j] != ".."@,
        decreases parts@.len() - i,
    {
        assert(all[i as int] == parts@[i as int]@);
        if str_eq(parts[i].as_str(), "..") {
            assert(all.contains(".."@));
            return true;
        }
        i = i + 1;
    }
    assert(all.len() == parts@.len());
    false
}

/// Whether a name leads out of the working directory. `place` says where its
/// file is found, and `cwd` is the name of that directory if it is known.
pub fn is_dangerous_path(path: &str, place: Whereabouts, cwd: Option<&str>) -> (r: bool)
    ensures
        r == is_dangerous(
            path@,
            place,
            match cwd {
                Some(dir) => Some(dir@),
                None => None,
            },
        ),
{
    if path.is_empty() || str_eq(path, "/dev/null") {
        return false;
    }
    if !starts_with(path, "/") {
        return has_parent_step(path);
    }
    match place {
        Whereabouts::Below => false,
        Whereabouts::Outside => match cwd {
            Some(dir) => !str_eq(dir, "/"),
            None => true,
        },
        Whereabouts::Missing => match cwd {
            Some(dir) => {
                if str_eq(dir, "/") {
                    return false;
                }
                let mut prefix = dir.to_owned();
                prefix.append("/");
                !starts_with(path, prefix.as_str()) || has_parent_step(path)
            },
            None => true,
        },
    }
}

/// `path` as messages show it.
pub fn display_path(path: &str) -> (r: String)
    ensures
        r@ == shown(path@),
{
    proof {
        reveal_strlit("./");
    }
    match strip_prefix(path, "./") {
        Some(rest) => rest.to_owned(),
        None => path.to_owned(),
    }
}

fn needs_quotes(c: char) -> (r: bool)
    ensures
        r == is_special(c),
{
    is_whitespace(c) || c == ';' || c == '&' || c == '|' || c == '<' || c == '>' || c == '(' || c
        == ')' || c == '"' || c == '$' || c == '`' || c == '*' || c == '?' || c == '[' || c == ']'
        || c == '{' || c == '}' || c == '~' || c == '#' || c == '!' || c == '^' || c == '\'' || c
        == '\\'
}

/// `name` as messages show it: in single quotes when it has special
/// characters.
pub fn quote_for_display(name: &str) -> (r: String)
    ensures
        r@ == quoted(name@),
{
    let cs = chars_of(name);
    let mut special = false;
    let mut body = String::new();
    let mut i: usize = 0;
    assert(name@.take(0) =~= Seq::empty());
    while i < cs.len()
        invariant
            cs@ == name@,
            i <= cs@.len(),
            special == exists|j: int| 0 <= j < i && is_special(#[trigger] name@[j]),
            body@ == escaped(name@.take(i as int)),
        decreases cs@.len() - i,
    {
        let c = cs[i];
        proof {
            assert(name@.take(i + 1).drop_last() =~= name@.take(i as int));
            assert(name@.take(i + 1).last() == c);
        }
        if needs_quotes(c) {
            special = true;
            assert(is_special(name@[i as int]));
        }
        if c == '\'' {
            body.append("'\\''");
        } else {
            body.push(c);
            assert(body@ =~= escaped(name@.take(i as int)) + seq![c]);
        }
        i = i + 1;
    }
    assert(name@.take(i as int) =~= name@);
    if special {
        let mut s = "'".to_owned();
        s.append(body.as_str());
        s.append("'");
        s
    } else {
        name.to_owned()
    }
}

/// Whether a name has a newline, which no file is created with.
pub fn filename_is_invalid(name: &str) -> (r: bool)
    ensures
        r == name@.contains('\n'),
{
    contains_char(name, '\n')
}

} // verus!
