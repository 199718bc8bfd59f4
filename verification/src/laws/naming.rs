//! Which file a patch is about, and how names are written.
use vstd::prelude::*;

use crate::model::PatchModel;
use crate::options::OptionsModel;
use crate::paths::{
    base_of, chosen_name, climbs, escaped, is_dangerous, is_null, is_special, moved_target, quoted,
    seen_from, shown, stripped, stripped_opt, target_of, Whereabouts,
};
use crate::text::{
    has_prefix, has_suffix, is_white, law_join_undoes_split, lemma_split_on, lemma_split_on_last,
    lemma_split_on_step, split_on,
};

verus! {

// ---------------------------------------------------------------------------
// Stripping
// ---------------------------------------------------------------------------

/// Stripping takes off components from the front, one for each that is counted,
/// with the slash behind it: none leaves the path, and one more takes off the
/// first component of the path and strips the rest by one less. A path with no
/// slash left has nothing left. The null file keeps its name.
pub proof fn law_stripping_takes_off_components(first: Seq<char>, rest: Seq<char>, n: nat)
    requires
        !first.contains('/'),
    ensures
        first + seq!['/'] + rest != "/dev/null"@ && (n > 0 ==> rest != "/dev/null"@) ==> stripped(
            first + seq!['/'] + rest,
            n + 1,
        ) == stripped(rest, n),
        stripped(first, n + 1) == Seq::<char>::empty(),
        stripped(rest, 0) == rest,
        stripped("/dev/null"@, n) == "/dev/null"@,
{
    reveal_strlit("/");
    reveal_strlit("/dev/null");
    assert("/"@ =~= seq!['/']);
    let path = first + seq!['/'] + rest;
    assert(path =~= first.push('/') + rest);
    lemma_split_on_step(first, '/', rest);
    lemma_split_on(rest, '/');
    let parts = split_on(path, '/');
    let tail = split_on(rest, '/');
    assert(parts =~= seq![first] + tail);
    if n <= tail.len() {
        assert(parts.skip(n as int + 1) =~= tail.skip(n as int));
    }
    law_join_undoes_split(rest, '/');
    assert(tail.skip(0) =~= tail);
    lemma_split_on_last(first, '/');
    if is_null(first) {
        assert(first[0] == '/');
        assert(first.contains('/'));
    }
}

/// A strip count is obeyed; without one the last component is left, and the null
/// file keeps its name.
pub proof fn law_stripping_as_asked(dir: Seq<char>, name: Seq<char>, n: usize)
    requires
        !name.contains('/'),
    ensures
        stripped_opt(dir, Some(n)) == stripped(dir, n as nat),
        stripped_opt(name, None) == name,
        dir + seq!['/'] + name != "/dev/null"@ ==> stripped_opt(dir + seq!['/'] + name, None)
            == name,
        stripped_opt("/dev/null"@, None) == "/dev/null"@,
{
    let path = dir + seq!['/'] + name;
    lemma_split_on_last(name, '/');
    lemma_last_component(dir, name);
}

proof fn lemma_last_component(dir: Seq<char>, name: Seq<char>)
    requires
        !name.contains('/'),
    ensures
        split_on(dir + seq!['/'] + name, '/').len() > 0,
        split_on(dir + seq!['/'] + name, '/').last() == name,
    decreases dir.len(),
{
    let path = dir + seq!['/'] + name;
    if dir.contains('/') {
        let k = choose|k: int| 0 <= k < dir.len() && dir[k] == '/';
        lemma_first_slash(dir);
        let p = choose|p: int|
            0 <= p < dir.len() && dir[p] == '/' && !(#[trigger] dir.take(p)).contains('/');
        let first = dir.take(p);
        let more = dir.skip(p + 1);
        lemma_last_component(more, name);
        assert(path =~= first.push('/') + (more + seq!['/'] + name));
        lemma_split_on_step(first, '/', more + seq!['/'] + name);
        let rest = split_on(more + seq!['/'] + name, '/');
        assert((seq![first] + rest).last() == rest.last());
    } else {
        assert(path =~= dir.push('/') + name);
        lemma_split_on_step(dir, '/', name);
        lemma_split_on_last(name, '/');
        assert((seq![dir] + seq![name]).last() == name);
    }
}

proof fn lemma_first_slash(dir: Seq<char>)
    requires
        dir.contains('/'),
    ensures
        exists|p: int|
            0 <= p < dir.len() && dir[p] == '/' && !(#[trigger] dir.take(p)).contains('/'),
    decreases dir.len(),
{
    let k = choose|k: int| 0 <= k < dir.len() && dir[k] == '/';
    let head = dir.take(k);
    if head.contains('/') {
        lemma_first_slash(head);
        let p = choose|p: int|
            0 <= p < head.len() && head[p] == '/' && !(#[trigger] head.take(p)).contains('/');
        assert(head.take(p) =~= dir.take(p));
    }
}

// ---------------------------------------------------------------------------
// The file to change
// ---------------------------------------------------------------------------

/// A name is seen from the directory with one slash between them; a name from
/// the root stays as it is, and so does every name when there is no directory.
pub proof fn law_names_are_seen_from_the_directory(base: Seq<char>, path: Seq<char>)
    ensures
        path.len() > 0 && path[0] == '/' ==> seen_from(base, path) == path,
        base.len() == 0 ==> seen_from(base, path) == path,
        base.len() > 0 && base.last() == '/' && (path.len() == 0 || path[0] != '/') ==> seen_from(
            base,
            path,
        ) == base + path,
        base.len() > 0 && base.last() != '/' && (path.len() == 0 || path[0] != '/') ==> seen_from(
            base,
            path,
        ) == base + seq!['/'] + path,
{
    reveal_strlit("/");
    assert("/"@ =~= seq!['/']);
    if path.len() > 0 {
        assert(path.take(1)[0] == path[0]);
        if path[0] == '/' {
            assert(path.take(1) =~= "/"@);
        }
    }
    if base.len() > 0 {
        assert(base.skip(base.len() - 1)[0] == base.last());
        if base.last() == '/' {
            assert(base.skip(base.len() - 1) =~= "/"@);
        }
    }
}

/// File names are seen from the directory that is asked for, or from the working
/// directory.
pub proof fn law_directory_of_names(o: OptionsModel)
    ensures
        o.directory matches Some(dir) ==> base_of(o) == dir,
        o.directory is None ==> base_of(o) == seq!['.'],
{
    reveal_strlit(".");
    assert("."@ =~= seq!['.']);
}

/// Of the two names of a patch, the null file never counts. A name with `.orig`
/// behind the other's name is a backup, and the other counts. Else the old name
/// counts if its file is there, then the new name if its file is there, then the
/// old name, then the new one.
pub proof fn law_name_that_counts(
    base: Seq<char>,
    old: Seq<char>,
    new: Seq<char>,
    old_exists: bool,
    new_exists: bool,
)
    ensures
        ({
            let null = "/dev/null"@;
            let chosen = chosen_name(base, old, new, old_exists, new_exists);
            let backup = old == new + ".orig"@;
            let named = old != null && new != null && !backup;
            &&& old == null ==> chosen == seen_from(base, new)
            &&& old != null && new == null ==> chosen == seen_from(base, old)
            &&& old != null && new != null && backup ==> chosen == seen_from(base, new)
            &&& named && old.len() > 0 && old_exists ==> chosen == seen_from(base, old)
            &&& named && !(old.len() > 0 && old_exists) && new.len() > 0 && new_exists ==> chosen
                == seen_from(base, new)
            &&& named && !(old.len() > 0 && old_exists) && !(new.len() > 0 && new_exists)
                && old.len() > 0 ==> chosen == seen_from(base, old)
            &&& named && old.len() == 0 && new.len() > 0 ==> chosen == seen_from(base, new)
            &&& named && old.len() == 0 && new.len() == 0 ==> chosen == base
        }),
{
    reveal_strlit(".orig");
    assert(".orig"@.len() == 5);
    if old == new + ".orig"@ {
        assert(old.skip(old.len() - 5) =~= ".orig"@);
        assert(old.take(old.len() - 5) =~= new);
    }
    if has_suffix(old, ".orig"@) && old.take(old.len() - 5) == new {
        assert(old =~= new + ".orig"@);
    }
}

/// The file on the command line counts before all others, then where a rename
/// or a copy leads, then one of the two names of the patch, stripped.
pub proof fn law_file_to_change(p: PatchModel, o: OptionsModel, old_exists: bool, new_exists: bool)
    ensures
        o.positional_file matches Some(name) ==> target_of(p, o, old_exists, new_exists) == name,
        o.positional_file is None && p.git.rename_to is None && p.git.copy_to is None ==> target_of(
            p,
            o,
            old_exists,
            new_exists,
        ) == chosen_name(
            base_of(o),
            stripped_opt(p.old_file, o.strip),
            stripped_opt(p.new_file, o.strip),
            old_exists,
            new_exists,
        ),
        o.positional_file is None ==> (moved_target(p, o) matches Some(name) ==> target_of(
            p,
            o,
            old_exists,
            new_exists,
        ) == seen_from(base_of(o), name)),
{
}

/// The names that the patch itself gives come before those of the git header,
/// but in reverse the name that a rename or a copy starts from comes first: that
/// is what it leads back to.
pub proof fn law_where_a_move_leads(p: PatchModel, o: OptionsModel)
    ensures
        ({
            let null = "/dev/null"@;
            let to = if p.git.rename_to is Some {
                p.git.rename_to
            } else {
                p.git.copy_to
            };
            let from = if p.git.rename_from is Some {
                p.git.rename_from
            } else {
                p.git.copy_from
            };
            let old = stripped_opt(p.old_file, o.strip);
            let new = stripped_opt(p.new_file, o.strip);
            let has_old = old.len() > 0 && old != null;
            let has_new = new.len() > 0 && new != null;
            &&& to is None ==> moved_target(p, o) is None
            &&& to is Some && !o.on.reverse && has_new ==> moved_target(p, o) == Some(new)
            &&& to is Some && !o.on.reverse && !has_new ==> moved_target(p, o) == to
            &&& to is Some && o.on.reverse && from is Some ==> moved_target(p, o) == from
            &&& to is Some && o.on.reverse && from is None && has_old ==> moved_target(p, o)
                == Some(old)
            &&& to is Some && o.on.reverse && from is None && !has_old && has_new ==> moved_target(
                p,
                o,
            ) == Some(new)
            &&& to is Some && o.on.reverse && from is None && !has_old && !has_new ==> moved_target(
                p,
                o,
            ) == to
        }),
{
}

// ---------------------------------------------------------------------------
// Names that lead out
// ---------------------------------------------------------------------------

/// A name climbs if two dots stand between slashes in it, or before the first,
/// or behind the last.
pub proof fn law_climbing_names(first: Seq<char>, rest: Seq<char>)
    requires
        !first.contains('/'),
    ensures
        climbs(first) == (first == seq!['.', '.']),
        climbs(first + seq!['/'] + rest) == (first == seq!['.', '.'] || climbs(rest)),
{
    reveal_strlit("..");
    assert(".."@ =~= seq!['.', '.']);
    lemma_split_on_last(first, '/');
    lemma_split_on_step(first, '/', rest);
    assert(first + seq!['/'] + rest =~= first.push('/') + rest);
    let tail = split_on(rest, '/');
    let all = seq![first] + tail;
    assert(split_on(first, '/')[0] == first);
    if climbs(first) {
        let k = choose|k: int| 0 <= k < split_on(first, '/').len() && split_on(first, '/')[k]
            == ".."@;
        assert(k == 0);
    }
    if climbs(first + seq!['/'] + rest) {
        let k = choose|k: int| 0 <= k < all.len() && all[k] == ".."@;
        if k > 0 {
            assert(tail[k - 1] == ".."@);
        }
    }
    if climbs(rest) {
        let k = choose|k: int| 0 <= k < tail.len() && tail[k] == ".."@;
        assert(all[k + 1] == ".."@);
    }
    assert(all[0] == first);
}

/// A name leads out of the working directory: one that is not from the root, if
/// it climbs; one from the root, if its file lies elsewhere, or if it has no
/// file and is not written as a path below the working directory. The empty name
/// and the null file never do, and nothing leads out of the root.
pub proof fn law_names_that_lead_out(path: Seq<char>, place: Whereabouts, cwd: Option<Seq<char>>)
    ensures
        path.len() == 0 || path == "/dev/null"@ ==> !is_dangerous(path, place, cwd),
        path.len() > 0 && path[0] != '/' ==> is_dangerous(path, place, cwd) == climbs(path),
        path.len() > 0 && path[0] == '/' && path != "/dev/null"@ ==> is_dangerous(path, place, cwd)
            == match place {
            Whereabouts::Below => false,
            Whereabouts::Outside => cwd != Some(seq!['/']),
            Whereabouts::Missing => cwd != Some(seq!['/']) && !(cwd matches Some(dir) && has_prefix(
                path,
                dir + seq!['/'],
            ) && !climbs(path)),
        },
{
    reveal_strlit("/");
    reveal_strlit("/dev/null");
    assert("/"@ =~= seq!['/']);
    assert("/dev/null"@[0] == '/');
    if path.len() > 0 {
        assert(path.take(1)[0] == path[0]);
        if path[0] == '/' {
            assert(path.take(1) =~= "/"@);
        }
    }
}

// ---------------------------------------------------------------------------
// Names as they are shown
// ---------------------------------------------------------------------------

/// A name is shown without the working directory in front.
pub proof fn law_names_are_shown_without_the_working_directory(s: Seq<char>)
    ensures
        shown(seq!['.', '/'] + s) == s,
        s.len() < 2 || s[0] != '.' || s[1] != '/' ==> shown(s) == s,
{
    reveal_strlit("./");
    assert("./"@ =~= seq!['.', '/']);
    assert((seq!['.', '/'] + s).take(2) =~= "./"@);
    assert((seq!['.', '/'] + s).skip(2) =~= s);
    if s.len() >= 2 {
        assert(s.take(2)[0] == s[0] && s.take(2)[1] == s[1]);
    }
}

/// A character that stands for itself in a name: a letter, a digit, or one of
/// the signs that a shell reads as they are.
pub open spec fn is_plain(c: char) -> bool {
    ||| 'a' <= c <= 'z'
    ||| 'A' <= c <= 'Z'
    ||| '0' <= c <= '9'
    ||| c == '/' || c == '.' || c == '_' || c == '-' || c == '+' || c == ',' || c == ':' || c == '='
        || c == '@' || c == '%'
}

/// A name of plain characters is shown as it is. One with a blank or with a sign
/// that a shell reads in another way is shown in single quotes, and a single
/// quote in it is closed, escaped and opened again.
pub proof fn law_names_in_quotes(name: Seq<char>, k: int, s: Seq<char>, c: char)
    ensures
        (forall|i: int| 0 <= i < name.len() ==> is_plain(#[trigger] name[i])) ==> quoted(name)
            == name,
        0 <= k < name.len() && is_quoted_sign(name[k]) ==> quoted(name) == seq!['\''] + escaped(
            name,
        ) + seq!['\''],
        escaped(Seq::empty()) == Seq::<char>::empty(),
        c != '\'' ==> escaped(s.push(c)) == escaped(s).push(c),
        escaped(s.push('\'')) == escaped(s) + seq!['\'', '\\', '\'', '\''],
{
    reveal_strlit("'");
    reveal_strlit("'\\''");
    assert("'"@ =~= seq!['\'']);
    assert("'\\''"@ =~= seq!['\'', '\\', '\'', '\'']);
    assert(s.push(c).drop_last() =~= s);
    assert(s.push('\'').drop_last() =~= s);
    if c != '\'' {
        assert(escaped(s) + seq![c] =~= escaped(s).push(c));
    }
    if 0 <= k < name.len() && is_quoted_sign(name[k]) {
        assert(is_special(name[k]));
    }
    if forall|i: int| 0 <= i < name.len() ==> is_plain(#[trigger] name[i]) {
        assert forall|i: int| 0 <= i < name.len() implies !is_special(#[trigger] name[i]) by {
            assert(is_plain(name[i]));
        }
    }
}

/// A character that makes a name be shown in quotes.
pub open spec fn is_quoted_sign(c: char) -> bool {
    ||| is_white(c)
    ||| c == '\'' || c == '"' || c == '\\' || c == '$' || c == '`' || c == '*' || c == '?' || c
        == '[' || c == ']' || c == '{' || c == '}' || c == '(' || c == ')' || c == '<' || c == '>'
        || c == '&' || c == '|' || c == ';' || c == '~' || c == '#' || c == '!' || c == '^'
}

} // verus!
