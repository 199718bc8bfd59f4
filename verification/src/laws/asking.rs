//! What each argument of the command line asks for.
use vstd::prelude::*;

use crate::number::{decimal, lemma_decimal_reads_back, parsed, unsigned_part};
use crate::options::{
    arg_step, args_from, awaits_value, carries_value, flag_named, law_letters_are_flags,
    no_options, with_flag, with_letters, Flag, OptionsModel, ReadOnlyMode, StopModel, Switches,
    Valued,
};
use crate::text::has_prefix;

verus! {

// ---------------------------------------------------------------------------
// Spellings
// ---------------------------------------------------------------------------

/// One argument after the other is read.
proof fn lemma_args_step(args: Seq<Seq<char>>, i: int, o: OptionsModel)
    requires
        0 <= i < args.len(),
    ensures
        match arg_step(args, i, o) {
            Err(e) => args_from(args, i, o) == Err::<OptionsModel, _>(e),
            Ok((o2, next)) => i < next ==> args_from(args, i, o) == args_from(
                args,
                if next < args.len() {
                    next
                } else {
                    args.len() as int
                },
                o2,
            ),
        },
        forall|o2: OptionsModel| #[trigger]
            args_from(args, args.len() as int, o2) == Ok::<_, StopModel>(o2),
{
}

/// The names of the options whose value is the next argument.
proof fn lemma_names_before_values()
    ensures
        awaits_value("-p"@) == Some(Valued::Strip),
        awaits_value("--strip"@) == Some(Valued::Strip),
        awaits_value("-d"@) == Some(Valued::Directory),
        awaits_value("--directory"@) == Some(Valued::Directory),
        awaits_value("-i"@) == Some(Valued::Input),
        awaits_value("--input"@) == Some(Valued::Input),
        awaits_value("-o"@) == Some(Valued::Output),
        awaits_value("--output"@) == Some(Valued::Output),
        awaits_value("-F"@) == Some(Valued::Fuzz),
        awaits_value("--fuzz"@) == Some(Valued::Fuzz),
        awaits_value("-B"@) == Some(Valued::Prefix),
        awaits_value("--prefix"@) == Some(Valued::Prefix),
        awaits_value("--backup-prefix"@) == Some(Valued::Prefix),
        awaits_value("-z"@) == Some(Valued::Suffix),
        awaits_value("--suffix"@) == Some(Valued::Suffix),
        awaits_value("--backup-suffix"@) == Some(Valued::Suffix),
        awaits_value("-Y"@) == Some(Valued::BasenamePrefix),
        awaits_value("--basename-prefix"@) == Some(Valued::BasenamePrefix),
        awaits_value("-V"@) == Some(Valued::VersionControl),
        awaits_value("--version-control"@) == Some(Valued::VersionControl),
        awaits_value("-r"@) == Some(Valued::RejectFile),
        awaits_value("--reject-file"@) == Some(Valued::RejectFile),
        "-p"@ != "--version"@ && "-p"@ != "--"@,
        "--strip"@ != "--version"@ && "--strip"@ != "--"@,
        "-d"@ != "--version"@ && "-d"@ != "--"@,
        "--directory"@ != "--version"@ && "--directory"@ != "--"@,
        "-i"@ != "--version"@ && "-i"@ != "--"@,
        "--input"@ != "--version"@ && "--input"@ != "--"@,
        "-o"@ != "--version"@ && "-o"@ != "--"@,
        "--output"@ != "--version"@ && "--output"@ != "--"@,
        "-F"@ != "--version"@ && "-F"@ != "--"@,
        "--fuzz"@ != "--version"@ && "--fuzz"@ != "--"@,
        "-B"@ != "--version"@ && "-B"@ != "--"@,
        "--prefix"@ != "--version"@ && "--prefix"@ != "--"@,
        "--backup-prefix"@ != "--version"@ && "--backup-prefix"@ != "--"@,
        "-z"@ != "--version"@ && "-z"@ != "--"@,
        "--suffix"@ != "--version"@ && "--suffix"@ != "--"@,
        "--backup-suffix"@ != "--version"@ && "--backup-suffix"@ != "--"@,
        "-Y"@ != "--version"@ && "-Y"@ != "--"@,
        "--basename-prefix"@ != "--version"@ && "--basename-prefix"@ != "--"@,
        "-V"@ != "--version"@ && "-V"@ != "--"@,
        "--version-control"@ != "--version"@ && "--version-control"@ != "--"@,
        "-r"@ != "--version"@ && "-r"@ != "--"@,
        "--reject-file"@ != "--version"@ && "--reject-file"@ != "--"@,
{
    reveal_strlit("--version");
    reveal_strlit("--");
    reveal_strlit("-p");
    reveal_strlit("--strip");
    reveal_strlit("-d");
    reveal_strlit("--directory");
    reveal_strlit("-i");
    reveal_strlit("--input");
    reveal_strlit("-o");
    reveal_strlit("--output");
    reveal_strlit("-F");
    reveal_strlit("--fuzz");
    reveal_strlit("-B");
    reveal_strlit("--prefix");
    reveal_strlit("--backup-prefix");
    reveal_strlit("-z");
    reveal_strlit("--suffix");
    reveal_strlit("--backup-suffix");
    reveal_strlit("-Y");
    reveal_strlit("--basename-prefix");
    reveal_strlit("-V");
    reveal_strlit("--version-control");
    reveal_strlit("-r");
    reveal_strlit("--reject-file");
    assert("--version"@.len() == 9 && "--version"@[1] == '-' && "--version"@[2] == 'v' && "--version"@[3] == 'e' && "--version"@[4] == 'r' && "--version"@[5] == 's' && "--version"@[6] == 'i' && "--version"@[7] == 'o' && "--version"@[8] == 'n');
    assert("--"@.len() == 2 && "--"@[1] == '-');
    assert("-p"@.len() == 2 && "-p"@[1] == 'p');
    assert("--strip"@.len() == 7 && "--strip"@[1] == '-' && "--strip"@[2] == 's' && "--strip"@[3] == 't' && "--strip"@[4] == 'r' && "--strip"@[5] == 'i' && "--strip"@[6] == 'p');
    assert("-d"@.len() == 2 && "-d"@[1] == 'd');
    assert("--directory"@.len() == 11 && "--directory"@[1] == '-' && "--directory"@[2] == 'd' && "--directory"@[3] == 'i' && "--directory"@[4] == 'r' && "--directory"@[5] == 'e' && "--directory"@[6] == 'c' && "--directory"@[7] == 't' && "--directory"@[8] == 'o' && "--directory"@[9] == 'r' && "--directory"@[10] == 'y');
    assert("-i"@.len() == 2 && "-i"@[1] == 'i');
    assert("--input"@.len() == 7 && "--input"@[1] == '-' && "--input"@[2] == 'i' && "--input"@[3] == 'n' && "--input"@[4] == 'p' && "--input"@[5] == 'u' && "--input"@[6] == 't');
    assert("-o"@.len() == 2 && "-o"@[1] == 'o');
    assert("--output"@.len() == 8 && "--output"@[1] == '-' && "--output"@[2] == 'o' && "--output"@[3] == 'u' && "--output"@[4] == 't' && "--output"@[5] == 'p' && "--output"@[6] == 'u' && "--output"@[7] == 't');
    assert("-F"@.len() == 2 && "-F"@[1] == 'F');
    assert("--fuzz"@.len() == 6 && "--fuzz"@[1] == '-' && "--fuzz"@[2] == 'f' && "--fuzz"@[3] == 'u' && "--fuzz"@[4] == 'z' && "--fuzz"@[5] == 'z');
    assert("-B"@.len() == 2 && "-B"@[1] == 'B');
    assert("--prefix"@.len() == 8 && "--prefix"@[1] == '-' && "--prefix"@[2] == 'p' && "--prefix"@[3] == 'r' && "--prefix"@[4] == 'e' && "--prefix"@[5] == 'f' && "--prefix"@[6] == 'i' && "--prefix"@[7] == 'x');
    assert("--backup-prefix"@.len() == 15 && "--backup-prefix"@[1] == '-' && "--backup-prefix"@[2] == 'b' && "--backup-prefix"@[3] == 'a' && "--backup-prefix"@[4] == 'c' && "--backup-prefix"@[5] == 'k' && "--backup-prefix"@[6] == 'u' && "--backup-prefix"@[7] == 'p' && "--backup-prefix"@[8] == '-' && "--backup-prefix"@[9] == 'p' && "--backup-prefix"@[10] == 'r' && "--backup-prefix"@[11] == 'e');
    assert("-z"@.len() == 2 && "-z"@[1] == 'z');
    assert("--suffix"@.len() == 8 && "--suffix"@[1] == '-' && "--suffix"@[2] == 's' && "--suffix"@[3] == 'u' && "--suffix"@[4] == 'f' && "--suffix"@[5] == 'f' && "--suffix"@[6] == 'i' && "--suffix"@[7] == 'x');
    assert("--backup-suffix"@.len() == 15 && "--backup-suffix"@[1] == '-' && "--backup-suffix"@[2] == 'b' && "--backup-suffix"@[3] == 'a' && "--backup-suffix"@[4] == 'c' && "--backup-suffix"@[5] == 'k' && "--backup-suffix"@[6] == 'u' && "--backup-suffix"@[7] == 'p' && "--backup-suffix"@[8] == '-' && "--backup-suffix"@[9] == 's' && "--backup-suffix"@[10] == 'u' && "--backup-suffix"@[11] == 'f');
    assert("-Y"@.len() == 2 && "-Y"@[1] == 'Y');
    assert("--basename-prefix"@.len() == 17 && "--basename-prefix"@[1] == '-' && "--basename-prefix"@[2] == 'b' && "--basename-prefix"@[3] == 'a' && "--basename-prefix"@[4] == 's' && "--basename-prefix"@[5] == 'e' && "--basename-prefix"@[6] == 'n' && "--basename-prefix"@[7] == 'a' && "--basename-prefix"@[8] == 'm' && "--basename-prefix"@[9] == 'e' && "--basename-prefix"@[10] == '-' && "--basename-prefix"@[11] == 'p');
    assert("-V"@.len() == 2 && "-V"@[1] == 'V');
    assert("--version-control"@.len() == 17 && "--version-control"@[1] == '-' && "--version-control"@[2] == 'v' && "--version-control"@[3] == 'e' && "--version-control"@[4] == 'r' && "--version-control"@[5] == 's' && "--version-control"@[6] == 'i' && "--version-control"@[7] == 'o' && "--version-control"@[8] == 'n' && "--version-control"@[9] == '-' && "--version-control"@[10] == 'c' && "--version-control"@[11] == 'o');
    assert("-r"@.len() == 2 && "-r"@[1] == 'r');
    assert("--reject-file"@.len() == 13 && "--reject-file"@[1] == '-' && "--reject-file"@[2] == 'r' && "--reject-file"@[3] == 'e' && "--reject-file"@[4] == 'j' && "--reject-file"@[5] == 'e' && "--reject-file"@[6] == 'c' && "--reject-file"@[7] == 't' && "--reject-file"@[8] == '-' && "--reject-file"@[9] == 'f' && "--reject-file"@[10] == 'i' && "--reject-file"@[11] == 'l');
}

/// An argument with an equals sign is none of the names that have none.
proof fn lemma_equals_sign(arg: Seq<char>, k: int)
    requires
        0 <= k < arg.len(),
        arg[k] == '=',
    ensures
        arg != "--version"@ && arg != "--"@ && arg != "--merge"@,
        awaits_value(arg) is None,
{
    reveal_strlit("--version");
    reveal_strlit("--");
    reveal_strlit("--merge");
    reveal_strlit("-p");
    reveal_strlit("--strip");
    reveal_strlit("-d");
    reveal_strlit("--directory");
    reveal_strlit("-i");
    reveal_strlit("--input");
    reveal_strlit("-o");
    reveal_strlit("--output");
    reveal_strlit("-F");
    reveal_strlit("--fuzz");
    reveal_strlit("-B");
    reveal_strlit("--prefix");
    reveal_strlit("--backup-prefix");
    reveal_strlit("-z");
    reveal_strlit("--suffix");
    reveal_strlit("--backup-suffix");
    reveal_strlit("-Y");
    reveal_strlit("--basename-prefix");
    reveal_strlit("-V");
    reveal_strlit("--version-control");
    reveal_strlit("-r");
    reveal_strlit("--reject-file");
}

/// An argument without an equals sign holds no value, unless it begins with one
/// of two letters.
proof fn lemma_no_equals_sign(arg: Seq<char>)
    requires
        forall|k: int| 0 <= k < arg.len() ==> arg[k] != '=',
        arg.len() < 2 || (arg[1] != 'p' && arg[1] != 'F'),
    ensures
        carries_value(arg) is None,
        !has_prefix(arg, "--merge="@),
{
    reveal_strlit("--strip=");
    reveal_strlit("-p");
    reveal_strlit("--directory=");
    reveal_strlit("--input=");
    reveal_strlit("--output=");
    reveal_strlit("--fuzz=");
    reveal_strlit("-F");
    reveal_strlit("--prefix=");
    reveal_strlit("--backup-prefix=");
    reveal_strlit("--suffix=");
    reveal_strlit("--backup-suffix=");
    reveal_strlit("--basename-prefix=");
    reveal_strlit("--version-control=");
    reveal_strlit("--reject-file=");
    reveal_strlit("--reject-format=");
    reveal_strlit("--read-only=");
    reveal_strlit("--merge=");
    if has_prefix(arg, "--strip="@) {
        assert(arg.take(8)[7] == arg[7]);
    }
    if has_prefix(arg, "--directory="@) {
        assert(arg.take(12)[11] == arg[11]);
    }
    if has_prefix(arg, "--input="@) {
        assert(arg.take(8)[7] == arg[7]);
    }
    if has_prefix(arg, "--output="@) {
        assert(arg.take(9)[8] == arg[8]);
    }
    if has_prefix(arg, "--fuzz="@) {
        assert(arg.take(7)[6] == arg[6]);
    }
    if has_prefix(arg, "--prefix="@) {
        assert(arg.take(9)[8] == arg[8]);
    }
    if has_prefix(arg, "--backup-prefix="@) {
        assert(arg.take(16)[15] == arg[15]);
    }
    if has_prefix(arg, "--suffix="@) {
        assert(arg.take(9)[8] == arg[8]);
    }
    if has_prefix(arg, "--backup-suffix="@) {
        assert(arg.take(16)[15] == arg[15]);
    }
    if has_prefix(arg, "--basename-prefix="@) {
        assert(arg.take(18)[17] == arg[17]);
    }
    if has_prefix(arg, "--version-control="@) {
        assert(arg.take(18)[17] == arg[17]);
    }
    if has_prefix(arg, "--reject-file="@) {
        assert(arg.take(14)[13] == arg[13]);
    }
    if has_prefix(arg, "--reject-format="@) {
        assert(arg.take(16)[15] == arg[15]);
    }
    if has_prefix(arg, "--read-only="@) {
        assert(arg.take(12)[11] == arg[11]);
    }
    if has_prefix(arg, "--merge="@) {
        assert(arg.take(8)[7] == arg[7]);
    }
    if has_prefix(arg, "-p"@) {
        assert(arg.take(2)[1] == arg[1]);
    }
    if has_prefix(arg, "-F"@) {
        assert(arg.take(2)[1] == arg[1]);
    }
}

/// The argument does not begin with a text that it differs from.
proof fn lemma_no_prefix(arg: Seq<char>, p: Seq<char>, k: int)
    requires
        0 <= k < arg.len(),
        0 <= k < p.len(),
        arg[k] != p[k],
    ensures
        !has_prefix(arg, p),
{
    if has_prefix(arg, p) {
        assert(arg.take(p.len() as int)[k] == arg[k]);
    }
}

/// The options that hold their value.
proof fn lemma_names_with_values(v: Seq<char>)
    ensures
        carries_value("--strip="@ + v) == Some((Valued::Strip, "--strip="@.len())),
        v.len() > 0 ==> carries_value("-p"@ + v) == Some((Valued::Strip, "-p"@.len())),
        carries_value("--directory="@ + v) == Some((Valued::Directory, "--directory="@.len())),
        carries_value("--input="@ + v) == Some((Valued::Input, "--input="@.len())),
        carries_value("--output="@ + v) == Some((Valued::Output, "--output="@.len())),
        carries_value("--fuzz="@ + v) == Some((Valued::Fuzz, "--fuzz="@.len())),
        v.len() > 0 ==> carries_value("-F"@ + v) == Some((Valued::Fuzz, "-F"@.len())),
        carries_value("--prefix="@ + v) == Some((Valued::Prefix, "--prefix="@.len())),
        carries_value("--backup-prefix="@ + v) == Some((Valued::Prefix, "--backup-prefix="@.len())),
        carries_value("--suffix="@ + v) == Some((Valued::Suffix, "--suffix="@.len())),
        carries_value("--backup-suffix="@ + v) == Some((Valued::Suffix, "--backup-suffix="@.len())),
        carries_value("--basename-prefix="@ + v) == Some((Valued::BasenamePrefix, "--basename-prefix="@.len())),
        carries_value("--version-control="@ + v) == Some((Valued::VersionControl, "--version-control="@.len())),
        carries_value("--reject-file="@ + v) == Some((Valued::RejectFile, "--reject-file="@.len())),
        carries_value("--reject-format="@ + v) == Some((Valued::RejectFormat, "--reject-format="@.len())),
        carries_value("--read-only="@ + v) == Some((Valued::ReadOnly, "--read-only="@.len())),
{
    reveal_strlit("--strip=");
    reveal_strlit("-p");
    reveal_strlit("--directory=");
    reveal_strlit("--input=");
    reveal_strlit("--output=");
    reveal_strlit("--fuzz=");
    reveal_strlit("-F");
    reveal_strlit("--prefix=");
    reveal_strlit("--backup-prefix=");
    reveal_strlit("--suffix=");
    reveal_strlit("--backup-suffix=");
    reveal_strlit("--basename-prefix=");
    reveal_strlit("--version-control=");
    reveal_strlit("--reject-file=");
    reveal_strlit("--reject-format=");
    reveal_strlit("--read-only=");
    assert(("--strip="@ + v).take(8) =~= "--strip="@);
    assert(("-p"@ + v).take(2) =~= "-p"@);
    lemma_no_prefix("-p"@ + v, "--strip="@, 1);
    assert(("--directory="@ + v).take(12) =~= "--directory="@);
    lemma_no_prefix("--directory="@ + v, "--strip="@, 2);
    lemma_no_prefix("--directory="@ + v, "-p"@, 1);
    assert(("--input="@ + v).take(8) =~= "--input="@);
    lemma_no_prefix("--input="@ + v, "--strip="@, 2);
    lemma_no_prefix("--input="@ + v, "-p"@, 1);
    lemma_no_prefix("--input="@ + v, "--directory="@, 2);
    assert(("--output="@ + v).take(9) =~= "--output="@);
    lemma_no_prefix("--output="@ + v, "--strip="@, 2);
    lemma_no_prefix("--output="@ + v, "-p"@, 1);
    lemma_no_prefix("--output="@ + v, "--directory="@, 2);
    lemma_no_prefix("--output="@ + v, "--input="@, 2);
    assert(("--fuzz="@ + v).take(7) =~= "--fuzz="@);
    lemma_no_prefix("--fuzz="@ + v, "--strip="@, 2);
    lemma_no_prefix("--fuzz="@ + v, "-p"@, 1);
    lemma_no_prefix("--fuzz="@ + v, "--directory="@, 2);
    lemma_no_prefix("--fuzz="@ + v, "--input="@, 2);
    lemma_no_prefix("--fuzz="@ + v, "--output="@, 2);
    assert(("-F"@ + v).take(2) =~= "-F"@);
    lemma_no_prefix("-F"@ + v, "--strip="@, 1);
    lemma_no_prefix("-F"@ + v, "-p"@, 1);
    lemma_no_prefix("-F"@ + v, "--directory="@, 1);
    lemma_no_prefix("-F"@ + v, "--input="@, 1);
    lemma_no_prefix("-F"@ + v, "--output="@, 1);
    lemma_no_prefix("-F"@ + v, "--fuzz="@, 1);
    assert(("--prefix="@ + v).take(9) =~= "--prefix="@);
    lemma_no_prefix("--prefix="@ + v, "--strip="@, 2);
    lemma_no_prefix("--prefix="@ + v, "-p"@, 1);
    lemma_no_prefix("--prefix="@ + v, "--directory="@, 2);
    lemma_no_prefix("--prefix="@ + v, "--input="@, 2);
    lemma_no_prefix("--prefix="@ + v, "--output="@, 2);
    lemma_no_prefix("--prefix="@ + v, "--fuzz="@, 2);
    lemma_no_prefix("--prefix="@ + v, "-F"@, 1);
    assert(("--backup-prefix="@ + v).take(16) =~= "--backup-prefix="@);
    lemma_no_prefix("--backup-prefix="@ + v, "--strip="@, 2);
    lemma_no_prefix("--backup-prefix="@ + v, "-p"@, 1);
    lemma_no_prefix("--backup-prefix="@ + v, "--directory="@, 2);
    lemma_no_prefix("--backup-prefix="@ + v, "--input="@, 2);
    lemma_no_prefix("--backup-prefix="@ + v, "--output="@, 2);
    lemma_no_prefix("--backup-prefix="@ + v, "--fuzz="@, 2);
    lemma_no_prefix("--backup-prefix="@ + v, "-F"@, 1);
    lemma_no_prefix("--backup-prefix="@ + v, "--prefix="@, 2);
    assert(("--suffix="@ + v).take(9) =~= "--suffix="@);
    lemma_no_prefix("--suffix="@ + v, "--strip="@, 3);
    lemma_no_prefix("--suffix="@ + v, "-p"@, 1);
    lemma_no_prefix("--suffix="@ + v, "--directory="@, 2);
    lemma_no_prefix("--suffix="@ + v, "--input="@, 2);
    lemma_no_prefix("--suffix="@ + v, "--output="@, 2);
    lemma_no_prefix("--suffix="@ + v, "--fuzz="@, 2);
    lemma_no_prefix("--suffix="@ + v, "-F"@, 1);
    lemma_no_prefix("--suffix="@ + v, "--prefix="@, 2);
    lemma_no_prefix("--suffix="@ + v, "--backup-prefix="@, 2);
    assert(("--backup-suffix="@ + v).take(16) =~= "--backup-suffix="@);
    lemma_no_prefix("--backup-suffix="@ + v, "--strip="@, 2);
    lemma_no_prefix("--backup-suffix="@ + v, "-p"@, 1);
    lemma_no_prefix("--backup-suffix="@ + v, "--directory="@, 2);
    lemma_no_prefix("--backup-suffix="@ + v, "--input="@, 2);
    lemma_no_prefix("--backup-suffix="@ + v, "--output="@, 2);
    lemma_no_prefix("--backup-suffix="@ + v, "--fuzz="@, 2);
    lemma_no_prefix("--backup-suffix="@ + v, "-F"@, 1);
    lemma_no_prefix("--backup-suffix="@ + v, "--prefix="@, 2);
    lemma_no_prefix("--backup-suffix="@ + v, "--backup-prefix="@, 9);
    lemma_no_prefix("--backup-suffix="@ + v, "--suffix="@, 2);
    assert(("--basename-prefix="@ + v).take(18) =~= "--basename-prefix="@);
    lemma_no_prefix("--basename-prefix="@ + v, "--strip="@, 2);
    lemma_no_prefix("--basename-prefix="@ + v, "-p"@, 1);
    lemma_no_prefix("--basename-prefix="@ + v, "--directory="@, 2);
    lemma_no_prefix("--basename-prefix="@ + v, "--input="@, 2);
    lemma_no_prefix("--basename-prefix="@ + v, "--output="@, 2);
    lemma_no_prefix("--basename-prefix="@ + v, "--fuzz="@, 2);
    lemma_no_prefix("--basename-prefix="@ + v, "-F"@, 1);
    lemma_no_prefix("--basename-prefix="@ + v, "--prefix="@, 2);
    lemma_no_prefix("--basename-prefix="@ + v, "--backup-prefix="@, 4);
    lemma_no_prefix("--basename-prefix="@ + v, "--suffix="@, 2);
    lemma_no_prefix("--basename-prefix="@ + v, "--backup-suffix="@, 4);
    assert(("--version-control="@ + v).take(18) =~= "--version-control="@);
    lemma_no_prefix("--version-control="@ + v, "--strip="@, 2);
    lemma_no_prefix("--version-control="@ + v, "-p"@, 1);
    lemma_no_prefix("--version-control="@ + v, "--directory="@, 2);
    lemma_no_prefix("--version-control="@ + v, "--input="@, 2);
    lemma_no_prefix("--version-control="@ + v, "--output="@, 2);
    lemma_no_prefix("--version-control="@ + v, "--fuzz="@, 2);
    lemma_no_prefix("--version-control="@ + v, "-F"@, 1);
    lemma_no_prefix("--version-control="@ + v, "--prefix="@, 2);
    lemma_no_prefix("--version-control="@ + v, "--backup-prefix="@, 2);
    lemma_no_prefix("--version-control="@ + v, "--suffix="@, 2);
    lemma_no_prefix("--version-control="@ + v, "--backup-suffix="@, 2);
    lemma_no_prefix("--version-control="@ + v, "--basename-prefix="@, 2);
    assert(("--reject-file="@ + v).take(14) =~= "--reject-file="@);
    lemma_no_prefix("--reject-file="@ + v, "--strip="@, 2);
    lemma_no_prefix("--reject-file="@ + v, "-p"@, 1);
    lemma_no_prefix("--reject-file="@ + v, "--directory="@, 2);
    lemma_no_prefix("--reject-file="@ + v, "--input="@, 2);
    lemma_no_prefix("--reject-file="@ + v, "--output="@, 2);
    lemma_no_prefix("--reject-file="@ + v, "--fuzz="@, 2);
    lemma_no_prefix("--reject-file="@ + v, "-F"@, 1);
    lemma_no_prefix("--reject-file="@ + v, "--prefix="@, 2);
    lemma_no_prefix("--reject-file="@ + v, "--backup-prefix="@, 2);
    lemma_no_prefix("--reject-file="@ + v, "--suffix="@, 2);
    lemma_no_prefix("--reject-file="@ + v, "--backup-suffix="@, 2);
    lemma_no_prefix("--reject-file="@ + v, "--basename-prefix="@, 2);
    lemma_no_prefix("--reject-file="@ + v, "--version-control="@, 2);
    assert(("--reject-format="@ + v).take(16) =~= "--reject-format="@);
    lemma_no_prefix("--reject-format="@ + v, "--strip="@, 2);
    lemma_no_prefix("--reject-format="@ + v, "-p"@, 1);
    lemma_no_prefix("--reject-format="@ + v, "--directory="@, 2);
    lemma_no_prefix("--reject-format="@ + v, "--input="@, 2);
    lemma_no_prefix("--reject-format="@ + v, "--output="@, 2);
    lemma_no_prefix("--reject-format="@ + v, "--fuzz="@, 2);
    lemma_no_prefix("--reject-format="@ + v, "-F"@, 1);
    lemma_no_prefix("--reject-format="@ + v, "--prefix="@, 2);
    lemma_no_prefix("--reject-format="@ + v, "--backup-prefix="@, 2);
    lemma_no_prefix("--reject-format="@ + v, "--suffix="@, 2);
    lemma_no_prefix("--reject-format="@ + v, "--backup-suffix="@, 2);
    lemma_no_prefix("--reject-format="@ + v, "--basename-prefix="@, 2);
    lemma_no_prefix("--reject-format="@ + v, "--version-control="@, 2);
    lemma_no_prefix("--reject-format="@ + v, "--reject-file="@, 10);
    assert(("--read-only="@ + v).take(12) =~= "--read-only="@);
    lemma_no_prefix("--read-only="@ + v, "--strip="@, 2);
    lemma_no_prefix("--read-only="@ + v, "-p"@, 1);
    lemma_no_prefix("--read-only="@ + v, "--directory="@, 2);
    lemma_no_prefix("--read-only="@ + v, "--input="@, 2);
    lemma_no_prefix("--read-only="@ + v, "--output="@, 2);
    lemma_no_prefix("--read-only="@ + v, "--fuzz="@, 2);
    lemma_no_prefix("--read-only="@ + v, "-F"@, 1);
    lemma_no_prefix("--read-only="@ + v, "--prefix="@, 2);
    lemma_no_prefix("--read-only="@ + v, "--backup-prefix="@, 2);
    lemma_no_prefix("--read-only="@ + v, "--suffix="@, 2);
    lemma_no_prefix("--read-only="@ + v, "--backup-suffix="@, 2);
    lemma_no_prefix("--read-only="@ + v, "--basename-prefix="@, 2);
    lemma_no_prefix("--read-only="@ + v, "--version-control="@, 2);
    lemma_no_prefix("--read-only="@ + v, "--reject-file="@, 4);
    lemma_no_prefix("--read-only="@ + v, "--reject-format="@, 4);
}

/// The name of a flag and of nothing else.
spec fn names_flag(arg: Seq<char>, f: Flag) -> bool {
    &&& arg != "--version"@ && arg != "--"@ && arg != "--merge"@
    &&& awaits_value(arg) is None
    &&& flag_named(arg) == Some(f)
    &&& forall|k: int| 0 <= k < arg.len() ==> arg[k] != '='
    &&& arg.len() >= 2 && arg[1] != 'p' && arg[1] != 'F'
}

/// The names of the first flags.
proof fn lemma_first_flags()
    ensures
        names_flag("-R"@, Flag::Reverse),
        names_flag("--reverse"@, Flag::Reverse),
        names_flag("--dry-run"@, Flag::DryRun),
        names_flag("-s"@, Flag::Silent),
        names_flag("--quiet"@, Flag::Silent),
        names_flag("--silent"@, Flag::Silent),
        names_flag("-v"@, Flag::Verbose),
        names_flag("--verbose"@, Flag::Verbose),
        names_flag("-N"@, Flag::Forward),
        names_flag("--forward"@, Flag::Forward),
        names_flag("-b"@, Flag::Backup),
        names_flag("--backup"@, Flag::Backup),
{
    reveal_strlit("--version");
    reveal_strlit("--");
    reveal_strlit("--merge");
    reveal_strlit("-p");
    reveal_strlit("--strip");
    reveal_strlit("-d");
    reveal_strlit("--directory");
    reveal_strlit("-i");
    reveal_strlit("--input");
    reveal_strlit("-o");
    reveal_strlit("--output");
    reveal_strlit("-F");
    reveal_strlit("--fuzz");
    reveal_strlit("-B");
    reveal_strlit("--prefix");
    reveal_strlit("--backup-prefix");
    reveal_strlit("-z");
    reveal_strlit("--suffix");
    reveal_strlit("--backup-suffix");
    reveal_strlit("-Y");
    reveal_strlit("--basename-prefix");
    reveal_strlit("-V");
    reveal_strlit("--version-control");
    reveal_strlit("-r");
    reveal_strlit("--reject-file");
    reveal_strlit("-R");
    reveal_strlit("--reverse");
    reveal_strlit("--dry-run");
    reveal_strlit("-s");
    reveal_strlit("--quiet");
    reveal_strlit("--silent");
    reveal_strlit("-v");
    reveal_strlit("--verbose");
    reveal_strlit("-N");
    reveal_strlit("--forward");
    reveal_strlit("-b");
    reveal_strlit("--backup");
    reveal_strlit("--no-backup-if-mismatch");
    reveal_strlit("--posix");
    reveal_strlit("--binary");
    reveal_strlit("--follow-symlinks");
    reveal_strlit("-e");
    reveal_strlit("--ed");
    reveal_strlit("--set-utc");
    reveal_strlit("--set-time");
    reveal_strlit("-f");
    reveal_strlit("--force");
    reveal_strlit("-t");
    reveal_strlit("--batch");
    reveal_strlit("-E");
    reveal_strlit("--remove-empty-files");
    assert("--version"@.len() == 9 && "--version"@[1] == '-' && "--version"@[2] == 'v' && "--version"@[3] == 'e' && "--version"@[4] == 'r' && "--version"@[5] == 's' && "--version"@[6] == 'i' && "--version"@[7] == 'o' && "--version"@[8] == 'n');
    assert("--"@.len() == 2 && "--"@[1] == '-');
    assert("--merge"@.len() == 7 && "--merge"@[1] == '-' && "--merge"@[2] == 'm' && "--merge"@[3] == 'e' && "--merge"@[4] == 'r' && "--merge"@[5] == 'g' && "--merge"@[6] == 'e');
    assert("-p"@.len() == 2 && "-p"@[1] == 'p');
    assert("--strip"@.len() == 7 && "--strip"@[1] == '-' && "--strip"@[2] == 's' && "--strip"@[3] == 't' && "--strip"@[4] == 'r' && "--strip"@[5] == 'i' && "--strip"@[6] == 'p');
    assert("-d"@.len() == 2 && "-d"@[1] == 'd');
    assert("--directory"@.len() == 11 && "--directory"@[1] == '-' && "--directory"@[2] == 'd' && "--directory"@[3] == 'i' && "--directory"@[4] == 'r' && "--directory"@[5] == 'e' && "--directory"@[6] == 'c' && "--directory"@[7] == 't' && "--directory"@[8] == 'o' && "--directory"@[9] == 'r' && "--directory"@[10] == 'y');
    assert("-i"@.len() == 2 && "-i"@[1] == 'i');
    assert("--input"@.len() == 7 && "--input"@[1] == '-' && "--input"@[2] == 'i' && "--input"@[3] == 'n' && "--input"@[4] == 'p' && "--input"@[5] == 'u' && "--input"@[6] == 't');
    assert("-o"@.len() == 2 && "-o"@[1] == 'o');
    assert("--output"@.len() == 8 && "--output"@[1] == '-' && "--output"@[2] == 'o' && "--output"@[3] == 'u' && "--output"@[4] == 't' && "--output"@[5] == 'p' && "--output"@[6] == 'u' && "--output"@[7] == 't');
    assert("-F"@.len() == 2 && "-F"@[1] == 'F');
    assert("--fuzz"@.len() == 6 && "--fuzz"@[1] == '-' && "--fuzz"@[2] == 'f' && "--fuzz"@[3] == 'u' && "--fuzz"@[4] == 'z' && "--fuzz"@[5] == 'z');
    assert("-B"@.len() == 2 && "-B"@[1] == 'B');
    assert("--prefix"@.len() == 8 && "--prefix"@[1] == '-' && "--prefix"@[2] == 'p' && "--prefix"@[3] == 'r' && "--prefix"@[4] == 'e' && "--prefix"@[5] == 'f' && "--prefix"@[6] == 'i' && "--prefix"@[7] == 'x');
    assert("--backup-prefix"@.len() == 15 && "--backup-prefix"@[1] == '-' && "--backup-prefix"@[2] == 'b' && "--backup-prefix"@[3] == 'a' && "--backup-prefix"@[4] == 'c' && "--backup-prefix"@[5] == 'k' && "--backup-prefix"@[6] == 'u' && "--backup-prefix"@[7] == 'p' && "--backup-prefix"@[8] == '-' && "--backup-prefix"@[9] == 'p' && "--backup-prefix"@[10] == 'r' && "--backup-prefix"@[11] == 'e');
    assert("-z"@.len() == 2 && "-z"@[1] == 'z');
    assert("--suffix"@.len() == 8 && "--suffix"@[1] == '-' && "--suffix"@[2] == 's' && "--suffix"@[3] == 'u' && "--suffix"@[4] == 'f' && "--suffix"@[5] == 'f' && "--suffix"@[6] == 'i' && "--suffix"@[7] == 'x');
    assert("--backup-suffix"@.len() == 15 && "--backup-suffix"@[1] == '-' && "--backup-suffix"@[2] == 'b' && "--backup-suffix"@[3] == 'a' && "--backup-suffix"@[4] == 'c' && "--backup-suffix"@[5] == 'k' && "--backup-suffix"@[6] == 'u' && "--backup-suffix"@[7] == 'p' && "--backup-suffix"@[8] == '-' && "--backup-suffix"@[9] == 's' && "--backup-suffix"@[10] == 'u' && "--backup-suffix"@[11] == 'f');
    assert("-Y"@.len() == 2 && "-Y"@[1] == 'Y');
    assert("--basename-prefix"@.len() == 17 && "--basename-prefix"@[1] == '-' && "--basename-prefix"@[2] == 'b' && "--basename-prefix"@[3] == 'a' && "--basename-prefix"@[4] == 's' && "--basename-prefix"@[5] == 'e' && "--basename-prefix"@[6] == 'n' && "--basename-prefix"@[7] == 'a' && "--basename-prefix"@[8] == 'm' && "--basename-prefix"@[9] == 'e' && "--basename-prefix"@[10] == '-' && "--basename-prefix"@[11] == 'p');
    assert("-V"@.len() == 2 && "-V"@[1] == 'V');
    assert("--version-control"@.len() == 17 && "--version-control"@[1] == '-' && "--version-control"@[2] == 'v' && "--version-control"@[3] == 'e' && "--version-control"@[4] == 'r' && "--version-control"@[5] == 's' && "--version-control"@[6] == 'i' && "--version-control"@[7] == 'o' && "--version-control"@[8] == 'n' && "--version-control"@[9] == '-' && "--version-control"@[10] == 'c' && "--version-control"@[11] == 'o');
    assert("-r"@.len() == 2 && "-r"@[1] == 'r');
    assert("--reject-file"@.len() == 13 && "--reject-file"@[1] == '-' && "--reject-file"@[2] == 'r' && "--reject-file"@[3] == 'e' && "--reject-file"@[4] == 'j' && "--reject-file"@[5] == 'e' && "--reject-file"@[6] == 'c' && "--reject-file"@[7] == 't' && "--reject-file"@[8] == '-' && "--reject-file"@[9] == 'f' && "--reject-file"@[10] == 'i' && "--reject-file"@[11] == 'l');
    assert("-R"@.len() == 2 && "-R"@[1] == 'R');
    assert("--reverse"@.len() == 9 && "--reverse"@[1] == '-' && "--reverse"@[2] == 'r' && "--reverse"@[3] == 'e' && "--reverse"@[4] == 'v' && "--reverse"@[5] == 'e' && "--reverse"@[6] == 'r' && "--reverse"@[7] == 's' && "--reverse"@[8] == 'e');
    assert("--dry-run"@.len() == 9 && "--dry-run"@[1] == '-' && "--dry-run"@[2] == 'd' && "--dry-run"@[3] == 'r' && "--dry-run"@[4] == 'y' && "--dry-run"@[5] == '-' && "--dry-run"@[6] == 'r' && "--dry-run"@[7] == 'u' && "--dry-run"@[8] == 'n');
    assert("-s"@.len() == 2 && "-s"@[1] == 's');
    assert("--quiet"@.len() == 7 && "--quiet"@[1] == '-' && "--quiet"@[2] == 'q' && "--quiet"@[3] == 'u' && "--quiet"@[4] == 'i' && "--quiet"@[5] == 'e' && "--quiet"@[6] == 't');
    assert("--silent"@.len() == 8 && "--silent"@[1] == '-' && "--silent"@[2] == 's' && "--silent"@[3] == 'i' && "--silent"@[4] == 'l' && "--silent"@[5] == 'e' && "--silent"@[6] == 'n' && "--silent"@[7] == 't');
    assert("-v"@.len() == 2 && "-v"@[1] == 'v');
    assert("--verbose"@.len() == 9 && "--verbose"@[1] == '-' && "--verbose"@[2] == 'v' && "--verbose"@[3] == 'e' && "--verbose"@[4] == 'r' && "--verbose"@[5] == 'b' && "--verbose"@[6] == 'o' && "--verbose"@[7] == 's' && "--verbose"@[8] == 'e');
    assert("-N"@.len() == 2 && "-N"@[1] == 'N');
    assert("--forward"@.len() == 9 && "--forward"@[1] == '-' && "--forward"@[2] == 'f' && "--forward"@[3] == 'o' && "--forward"@[4] == 'r' && "--forward"@[5] == 'w' && "--forward"@[6] == 'a' && "--forward"@[7] == 'r' && "--forward"@[8] == 'd');
    assert("-b"@.len() == 2 && "-b"@[1] == 'b');
    assert("--backup"@.len() == 8 && "--backup"@[1] == '-' && "--backup"@[2] == 'b' && "--backup"@[3] == 'a' && "--backup"@[4] == 'c' && "--backup"@[5] == 'k' && "--backup"@[6] == 'u' && "--backup"@[7] == 'p');
    assert("--no-backup-if-mismatch"@.len() == 23 && "--no-backup-if-mismatch"@[1] == '-' && "--no-backup-if-mismatch"@[2] == 'n' && "--no-backup-if-mismatch"@[3] == 'o' && "--no-backup-if-mismatch"@[4] == '-' && "--no-backup-if-mismatch"@[5] == 'b' && "--no-backup-if-mismatch"@[6] == 'a' && "--no-backup-if-mismatch"@[7] == 'c' && "--no-backup-if-mismatch"@[8] == 'k' && "--no-backup-if-mismatch"@[9] == 'u' && "--no-backup-if-mismatch"@[10] == 'p' && "--no-backup-if-mismatch"@[11] == '-');
    assert("--posix"@.len() == 7 && "--posix"@[1] == '-' && "--posix"@[2] == 'p' && "--posix"@[3] == 'o' && "--posix"@[4] == 's' && "--posix"@[5] == 'i' && "--posix"@[6] == 'x');
    assert("--binary"@.len() == 8 && "--binary"@[1] == '-' && "--binary"@[2] == 'b' && "--binary"@[3] == 'i' && "--binary"@[4] == 'n' && "--binary"@[5] == 'a' && "--binary"@[6] == 'r' && "--binary"@[7] == 'y');
    assert("--follow-symlinks"@.len() == 17 && "--follow-symlinks"@[1] == '-' && "--follow-symlinks"@[2] == 'f' && "--follow-symlinks"@[3] == 'o' && "--follow-symlinks"@[4] == 'l' && "--follow-symlinks"@[5] == 'l' && "--follow-symlinks"@[6] == 'o' && "--follow-symlinks"@[7] == 'w' && "--follow-symlinks"@[8] == '-' && "--follow-symlinks"@[9] == 's' && "--follow-symlinks"@[10] == 'y' && "--follow-symlinks"@[11] == 'm');
    assert("-e"@.len() == 2 && "-e"@[1] == 'e');
    assert("--ed"@.len() == 4 && "--ed"@[1] == '-' && "--ed"@[2] == 'e' && "--ed"@[3] == 'd');
    assert("--set-utc"@.len() == 9 && "--set-utc"@[1] == '-' && "--set-utc"@[2] == 's' && "--set-utc"@[3] == 'e' && "--set-utc"@[4] == 't' && "--set-utc"@[5] == '-' && "--set-utc"@[6] == 'u' && "--set-utc"@[7] == 't' && "--set-utc"@[8] == 'c');
    assert("--set-time"@.len() == 10 && "--set-time"@[1] == '-' && "--set-time"@[2] == 's' && "--set-time"@[3] == 'e' && "--set-time"@[4] == 't' && "--set-time"@[5] == '-' && "--set-time"@[6] == 't' && "--set-time"@[7] == 'i' && "--set-time"@[8] == 'm' && "--set-time"@[9] == 'e');
    assert("-f"@.len() == 2 && "-f"@[1] == 'f');
    assert("--force"@.len() == 7 && "--force"@[1] == '-' && "--force"@[2] == 'f' && "--force"@[3] == 'o' && "--force"@[4] == 'r' && "--force"@[5] == 'c' && "--force"@[6] == 'e');
    assert("-t"@.len() == 2 && "-t"@[1] == 't');
    assert("--batch"@.len() == 7 && "--batch"@[1] == '-' && "--batch"@[2] == 'b' && "--batch"@[3] == 'a' && "--batch"@[4] == 't' && "--batch"@[5] == 'c' && "--batch"@[6] == 'h');
    assert("-E"@.len() == 2 && "-E"@[1] == 'E');
    assert("--remove-empty-files"@.len() == 20 && "--remove-empty-files"@[1] == '-' && "--remove-empty-files"@[2] == 'r' && "--remove-empty-files"@[3] == 'e' && "--remove-empty-files"@[4] == 'm' && "--remove-empty-files"@[5] == 'o' && "--remove-empty-files"@[6] == 'v' && "--remove-empty-files"@[7] == 'e' && "--remove-empty-files"@[8] == '-' && "--remove-empty-files"@[9] == 'e' && "--remove-empty-files"@[10] == 'm' && "--remove-empty-files"@[11] == 'p');
}

/// The names of the other flags.
proof fn lemma_other_flags()
    ensures
        names_flag("--no-backup-if-mismatch"@, Flag::NoBackupIfMismatch),
        names_flag("--posix"@, Flag::Posix),
        names_flag("--binary"@, Flag::Binary),
        names_flag("--follow-symlinks"@, Flag::FollowSymlinks),
        names_flag("-e"@, Flag::Ed),
        names_flag("--ed"@, Flag::Ed),
        names_flag("--set-utc"@, Flag::SetUtc),
        names_flag("--set-time"@, Flag::SetTime),
        names_flag("-f"@, Flag::Force),
        names_flag("--force"@, Flag::Force),
        names_flag("-t"@, Flag::Batch),
        names_flag("--batch"@, Flag::Batch),
        names_flag("-E"@, Flag::RemoveEmpty),
        names_flag("--remove-empty-files"@, Flag::RemoveEmpty),
{
    reveal_strlit("--version");
    reveal_strlit("--");
    reveal_strlit("--merge");
    reveal_strlit("-p");
    reveal_strlit("--strip");
    reveal_strlit("-d");
    reveal_strlit("--directory");
    reveal_strlit("-i");
    reveal_strlit("--input");
    reveal_strlit("-o");
    reveal_strlit("--output");
    reveal_strlit("-F");
    reveal_strlit("--fuzz");
    reveal_strlit("-B");
    reveal_strlit("--prefix");
    reveal_strlit("--backup-prefix");
    reveal_strlit("-z");
    reveal_strlit("--suffix");
    reveal_strlit("--backup-suffix");
    reveal_strlit("-Y");
    reveal_strlit("--basename-prefix");
    reveal_strlit("-V");
    reveal_strlit("--version-control");
    reveal_strlit("-r");
    reveal_strlit("--reject-file");
    reveal_strlit("-R");
    reveal_strlit("--reverse");
    reveal_strlit("--dry-run");
    reveal_strlit("-s");
    reveal_strlit("--quiet");
    reveal_strlit("--silent");
    reveal_strlit("-v");
    reveal_strlit("--verbose");
    reveal_strlit("-N");
    reveal_strlit("--forward");
    reveal_strlit("-b");
    reveal_strlit("--backup");
    reveal_strlit("--no-backup-if-mismatch");
    reveal_strlit("--posix");
    reveal_strlit("--binary");
    reveal_strlit("--follow-symlinks");
    reveal_strlit("-e");
    reveal_strlit("--ed");
    reveal_strlit("--set-utc");
    reveal_strlit("--set-time");
    reveal_strlit("-f");
    reveal_strlit("--force");
    reveal_strlit("-t");
    reveal_strlit("--batch");
    reveal_strlit("-E");
    reveal_strlit("--remove-empty-files");
    assert("--version"@.len() == 9 && "--version"@[1] == '-' && "--version"@[2] == 'v' && "--version"@[3] == 'e' && "--version"@[4] == 'r' && "--version"@[5] == 's' && "--version"@[6] == 'i' && "--version"@[7] == 'o' && "--version"@[8] == 'n');
    assert("--"@.len() == 2 && "--"@[1] == '-');
    assert("--merge"@.len() == 7 && "--merge"@[1] == '-' && "--merge"@[2] == 'm' && "--merge"@[3] == 'e' && "--merge"@[4] == 'r' && "--merge"@[5] == 'g' && "--merge"@[6] == 'e');
    assert("-p"@.len() == 2 && "-p"@[1] == 'p');
    assert("--strip"@.len() == 7 && "--strip"@[1] == '-' && "--strip"@[2] == 's' && "--strip"@[3] == 't' && "--strip"@[4] == 'r' && "--strip"@[5] == 'i' && "--strip"@[6] == 'p');
    assert("-d"@.len() == 2 && "-d"@[1] == 'd');
    assert("--directory"@.len() == 11 && "--directory"@[1] == '-' && "--directory"@[2] == 'd' && "--directory"@[3] == 'i' && "--directory"@[4] == 'r' && "--directory"@[5] == 'e' && "--directory"@[6] == 'c' && "--directory"@[7] == 't' && "--directory"@[8] == 'o' && "--directory"@[9] == 'r' && "--directory"@[10] == 'y');
    assert("-i"@.len() == 2 && "-i"@[1] == 'i');
    assert("--input"@.len() == 7 && "--input"@[1] == '-' && "--input"@[2] == 'i' && "--input"@[3] == 'n' && "--input"@[4] == 'p' && "--input"@[5] == 'u' && "--input"@[6] == 't');
    assert("-o"@.len() == 2 && "-o"@[1] == 'o');
    assert("--output"@.len() == 8 && "--output"@[1] == '-' && "--output"@[2] == 'o' && "--output"@[3] == 'u' && "--output"@[4] == 't' && "--output"@[5] == 'p' && "--output"@[6] == 'u' && "--output"@[7] == 't');
    assert("-F"@.len() == 2 && "-F"@[1] == 'F');
    assert("--fuzz"@.len() == 6 && "--fuzz"@[1] == '-' && "--fuzz"@[2] == 'f' && "--fuzz"@[3] == 'u' && "--fuzz"@[4] == 'z' && "--fuzz"@[5] == 'z');
    assert("-B"@.len() == 2 && "-B"@[1] == 'B');
    assert("--prefix"@.len() == 8 && "--prefix"@[1] == '-' && "--prefix"@[2] == 'p' && "--prefix"@[3] == 'r' && "--prefix"@[4] == 'e' && "--prefix"@[5] == 'f' && "--prefix"@[6] == 'i' && "--prefix"@[7] == 'x');
    assert("--backup-prefix"@.len() == 15 && "--backup-prefix"@[1] == '-' && "--backup-prefix"@[2] == 'b' && "--backup-prefix"@[3] == 'a' && "--backup-prefix"@[4] == 'c' && "--backup-prefix"@[5] == 'k' && "--backup-prefix"@[6] == 'u' && "--backup-prefix"@[7] == 'p' && "--backup-prefix"@[8] == '-' && "--backup-prefix"@[9] == 'p' && "--backup-prefix"@[10] == 'r' && "--backup-prefix"@[11] == 'e');
    assert("-z"@.len() == 2 && "-z"@[1] == 'z');
    assert("--suffix"@.len() == 8 && "--suffix"@[1] == '-' && "--suffix"@[2] == 's' && "--suffix"@[3] == 'u' && "--suffix"@[4] == 'f' && "--suffix"@[5] == 'f' && "--suffix"@[6] == 'i' && "--suffix"@[7] == 'x');
    assert("--backup-suffix"@.len() == 15 && "--backup-suffix"@[1] == '-' && "--backup-suffix"@[2] == 'b' && "--backup-suffix"@[3] == 'a' && "--backup-suffix"@[4] == 'c' && "--backup-suffix"@[5] == 'k' && "--backup-suffix"@[6] == 'u' && "--backup-suffix"@[7] == 'p' && "--backup-suffix"@[8] == '-' && "--backup-suffix"@[9] == 's' && "--backup-suffix"@[10] == 'u' && "--backup-suffix"@[11] == 'f');
    assert("-Y"@.len() == 2 && "-Y"@[1] == 'Y');
    assert("--basename-prefix"@.len() == 17 && "--basename-prefix"@[1] == '-' && "--basename-prefix"@[2] == 'b' && "--basename-prefix"@[3] == 'a' && "--basename-prefix"@[4] == 's' && "--basename-prefix"@[5] == 'e' && "--basename-prefix"@[6] == 'n' && "--basename-prefix"@[7] == 'a' && "--basename-prefix"@[8] == 'm' && "--basename-prefix"@[9] == 'e' && "--basename-prefix"@[10] == '-' && "--basename-prefix"@[11] == 'p');
    assert("-V"@.len() == 2 && "-V"@[1] == 'V');
    assert("--version-control"@.len() == 17 && "--version-control"@[1] == '-' && "--version-control"@[2] == 'v' && "--version-control"@[3] == 'e' && "--version-control"@[4] == 'r' && "--version-control"@[5] == 's' && "--version-control"@[6] == 'i' && "--version-control"@[7] == 'o' && "--version-control"@[8] == 'n' && "--version-control"@[9] == '-' && "--version-control"@[10] == 'c' && "--version-control"@[11] == 'o');
    assert("-r"@.len() == 2 && "-r"@[1] == 'r');
    assert("--reject-file"@.len() == 13 && "--reject-file"@[1] == '-' && "--reject-file"@[2] == 'r' && "--reject-file"@[3] == 'e' && "--reject-file"@[4] == 'j' && "--reject-file"@[5] == 'e' && "--reject-file"@[6] == 'c' && "--reject-file"@[7] == 't' && "--reject-file"@[8] == '-' && "--reject-file"@[9] == 'f' && "--reject-file"@[10] == 'i' && "--reject-file"@[11] == 'l');
    assert("-R"@.len() == 2 && "-R"@[1] == 'R');
    assert("--reverse"@.len() == 9 && "--reverse"@[1] == '-' && "--reverse"@[2] == 'r' && "--reverse"@[3] == 'e' && "--reverse"@[4] == 'v' && "--reverse"@[5] == 'e' && "--reverse"@[6] == 'r' && "--reverse"@[7] == 's' && "--reverse"@[8] == 'e');
    assert("--dry-run"@.len() == 9 && "--dry-run"@[1] == '-' && "--dry-run"@[2] == 'd' && "--dry-run"@[3] == 'r' && "--dry-run"@[4] == 'y' && "--dry-run"@[5] == '-' && "--dry-run"@[6] == 'r' && "--dry-run"@[7] == 'u' && "--dry-run"@[8] == 'n');
    assert("-s"@.len() == 2 && "-s"@[1] == 's');
    assert("--quiet"@.len() == 7 && "--quiet"@[1] == '-' && "--quiet"@[2] == 'q' && "--quiet"@[3] == 'u' && "--quiet"@[4] == 'i' && "--quiet"@[5] == 'e' && "--quiet"@[6] == 't');
    assert("--silent"@.len() == 8 && "--silent"@[1] == '-' && "--silent"@[2] == 's' && "--silent"@[3] == 'i' && "--silent"@[4] == 'l' && "--silent"@[5] == 'e' && "--silent"@[6] == 'n' && "--silent"@[7] == 't');
    assert("-v"@.len() == 2 && "-v"@[1] == 'v');
    assert("--verbose"@.len() == 9 && "--verbose"@[1] == '-' && "--verbose"@[2] == 'v' && "--verbose"@[3] == 'e' && "--verbose"@[4] == 'r' && "--verbose"@[5] == 'b' && "--verbose"@[6] == 'o' && "--verbose"@[7] == 's' && "--verbose"@[8] == 'e');
    assert("-N"@.len() == 2 && "-N"@[1] == 'N');
    assert("--forward"@.len() == 9 && "--forward"@[1] == '-' && "--forward"@[2] == 'f' && "--forward"@[3] == 'o' && "--forward"@[4] == 'r' && "--forward"@[5] == 'w' && "--forward"@[6] == 'a' && "--forward"@[7] == 'r' && "--forward"@[8] == 'd');
    assert("-b"@.len() == 2 && "-b"@[1] == 'b');
    assert("--backup"@.len() == 8 && "--backup"@[1] == '-' && "--backup"@[2] == 'b' && "--backup"@[3] == 'a' && "--backup"@[4] == 'c' && "--backup"@[5] == 'k' && "--backup"@[6] == 'u' && "--backup"@[7] == 'p');
    assert("--no-backup-if-mismatch"@.len() == 23 && "--no-backup-if-mismatch"@[1] == '-' && "--no-backup-if-mismatch"@[2] == 'n' && "--no-backup-if-mismatch"@[3] == 'o' && "--no-backup-if-mismatch"@[4] == '-' && "--no-backup-if-mismatch"@[5] == 'b' && "--no-backup-if-mismatch"@[6] == 'a' && "--no-backup-if-mismatch"@[7] == 'c' && "--no-backup-if-mismatch"@[8] == 'k' && "--no-backup-if-mismatch"@[9] == 'u' && "--no-backup-if-mismatch"@[10] == 'p' && "--no-backup-if-mismatch"@[11] == '-');
    assert("--posix"@.len() == 7 && "--posix"@[1] == '-' && "--posix"@[2] == 'p' && "--posix"@[3] == 'o' && "--posix"@[4] == 's' && "--posix"@[5] == 'i' && "--posix"@[6] == 'x');
    assert("--binary"@.len() == 8 && "--binary"@[1] == '-' && "--binary"@[2] == 'b' && "--binary"@[3] == 'i' && "--binary"@[4] == 'n' && "--binary"@[5] == 'a' && "--binary"@[6] == 'r' && "--binary"@[7] == 'y');
    assert("--follow-symlinks"@.len() == 17 && "--follow-symlinks"@[1] == '-' && "--follow-symlinks"@[2] == 'f' && "--follow-symlinks"@[3] == 'o' && "--follow-symlinks"@[4] == 'l' && "--follow-symlinks"@[5] == 'l' && "--follow-symlinks"@[6] == 'o' && "--follow-symlinks"@[7] == 'w' && "--follow-symlinks"@[8] == '-' && "--follow-symlinks"@[9] == 's' && "--follow-symlinks"@[10] == 'y' && "--follow-symlinks"@[11] == 'm');
    assert("-e"@.len() == 2 && "-e"@[1] == 'e');
    assert("--ed"@.len() == 4 && "--ed"@[1] == '-' && "--ed"@[2] == 'e' && "--ed"@[3] == 'd');
    assert("--set-utc"@.len() == 9 && "--set-utc"@[1] == '-' && "--set-utc"@[2] == 's' && "--set-utc"@[3] == 'e' && "--set-utc"@[4] == 't' && "--set-utc"@[5] == '-' && "--set-utc"@[6] == 'u' && "--set-utc"@[7] == 't' && "--set-utc"@[8] == 'c');
    assert("--set-time"@.len() == 10 && "--set-time"@[1] == '-' && "--set-time"@[2] == 's' && "--set-time"@[3] == 'e' && "--set-time"@[4] == 't' && "--set-time"@[5] == '-' && "--set-time"@[6] == 't' && "--set-time"@[7] == 'i' && "--set-time"@[8] == 'm' && "--set-time"@[9] == 'e');
    assert("-f"@.len() == 2 && "-f"@[1] == 'f');
    assert("--force"@.len() == 7 && "--force"@[1] == '-' && "--force"@[2] == 'f' && "--force"@[3] == 'o' && "--force"@[4] == 'r' && "--force"@[5] == 'c' && "--force"@[6] == 'e');
    assert("-t"@.len() == 2 && "-t"@[1] == 't');
    assert("--batch"@.len() == 7 && "--batch"@[1] == '-' && "--batch"@[2] == 'b' && "--batch"@[3] == 'a' && "--batch"@[4] == 't' && "--batch"@[5] == 'c' && "--batch"@[6] == 'h');
    assert("-E"@.len() == 2 && "-E"@[1] == 'E');
    assert("--remove-empty-files"@.len() == 20 && "--remove-empty-files"@[1] == '-' && "--remove-empty-files"@[2] == 'r' && "--remove-empty-files"@[3] == 'e' && "--remove-empty-files"@[4] == 'm' && "--remove-empty-files"@[5] == 'o' && "--remove-empty-files"@[6] == 'v' && "--remove-empty-files"@[7] == 'e' && "--remove-empty-files"@[8] == '-' && "--remove-empty-files"@[9] == 'e' && "--remove-empty-files"@[10] == 'm' && "--remove-empty-files"@[11] == 'p');
}

// ---------------------------------------------------------------------------
// What the arguments ask for
// ---------------------------------------------------------------------------

/// After the last argument the options are what they are.
pub proof fn law_no_more_arguments(args: Seq<Seq<char>>, o: OptionsModel)
    ensures
        args_from(args, args.len() as int, o) == Ok::<_, StopModel>(o),
{
}

/// What is not asked for is off: no file, directory or count is named, fuzz is
/// two, and of files that cannot be written only a warning is given.
pub proof fn law_nothing_is_asked_for()
    ensures
        ({
            let o = no_options();
            &&& o.strip is None && o.directory is None && o.input is None && o.output is None
            &&& o.backup_prefix is None && o.backup_suffix is None && o.basename_prefix is None
            &&& o.version_control is None && o.reject_file is None && o.reject_format is None
            &&& o.positional_file is None
            &&& o.fuzz == 2
            &&& o.read_only == ReadOnlyMode::Warn
            &&& !o.on.reverse && !o.on.dry_run && !o.on.silent && !o.on.verbose && !o.on.forward
            &&& !o.on.backup && !o.on.no_backup_if_mismatch && !o.on.posix && !o.on.binary
            &&& !o.on.follow_symlinks && !o.on.ed && !o.on.set_utc && !o.on.set_time
            &&& !o.on.force && !o.on.batch && !o.on.remove_empty
        }),
{
}

/// A character that is no digit makes a text no number.
proof fn lemma_not_a_number(v: Seq<char>, k: int)
    requires
        v.len() == 0 || (0 <= k < v.len() && !('0' <= v[k] <= '9') && (k > 0 || v[k] != '+')),
    ensures
        parsed(v, 10, usize::MAX as nat) is None,
{
    if v.len() > 0 {
        let j = if v[0] == '+' {
            k - 1
        } else {
            k
        };
        assert(unsigned_part(v)[j] == v[k]);
    }
}

/// An argument that goes on after its letter is no name.
proof fn lemma_letter_with_value(arg: Seq<char>, c: char)
    ensures
        arg.len() > 2 && arg[0] == '-' && arg[1] == c && (c == 'p' || c == 'F') ==> {
            &&& arg != "--version"@ && arg != "--"@
            &&& awaits_value(arg) is None
        },
{
    reveal_strlit("--version");
    reveal_strlit("--");
    reveal_strlit("-p");
    reveal_strlit("--strip");
    reveal_strlit("-d");
    reveal_strlit("--directory");
    reveal_strlit("-i");
    reveal_strlit("--input");
    reveal_strlit("-o");
    reveal_strlit("--output");
    reveal_strlit("-F");
    reveal_strlit("--fuzz");
    reveal_strlit("-B");
    reveal_strlit("--prefix");
    reveal_strlit("--backup-prefix");
    reveal_strlit("-z");
    reveal_strlit("--suffix");
    reveal_strlit("--backup-suffix");
    reveal_strlit("-Y");
    reveal_strlit("--basename-prefix");
    reveal_strlit("-V");
    reveal_strlit("--version-control");
    reveal_strlit("-r");
    reveal_strlit("--reject-file");
    assert("--version"@.len() == 9 && "--version"@[1] == '-' && "--version"@[2] == 'v' && "--version"@[3] == 'e' && "--version"@[4] == 'r' && "--version"@[5] == 's' && "--version"@[6] == 'i' && "--version"@[7] == 'o' && "--version"@[8] == 'n');
    assert("--"@.len() == 2 && "--"@[1] == '-');
    assert("-p"@.len() == 2 && "-p"@[1] == 'p');
    assert("--strip"@.len() == 7 && "--strip"@[1] == '-' && "--strip"@[2] == 's' && "--strip"@[3] == 't' && "--strip"@[4] == 'r' && "--strip"@[5] == 'i' && "--strip"@[6] == 'p');
    assert("-d"@.len() == 2 && "-d"@[1] == 'd');
    assert("--directory"@.len() == 11 && "--directory"@[1] == '-' && "--directory"@[2] == 'd' && "--directory"@[3] == 'i' && "--directory"@[4] == 'r' && "--directory"@[5] == 'e' && "--directory"@[6] == 'c' && "--directory"@[7] == 't' && "--directory"@[8] == 'o' && "--directory"@[9] == 'r' && "--directory"@[10] == 'y');
    assert("-i"@.len() == 2 && "-i"@[1] == 'i');
    assert("--input"@.len() == 7 && "--input"@[1] == '-' && "--input"@[2] == 'i' && "--input"@[3] == 'n' && "--input"@[4] == 'p' && "--input"@[5] == 'u' && "--input"@[6] == 't');
    assert("-o"@.len() == 2 && "-o"@[1] == 'o');
    assert("--output"@.len() == 8 && "--output"@[1] == '-' && "--output"@[2] == 'o' && "--output"@[3] == 'u' && "--output"@[4] == 't' && "--output"@[5] == 'p' && "--output"@[6] == 'u' && "--output"@[7] == 't');
    assert("-F"@.len() == 2 && "-F"@[1] == 'F');
    assert("--fuzz"@.len() == 6 && "--fuzz"@[1] == '-' && "--fuzz"@[2] == 'f' && "--fuzz"@[3] == 'u' && "--fuzz"@[4] == 'z' && "--fuzz"@[5] == 'z');
    assert("-B"@.len() == 2 && "-B"@[1] == 'B');
    assert("--prefix"@.len() == 8 && "--prefix"@[1] == '-' && "--prefix"@[2] == 'p' && "--prefix"@[3] == 'r' && "--prefix"@[4] == 'e' && "--prefix"@[5] == 'f' && "--prefix"@[6] == 'i' && "--prefix"@[7] == 'x');
    assert("--backup-prefix"@.len() == 15 && "--backup-prefix"@[1] == '-' && "--backup-prefix"@[2] == 'b' && "--backup-prefix"@[3] == 'a' && "--backup-prefix"@[4] == 'c' && "--backup-prefix"@[5] == 'k' && "--backup-prefix"@[6] == 'u' && "--backup-prefix"@[7] == 'p' && "--backup-prefix"@[8] == '-' && "--backup-prefix"@[9] == 'p' && "--backup-prefix"@[10] == 'r' && "--backup-prefix"@[11] == 'e');
    assert("-z"@.len() == 2 && "-z"@[1] == 'z');
    assert("--suffix"@.len() == 8 && "--suffix"@[1] == '-' && "--suffix"@[2] == 's' && "--suffix"@[3] == 'u' && "--suffix"@[4] == 'f' && "--suffix"@[5] == 'f' && "--suffix"@[6] == 'i' && "--suffix"@[7] == 'x');
    assert("--backup-suffix"@.len() == 15 && "--backup-suffix"@[1] == '-' && "--backup-suffix"@[2] == 'b' && "--backup-suffix"@[3] == 'a' && "--backup-suffix"@[4] == 'c' && "--backup-suffix"@[5] == 'k' && "--backup-suffix"@[6] == 'u' && "--backup-suffix"@[7] == 'p' && "--backup-suffix"@[8] == '-' && "--backup-suffix"@[9] == 's' && "--backup-suffix"@[10] == 'u' && "--backup-suffix"@[11] == 'f');
    assert("-Y"@.len() == 2 && "-Y"@[1] == 'Y');
    assert("--basename-prefix"@.len() == 17 && "--basename-prefix"@[1] == '-' && "--basename-prefix"@[2] == 'b' && "--basename-prefix"@[3] == 'a' && "--basename-prefix"@[4] == 's' && "--basename-prefix"@[5] == 'e' && "--basename-prefix"@[6] == 'n' && "--basename-prefix"@[7] == 'a' && "--basename-prefix"@[8] == 'm' && "--basename-prefix"@[9] == 'e' && "--basename-prefix"@[10] == '-' && "--basename-prefix"@[11] == 'p');
    assert("-V"@.len() == 2 && "-V"@[1] == 'V');
    assert("--version-control"@.len() == 17 && "--version-control"@[1] == '-' && "--version-control"@[2] == 'v' && "--version-control"@[3] == 'e' && "--version-control"@[4] == 'r' && "--version-control"@[5] == 's' && "--version-control"@[6] == 'i' && "--version-control"@[7] == 'o' && "--version-control"@[8] == 'n' && "--version-control"@[9] == '-' && "--version-control"@[10] == 'c' && "--version-control"@[11] == 'o');
    assert("-r"@.len() == 2 && "-r"@[1] == 'r');
    assert("--reject-file"@.len() == 13 && "--reject-file"@[1] == '-' && "--reject-file"@[2] == 'r' && "--reject-file"@[3] == 'e' && "--reject-file"@[4] == 'j' && "--reject-file"@[5] == 'e' && "--reject-file"@[6] == 'c' && "--reject-file"@[7] == 't' && "--reject-file"@[8] == '-' && "--reject-file"@[9] == 'f' && "--reject-file"@[10] == 'i' && "--reject-file"@[11] == 'l');
}

/// These arguments give the directory that file names are seen from; nothing
/// else changes. The value is the next argument, or what follows the equals
/// sign.
pub proof fn law_option_directory(args: Seq<Seq<char>>, i: int, o: OptionsModel, v: Seq<char>)
    requires
        0 <= i < args.len(),
    ensures
        (args[i] == "-d"@ || args[i] == "--directory"@) && i + 1 < args.len() && args[i + 1] == v
            ==> args_from(args, i, o) == args_from(
            args,
            i + 2,
            (OptionsModel { directory: Some(v), ..o }),
        ),
        args[i] == "--directory="@ + v ==> args_from(args, i, o) == args_from(
            args,
            i + 1,
            (OptionsModel { directory: Some(v), ..o }),
        ),
{
    lemma_args_step(args, i, o);
    lemma_names_before_values();
    lemma_names_with_values(v);
    reveal_strlit("--directory=");
    assert(("--directory="@ + v)[11] == '=');
    assert(("--directory="@ + v).skip(12) =~= v);
    lemma_equals_sign("--directory="@ + v, 11);
}

/// These arguments give the file that the patch is read from; nothing
/// else changes. The value is the next argument, or what follows the equals
/// sign.
pub proof fn law_option_input(args: Seq<Seq<char>>, i: int, o: OptionsModel, v: Seq<char>)
    requires
        0 <= i < args.len(),
    ensures
        (args[i] == "-i"@ || args[i] == "--input"@) && i + 1 < args.len() && args[i + 1] == v
            ==> args_from(args, i, o) == args_from(
            args,
            i + 2,
            (OptionsModel { input: Some(v), ..o }),
        ),
        args[i] == "--input="@ + v ==> args_from(args, i, o) == args_from(
            args,
            i + 1,
            (OptionsModel { input: Some(v), ..o }),
        ),
{
    lemma_args_step(args, i, o);
    lemma_names_before_values();
    lemma_names_with_values(v);
    reveal_strlit("--input=");
    assert(("--input="@ + v)[7] == '=');
    assert(("--input="@ + v).skip(8) =~= v);
    lemma_equals_sign("--input="@ + v, 7);
}

/// These arguments give the file that the result is written to; nothing
/// else changes. The value is the next argument, or what follows the equals
/// sign.
pub proof fn law_option_output(args: Seq<Seq<char>>, i: int, o: OptionsModel, v: Seq<char>)
    requires
        0 <= i < args.len(),
    ensures
        (args[i] == "-o"@ || args[i] == "--output"@) && i + 1 < args.len() && args[i + 1] == v
            ==> args_from(args, i, o) == args_from(
            args,
            i + 2,
            (OptionsModel { output: Some(v), ..o }),
        ),
        args[i] == "--output="@ + v ==> args_from(args, i, o) == args_from(
            args,
            i + 1,
            (OptionsModel { output: Some(v), ..o }),
        ),
{
    lemma_args_step(args, i, o);
    lemma_names_before_values();
    lemma_names_with_values(v);
    reveal_strlit("--output=");
    assert(("--output="@ + v)[8] == '=');
    assert(("--output="@ + v).skip(9) =~= v);
    lemma_equals_sign("--output="@ + v, 8);
}

/// These arguments give what goes before the path of a backup, and ask for backups; nothing
/// else changes. The value is the next argument, or what follows the equals
/// sign.
pub proof fn law_option_backup_prefix(args: Seq<Seq<char>>, i: int, o: OptionsModel, v: Seq<char>)
    requires
        0 <= i < args.len(),
    ensures
        (args[i] == "-B"@ || args[i] == "--prefix"@ || args[i] == "--backup-prefix"@) && i + 1 < args.len() && args[i + 1] == v
            ==> args_from(args, i, o) == args_from(
            args,
            i + 2,
            (OptionsModel { backup_prefix: Some(v), on: Switches { backup: true, ..o.on }, ..o }),
        ),
        args[i] == "--prefix="@ + v ==> args_from(args, i, o) == args_from(
            args,
            i + 1,
            (OptionsModel { backup_prefix: Some(v), on: Switches { backup: true, ..o.on }, ..o }),
        ),
        args[i] == "--backup-prefix="@ + v ==> args_from(args, i, o) == args_from(
            args,
            i + 1,
            (OptionsModel { backup_prefix: Some(v), on: Switches { backup: true, ..o.on }, ..o }),
        ),
{
    lemma_args_step(args, i, o);
    lemma_names_before_values();
    lemma_names_with_values(v);
    reveal_strlit("--prefix=");
    reveal_strlit("--backup-prefix=");
    assert(("--prefix="@ + v)[8] == '=');
    assert(("--prefix="@ + v).skip(9) =~= v);
    lemma_equals_sign("--prefix="@ + v, 8);
    assert(("--backup-prefix="@ + v)[15] == '=');
    assert(("--backup-prefix="@ + v).skip(16) =~= v);
    lemma_equals_sign("--backup-prefix="@ + v, 15);
}

/// These arguments give what goes behind the path of a backup, and ask for backups; nothing
/// else changes. The value is the next argument, or what follows the equals
/// sign.
pub proof fn law_option_backup_suffix(args: Seq<Seq<char>>, i: int, o: OptionsModel, v: Seq<char>)
    requires
        0 <= i < args.len(),
    ensures
        (args[i] == "-z"@ || args[i] == "--suffix"@ || args[i] == "--backup-suffix"@) && i + 1 < args.len() && args[i + 1] == v
            ==> args_from(args, i, o) == args_from(
            args,
            i + 2,
            (OptionsModel { backup_suffix: Some(v), on: Switches { backup: true, ..o.on }, ..o }),
        ),
        args[i] == "--suffix="@ + v ==> args_from(args, i, o) == args_from(
            args,
            i + 1,
            (OptionsModel { backup_suffix: Some(v), on: Switches { backup: true, ..o.on }, ..o }),
        ),
        args[i] == "--backup-suffix="@ + v ==> args_from(args, i, o) == args_from(
            args,
            i + 1,
            (OptionsModel { backup_suffix: Some(v), on: Switches { backup: true, ..o.on }, ..o }),
        ),
{
    lemma_args_step(args, i, o);
    lemma_names_before_values();
    lemma_names_with_values(v);
    reveal_strlit("--suffix=");
    reveal_strlit("--backup-suffix=");
    assert(("--suffix="@ + v)[8] == '=');
    assert(("--suffix="@ + v).skip(9) =~= v);
    lemma_equals_sign("--suffix="@ + v, 8);
    assert(("--backup-suffix="@ + v)[15] == '=');
    assert(("--backup-suffix="@ + v).skip(16) =~= v);
    lemma_equals_sign("--backup-suffix="@ + v, 15);
}

/// These arguments give what goes before the last component of the path of a backup, and ask
/// for backups; nothing
/// else changes. The value is the next argument, or what follows the equals
/// sign.
pub proof fn law_option_basename_prefix(args: Seq<Seq<char>>, i: int, o: OptionsModel, v: Seq<char>)
    requires
        0 <= i < args.len(),
    ensures
        (args[i] == "-Y"@ || args[i] == "--basename-prefix"@) && i + 1 < args.len() && args[i + 1] == v
            ==> args_from(args, i, o) == args_from(
            args,
            i + 2,
            (OptionsModel { basename_prefix: Some(v), on: Switches { backup: true, ..o.on }, ..o }),
        ),
        args[i] == "--basename-prefix="@ + v ==> args_from(args, i, o) == args_from(
            args,
            i + 1,
            (OptionsModel { basename_prefix: Some(v), on: Switches { backup: true, ..o.on }, ..o }),
        ),
{
    lemma_args_step(args, i, o);
    lemma_names_before_values();
    lemma_names_with_values(v);
    reveal_strlit("--basename-prefix=");
    assert(("--basename-prefix="@ + v)[17] == '=');
    assert(("--basename-prefix="@ + v).skip(18) =~= v);
    lemma_equals_sign("--basename-prefix="@ + v, 17);
}

/// These arguments give the kind of backups; nothing
/// else changes. The value is the next argument, or what follows the equals
/// sign.
pub proof fn law_option_version_control(args: Seq<Seq<char>>, i: int, o: OptionsModel, v: Seq<char>)
    requires
        0 <= i < args.len(),
    ensures
        (args[i] == "-V"@ || args[i] == "--version-control"@) && i + 1 < args.len() && args[i + 1] == v
            ==> args_from(args, i, o) == args_from(
            args,
            i + 2,
            (OptionsModel { version_control: Some(v), ..o }),
        ),
        args[i] == "--version-control="@ + v ==> args_from(args, i, o) == args_from(
            args,
            i + 1,
            (OptionsModel { version_control: Some(v), ..o }),
        ),
{
    lemma_args_step(args, i, o);
    lemma_names_before_values();
    lemma_names_with_values(v);
    reveal_strlit("--version-control=");
    assert(("--version-control="@ + v)[17] == '=');
    assert(("--version-control="@ + v).skip(18) =~= v);
    lemma_equals_sign("--version-control="@ + v, 17);
}

/// These arguments give the file that rejects are saved to; nothing
/// else changes. The value is the next argument, or what follows the equals
/// sign.
pub proof fn law_option_reject_file(args: Seq<Seq<char>>, i: int, o: OptionsModel, v: Seq<char>)
    requires
        0 <= i < args.len(),
    ensures
        (args[i] == "-r"@ || args[i] == "--reject-file"@) && i + 1 < args.len() && args[i + 1] == v
            ==> args_from(args, i, o) == args_from(
            args,
            i + 2,
            (OptionsModel { reject_file: Some(v), ..o }),
        ),
        args[i] == "--reject-file="@ + v ==> args_from(args, i, o) == args_from(
            args,
            i + 1,
            (OptionsModel { reject_file: Some(v), ..o }),
        ),
{
    lemma_args_step(args, i, o);
    lemma_names_before_values();
    lemma_names_with_values(v);
    reveal_strlit("--reject-file=");
    assert(("--reject-file="@ + v)[13] == '=');
    assert(("--reject-file="@ + v).skip(14) =~= v);
    lemma_equals_sign("--reject-file="@ + v, 13);
}

/// This argument gives the format of rejects; nothing else changes.
pub proof fn law_option_reject_format(args: Seq<Seq<char>>, i: int, o: OptionsModel, v: Seq<char>)
    requires
        0 <= i < args.len(),
    ensures
        args[i] == "--reject-format="@ + v ==> args_from(args, i, o) == args_from(
            args,
            i + 1,
            (OptionsModel { reject_format: Some(v), ..o }),
        ),
{
    lemma_args_step(args, i, o);
    lemma_names_before_values();
    lemma_names_with_values(v);
    reveal_strlit("--reject-format=");
    assert(("--reject-format="@ + v)[15] == '=');
    assert(("--reject-format="@ + v).skip(16) =~= v);
    lemma_equals_sign("--reject-format="@ + v, 15);
}

/// A number of components to strip is taken as it is written.
pub proof fn law_option_strip(args: Seq<Seq<char>>, i: int, o: OptionsModel, v: Seq<char>, n: usize)
    requires
        0 <= i < args.len(),
        v == decimal(n as nat),
    ensures
        (args[i] == "-p"@ || args[i] == "--strip"@) && i + 1 < args.len() && args[i + 1] == v
            ==> args_from(args, i, o) == args_from(
            args,
            i + 2,
            (OptionsModel { strip: Some(n), ..o }),
        ),
        args[i] == "--strip="@ + v ==> args_from(args, i, o) == args_from(
            args,
            i + 1,
            (OptionsModel { strip: Some(n), ..o }),
        ),
        args[i] == "-p"@ + v && v.len() > 0 ==> args_from(args, i, o) == args_from(
            args,
            i + 1,
            (OptionsModel { strip: Some(n), ..o }),
        ),
{
    lemma_args_step(args, i, o);
    lemma_names_before_values();
    lemma_names_with_values(v);
    lemma_decimal_reads_back(n as nat);
    assert(parsed(decimal(n as nat), 10, usize::MAX as nat) == Some(n as nat));
    reveal_strlit("--strip=");
    reveal_strlit("-p");
    assert(("--strip="@ + v)[7] == '=');
    assert(("--strip="@ + v).skip(8) =~= v);
    lemma_equals_sign("--strip="@ + v, 7);
    lemma_letter_with_value("-p"@ + v, 'p');
    assert(("-p"@ + v).skip(2) =~= v);
}

/// What has a character that is no digit, but for a plus sign in front, is no
/// number of components, and neither is nothing.
pub proof fn law_option_strip_is_a_number(args: Seq<Seq<char>>, i: int, o: OptionsModel, v: Seq<char>, k: int)
    requires
        0 <= i < args.len(),
        v.len() == 0 || (0 <= k < v.len() && !('0' <= v[k] <= '9') && (k > 0 || v[k] != '+')),
    ensures
        (args[i] == "-p"@ || args[i] == "--strip"@) && i + 1 < args.len() && args[i + 1] == v
            ==> args_from(args, i, o) == Err::<OptionsModel, _>(StopModel::BadStrip(v)),
        args[i] == "--strip="@ + v ==> args_from(args, i, o) == Err::<OptionsModel, _>(StopModel::BadStrip(v)),
        args[i] == "-p"@ + v && v.len() > 0 ==> args_from(args, i, o) == Err::<OptionsModel, _>(StopModel::BadStrip(v)),
{
    lemma_args_step(args, i, o);
    lemma_names_before_values();
    lemma_names_with_values(v);
    lemma_not_a_number(v, k);
    reveal_strlit("--strip=");
    reveal_strlit("-p");
    assert(("--strip="@ + v)[7] == '=');
    assert(("--strip="@ + v).skip(8) =~= v);
    lemma_equals_sign("--strip="@ + v, 7);
    lemma_letter_with_value("-p"@ + v, 'p');
    assert(("-p"@ + v).skip(2) =~= v);
}

/// A fuzz is taken as it is written.
pub proof fn law_option_fuzz(args: Seq<Seq<char>>, i: int, o: OptionsModel, v: Seq<char>, n: usize)
    requires
        0 <= i < args.len(),
        v == decimal(n as nat),
    ensures
        (args[i] == "-F"@ || args[i] == "--fuzz"@) && i + 1 < args.len() && args[i + 1] == v
            ==> args_from(args, i, o) == args_from(
            args,
            i + 2,
            (OptionsModel { fuzz: n, ..o }),
        ),
        args[i] == "--fuzz="@ + v ==> args_from(args, i, o) == args_from(
            args,
            i + 1,
            (OptionsModel { fuzz: n, ..o }),
        ),
        args[i] == "-F"@ + v && v.len() > 0 ==> args_from(args, i, o) == args_from(
            args,
            i + 1,
            (OptionsModel { fuzz: n, ..o }),
        ),
{
    lemma_args_step(args, i, o);
    lemma_names_before_values();
    lemma_names_with_values(v);
    lemma_decimal_reads_back(n as nat);
    assert(parsed(decimal(n as nat), 10, usize::MAX as nat) == Some(n as nat));
    reveal_strlit("--fuzz=");
    reveal_strlit("-F");
    assert(("--fuzz="@ + v)[6] == '=');
    assert(("--fuzz="@ + v).skip(7) =~= v);
    lemma_equals_sign("--fuzz="@ + v, 6);
    lemma_letter_with_value("-F"@ + v, 'F');
    assert(("-F"@ + v).skip(2) =~= v);
}

/// A fuzz that is no number is two.
pub proof fn law_option_fuzz_without_a_number(args: Seq<Seq<char>>, i: int, o: OptionsModel, v: Seq<char>, k: int)
    requires
        0 <= i < args.len(),
        v.len() == 0 || (0 <= k < v.len() && !('0' <= v[k] <= '9') && (k > 0 || v[k] != '+')),
    ensures
        (args[i] == "-F"@ || args[i] == "--fuzz"@) && i + 1 < args.len() && args[i + 1] == v
            ==> args_from(args, i, o) == args_from(
            args,
            i + 2,
            (OptionsModel { fuzz: 2, ..o }),
        ),
        args[i] == "--fuzz="@ + v ==> args_from(args, i, o) == args_from(
            args,
            i + 1,
            (OptionsModel { fuzz: 2, ..o }),
        ),
        args[i] == "-F"@ + v && v.len() > 0 ==> args_from(args, i, o) == args_from(
            args,
            i + 1,
            (OptionsModel { fuzz: 2, ..o }),
        ),
{
    lemma_args_step(args, i, o);
    lemma_names_before_values();
    lemma_names_with_values(v);
    lemma_not_a_number(v, k);
    reveal_strlit("--fuzz=");
    reveal_strlit("-F");
    assert(("--fuzz="@ + v)[6] == '=');
    assert(("--fuzz="@ + v).skip(7) =~= v);
    lemma_equals_sign("--fuzz="@ + v, 6);
    lemma_letter_with_value("-F"@ + v, 'F');
    assert(("-F"@ + v).skip(2) =~= v);
}

/// A file that is not writable is treated as one of three words says; another
/// word stops the run.
pub proof fn law_option_read_only(args: Seq<Seq<char>>, i: int, o: OptionsModel, v: Seq<char>)
    requires
        0 <= i < args.len(),
        args[i] == "--read-only="@ + v,
    ensures
        v == "ignore"@ ==> args_from(args, i, o) == args_from(
            args,
            i + 1,
            (OptionsModel { read_only: ReadOnlyMode::Ignore, ..o }),
        ),
        v == "warn"@ ==> args_from(args, i, o) == args_from(
            args,
            i + 1,
            (OptionsModel { read_only: ReadOnlyMode::Warn, ..o }),
        ),
        v == "fail"@ ==> args_from(args, i, o) == args_from(
            args,
            i + 1,
            (OptionsModel { read_only: ReadOnlyMode::Fail, ..o }),
        ),
        v != "ignore"@ && v != "warn"@ && v != "fail"@ ==> args_from(args, i, o) == Err::<
            OptionsModel,
            _,
        >(StopModel::BadReadOnly(v)),
{
    lemma_args_step(args, i, o);
    lemma_names_with_values(v);
    reveal_strlit("--read-only=");
    reveal_strlit("ignore");
    reveal_strlit("warn");
    reveal_strlit("fail");
    assert("ignore"@[0] == 'i' && "warn"@[0] == 'w' && "fail"@[0] == 'f');
    assert(("--read-only="@ + v)[11] == '=');
    assert(("--read-only="@ + v).skip(12) =~= v);
    lemma_equals_sign("--read-only="@ + v, 11);
}

/// An option that takes a value and has none says nothing.
pub proof fn law_option_without_its_value(args: Seq<Seq<char>>, i: int, o: OptionsModel)
    requires
        0 <= i < args.len(),
        i + 1 == args.len(),
        args[i] == "-p"@ || args[i] == "--strip"@ || args[i] == "-d"@ || args[i] == "--directory"@ || args[i] == "-i"@ || args[i] == "--input"@ || args[i] == "-o"@ || args[i] == "--output"@ || args[i] == "-F"@ || args[i] == "--fuzz"@ || args[i] == "-B"@ || args[i] == "--prefix"@ || args[i] == "--backup-prefix"@ || args[i] == "-z"@ || args[i] == "--suffix"@ || args[i] == "--backup-suffix"@ || args[i] == "-Y"@ || args[i] == "--basename-prefix"@ || args[i] == "-V"@ || args[i] == "--version-control"@ || args[i] == "-r"@ || args[i] == "--reject-file"@,
    ensures
        args_from(args, i, o) == Ok::<_, StopModel>(o),
{
    lemma_args_step(args, i, o);
    lemma_names_before_values();
}

/// The name of a flag turns on that flag and nothing else.
pub proof fn law_flags(args: Seq<Seq<char>>, i: int, o: OptionsModel)
    requires
        0 <= i < args.len(),
    ensures
        (args[i] == "-R"@ || args[i] == "--reverse"@) ==> args_from(args, i, o) == args_from(
            args,
            i + 1,
            (OptionsModel { on: Switches { reverse: true, ..o.on }, ..o }),
        ),
        (args[i] == "--dry-run"@) ==> args_from(args, i, o) == args_from(
            args,
            i + 1,
            (OptionsModel { on: Switches { dry_run: true, ..o.on }, ..o }),
        ),
        (args[i] == "-s"@ || args[i] == "--quiet"@ || args[i] == "--silent"@) ==> args_from(args, i, o) == args_from(
            args,
            i + 1,
            (OptionsModel { on: Switches { silent: true, ..o.on }, ..o }),
        ),
        (args[i] == "-v"@ || args[i] == "--verbose"@) ==> args_from(args, i, o) == args_from(
            args,
            i + 1,
            (OptionsModel { on: Switches { verbose: true, ..o.on }, ..o }),
        ),
        (args[i] == "-N"@ || args[i] == "--forward"@) ==> args_from(args, i, o) == args_from(
            args,
            i + 1,
            (OptionsModel { on: Switches { forward: true, ..o.on }, ..o }),
        ),
        (args[i] == "-b"@ || args[i] == "--backup"@) ==> args_from(args, i, o) == args_from(
            args,
            i + 1,
            (OptionsModel { on: Switches { backup: true, ..o.on }, ..o }),
        ),
        (args[i] == "--no-backup-if-mismatch"@) ==> args_from(args, i, o) == args_from(
            args,
            i + 1,
            (OptionsModel { on: Switches { no_backup_if_mismatch: true, ..o.on }, ..o }),
        ),
        (args[i] == "--posix"@) ==> args_from(args, i, o) == args_from(
            args,
            i + 1,
            (OptionsModel { on: Switches { posix: true, ..o.on }, ..o }),
        ),
        (args[i] == "--binary"@) ==> args_from(args, i, o) == args_from(
            args,
            i + 1,
            (OptionsModel { on: Switches { binary: true, ..o.on }, ..o }),
        ),
        (args[i] == "--follow-symlinks"@) ==> args_from(args, i, o) == args_from(
            args,
            i + 1,
            (OptionsModel { on: Switches { follow_symlinks: true, ..o.on }, ..o }),
        ),
        (args[i] == "-e"@ || args[i] == "--ed"@) ==> args_from(args, i, o) == args_from(
            args,
            i + 1,
            (OptionsModel { on: Switches { ed: true, ..o.on }, ..o }),
        ),
        (args[i] == "--set-utc"@) ==> args_from(args, i, o) == args_from(
            args,
            i + 1,
            (OptionsModel { on: Switches { set_utc: true, ..o.on }, ..o }),
        ),
        (args[i] == "--set-time"@) ==> args_from(args, i, o) == args_from(
            args,
            i + 1,
            (OptionsModel { on: Switches { set_time: true, ..o.on }, ..o }),
        ),
        (args[i] == "-f"@ || args[i] == "--force"@) ==> args_from(args, i, o) == args_from(
            args,
            i + 1,
            (OptionsModel { on: Switches { force: true, ..o.on }, ..o }),
        ),
        (args[i] == "-t"@ || args[i] == "--batch"@) ==> args_from(args, i, o) == args_from(
            args,
            i + 1,
            (OptionsModel { on: Switches { batch: true, ..o.on }, ..o }),
        ),
        (args[i] == "-E"@ || args[i] == "--remove-empty-files"@) ==> args_from(args, i, o) == args_from(
            args,
            i + 1,
            (OptionsModel { on: Switches { remove_empty: true, ..o.on }, ..o }),
        ),
{
    lemma_first_flags();
    lemma_other_flags();
    lemma_args_step(args, i, o);
    if flag_named(args[i]) is Some && (forall|k: int| 0 <= k < args[i].len() ==> args[i][k] != '=') && args[i].len() >= 2
        && args[i][1] != 'p' && args[i][1] != 'F' {
        lemma_no_equals_sign(args[i]);
    }
}

/// The version and a merge stop the run, whatever comes after.
pub proof fn law_arguments_that_stop(args: Seq<Seq<char>>, i: int, o: OptionsModel, v: Seq<char>)
    requires
        0 <= i < args.len(),
    ensures
        args[i] == "--version"@ ==> args_from(args, i, o) == Err::<OptionsModel, _>(
            StopModel::Version,
        ),
        args[i] == "--merge"@ || args[i] == "--merge="@ + v ==> args_from(args, i, o) == Err::<
            OptionsModel,
            _,
        >(StopModel::Merge),
{
    lemma_args_step(args, i, o);
    if args[i] == "--merge"@ {
        reveal_strlit("--version");
        reveal_strlit("--");
        reveal_strlit("--merge");
        reveal_strlit("-p");
        reveal_strlit("--strip");
        reveal_strlit("-d");
        reveal_strlit("--directory");
        reveal_strlit("-i");
        reveal_strlit("--input");
        reveal_strlit("-o");
        reveal_strlit("--output");
        reveal_strlit("-F");
        reveal_strlit("--fuzz");
        reveal_strlit("-B");
        reveal_strlit("--prefix");
        reveal_strlit("--backup-prefix");
        reveal_strlit("-z");
        reveal_strlit("--suffix");
        reveal_strlit("--backup-suffix");
        reveal_strlit("-Y");
        reveal_strlit("--basename-prefix");
        reveal_strlit("-V");
        reveal_strlit("--version-control");
        reveal_strlit("-r");
        reveal_strlit("--reject-file");
        assert("--version"@.len() == 9 && "--version"@[1] == '-' && "--version"@[2] == 'v' && "--version"@[3] == 'e' && "--version"@[4] == 'r' && "--version"@[5] == 's' && "--version"@[6] == 'i' && "--version"@[7] == 'o' && "--version"@[8] == 'n');
        assert("--"@.len() == 2 && "--"@[1] == '-');
        assert("--merge"@.len() == 7 && "--merge"@[1] == '-' && "--merge"@[2] == 'm' && "--merge"@[3] == 'e' && "--merge"@[4] == 'r' && "--merge"@[5] == 'g' && "--merge"@[6] == 'e');
        assert("-p"@.len() == 2 && "-p"@[1] == 'p');
        assert("--strip"@.len() == 7 && "--strip"@[1] == '-' && "--strip"@[2] == 's' && "--strip"@[3] == 't' && "--strip"@[4] == 'r' && "--strip"@[5] == 'i' && "--strip"@[6] == 'p');
        assert("-d"@.len() == 2 && "-d"@[1] == 'd');
        assert("--directory"@.len() == 11 && "--directory"@[1] == '-' && "--directory"@[2] == 'd' && "--directory"@[3] == 'i' && "--directory"@[4] == 'r' && "--directory"@[5] == 'e' && "--directory"@[6] == 'c' && "--directory"@[7] == 't' && "--directory"@[8] == 'o' && "--directory"@[9] == 'r' && "--directory"@[10] == 'y');
        assert("-i"@.len() == 2 && "-i"@[1] == 'i');
        assert("--input"@.len() == 7 && "--input"@[1] == '-' && "--input"@[2] == 'i' && "--input"@[3] == 'n' && "--input"@[4] == 'p' && "--input"@[5] == 'u' && "--input"@[6] == 't');
        assert("-o"@.len() == 2 && "-o"@[1] == 'o');
        assert("--output"@.len() == 8 && "--output"@[1] == '-' && "--output"@[2] == 'o' && "--output"@[3] == 'u' && "--output"@[4] == 't' && "--output"@[5] == 'p' && "--output"@[6] == 'u' && "--output"@[7] == 't');
        assert("-F"@.len() == 2 && "-F"@[1] == 'F');
        assert("--fuzz"@.len() == 6 && "--fuzz"@[1] == '-' && "--fuzz"@[2] == 'f' && "--fuzz"@[3] == 'u' && "--fuzz"@[4] == 'z' && "--fuzz"@[5] == 'z');
        assert("-B"@.len() == 2 && "-B"@[1] == 'B');
        assert("--prefix"@.len() == 8 && "--prefix"@[1] == '-' && "--prefix"@[2] == 'p' && "--prefix"@[3] == 'r' && "--prefix"@[4] == 'e' && "--prefix"@[5] == 'f' && "--prefix"@[6] == 'i' && "--prefix"@[7] == 'x');
        assert("--backup-prefix"@.len() == 15 && "--backup-prefix"@[1] == '-' && "--backup-prefix"@[2] == 'b' && "--backup-prefix"@[3] == 'a' && "--backup-prefix"@[4] == 'c' && "--backup-prefix"@[5] == 'k' && "--backup-prefix"@[6] == 'u' && "--backup-prefix"@[7] == 'p' && "--backup-prefix"@[8] == '-' && "--backup-prefix"@[9] == 'p' && "--backup-prefix"@[10] == 'r' && "--backup-prefix"@[11] == 'e');
        assert("-z"@.len() == 2 && "-z"@[1] == 'z');
        assert("--suffix"@.len() == 8 && "--suffix"@[1] == '-' && "--suffix"@[2] == 's' && "--suffix"@[3] == 'u' && "--suffix"@[4] == 'f' && "--suffix"@[5] == 'f' && "--suffix"@[6] == 'i' && "--suffix"@[7] == 'x');
        assert("--backup-suffix"@.len() == 15 && "--backup-suffix"@[1] == '-' && "--backup-suffix"@[2] == 'b' && "--backup-suffix"@[3] == 'a' && "--backup-suffix"@[4] == 'c' && "--backup-suffix"@[5] == 'k' && "--backup-suffix"@[6] == 'u' && "--backup-suffix"@[7] == 'p' && "--backup-suffix"@[8] == '-' && "--backup-suffix"@[9] == 's' && "--backup-suffix"@[10] == 'u' && "--backup-suffix"@[11] == 'f');
        assert("-Y"@.len() == 2 && "-Y"@[1] == 'Y');
        assert("--basename-prefix"@.len() == 17 && "--basename-prefix"@[1] == '-' && "--basename-prefix"@[2] == 'b' && "--basename-prefix"@[3] == 'a' && "--basename-prefix"@[4] == 's' && "--basename-prefix"@[5] == 'e' && "--basename-prefix"@[6] == 'n' && "--basename-prefix"@[7] == 'a' && "--basename-prefix"@[8] == 'm' && "--basename-prefix"@[9] == 'e' && "--basename-prefix"@[10] == '-' && "--basename-prefix"@[11] == 'p');
        assert("-V"@.len() == 2 && "-V"@[1] == 'V');
        assert("--version-control"@.len() == 17 && "--version-control"@[1] == '-' && "--version-control"@[2] == 'v' && "--version-control"@[3] == 'e' && "--version-control"@[4] == 'r' && "--version-control"@[5] == 's' && "--version-control"@[6] == 'i' && "--version-control"@[7] == 'o' && "--version-control"@[8] == 'n' && "--version-control"@[9] == '-' && "--version-control"@[10] == 'c' && "--version-control"@[11] == 'o');
        assert("-r"@.len() == 2 && "-r"@[1] == 'r');
        assert("--reject-file"@.len() == 13 && "--reject-file"@[1] == '-' && "--reject-file"@[2] == 'r' && "--reject-file"@[3] == 'e' && "--reject-file"@[4] == 'j' && "--reject-file"@[5] == 'e' && "--reject-file"@[6] == 'c' && "--reject-file"@[7] == 't' && "--reject-file"@[8] == '-' && "--reject-file"@[9] == 'f' && "--reject-file"@[10] == 'i' && "--reject-file"@[11] == 'l');
        lemma_no_equals_sign(args[i]);
    } else if args[i] == "--merge="@ + v {
        reveal_strlit("--merge=");
        let arg = args[i];
        assert(arg[7] == '=' && arg[2] == 'm' && arg[1] == '-');
        lemma_equals_sign(arg, 7);
        assert(arg.take(8) =~= "--merge="@);
        reveal_strlit("--strip=");
        reveal_strlit("-p");
        reveal_strlit("--directory=");
        reveal_strlit("--input=");
        reveal_strlit("--output=");
        reveal_strlit("--fuzz=");
        reveal_strlit("-F");
        reveal_strlit("--prefix=");
        reveal_strlit("--backup-prefix=");
        reveal_strlit("--suffix=");
        reveal_strlit("--backup-suffix=");
        reveal_strlit("--basename-prefix=");
        reveal_strlit("--version-control=");
        reveal_strlit("--reject-file=");
        reveal_strlit("--reject-format=");
        reveal_strlit("--read-only=");
        lemma_no_prefix(arg, "--strip="@, 2);
        lemma_no_prefix(arg, "-p"@, 1);
        lemma_no_prefix(arg, "--directory="@, 2);
        lemma_no_prefix(arg, "--input="@, 2);
        lemma_no_prefix(arg, "--output="@, 2);
        lemma_no_prefix(arg, "--fuzz="@, 2);
        lemma_no_prefix(arg, "-F"@, 1);
        lemma_no_prefix(arg, "--prefix="@, 2);
        lemma_no_prefix(arg, "--backup-prefix="@, 2);
        lemma_no_prefix(arg, "--suffix="@, 2);
        lemma_no_prefix(arg, "--backup-suffix="@, 2);
        lemma_no_prefix(arg, "--basename-prefix="@, 2);
        lemma_no_prefix(arg, "--version-control="@, 2);
        lemma_no_prefix(arg, "--reject-file="@, 2);
        lemma_no_prefix(arg, "--reject-format="@, 2);
        lemma_no_prefix(arg, "--read-only="@, 2);
    }
}

/// The options with a name from the command line, unless there is one already.
pub open spec fn first_name_kept(o: OptionsModel, name: Seq<char>) -> OptionsModel {
    OptionsModel {
        positional_file: Some(
            match o.positional_file {
                Some(first) => first,
                None => name,
            },
        ),
        ..o
    }
}

/// Every spelled option begins with a dash.
proof fn lemma_dashes(arg: Seq<char>)
    requires
        arg.len() == 0 || arg[0] != '-',
    ensures
        arg != "--version"@ && arg != "--"@ && arg != "--merge"@,
        awaits_value(arg) is None,
        flag_named(arg) is None,
        carries_value(arg) is None,
        !has_prefix(arg, "--merge="@),
        !has_prefix(arg, "-"@),
{
    reveal_strlit("--version");
    reveal_strlit("--");
    reveal_strlit("-");
    reveal_strlit("--merge");
    reveal_strlit("--merge=");
    reveal_strlit("-p");
    reveal_strlit("--strip");
    reveal_strlit("-d");
    reveal_strlit("--directory");
    reveal_strlit("-i");
    reveal_strlit("--input");
    reveal_strlit("-o");
    reveal_strlit("--output");
    reveal_strlit("-F");
    reveal_strlit("--fuzz");
    reveal_strlit("-B");
    reveal_strlit("--prefix");
    reveal_strlit("--backup-prefix");
    reveal_strlit("-z");
    reveal_strlit("--suffix");
    reveal_strlit("--backup-suffix");
    reveal_strlit("-Y");
    reveal_strlit("--basename-prefix");
    reveal_strlit("-V");
    reveal_strlit("--version-control");
    reveal_strlit("-r");
    reveal_strlit("--reject-file");
    reveal_strlit("--strip=");
    reveal_strlit("--directory=");
    reveal_strlit("--input=");
    reveal_strlit("--output=");
    reveal_strlit("--fuzz=");
    reveal_strlit("--prefix=");
    reveal_strlit("--backup-prefix=");
    reveal_strlit("--suffix=");
    reveal_strlit("--backup-suffix=");
    reveal_strlit("--basename-prefix=");
    reveal_strlit("--version-control=");
    reveal_strlit("--reject-file=");
    reveal_strlit("--reject-format=");
    reveal_strlit("--read-only=");
    reveal_strlit("-R");
    reveal_strlit("--reverse");
    reveal_strlit("--dry-run");
    reveal_strlit("-s");
    reveal_strlit("--quiet");
    reveal_strlit("--silent");
    reveal_strlit("-v");
    reveal_strlit("--verbose");
    reveal_strlit("-N");
    reveal_strlit("--forward");
    reveal_strlit("-b");
    reveal_strlit("--backup");
    reveal_strlit("--no-backup-if-mismatch");
    reveal_strlit("--posix");
    reveal_strlit("--binary");
    reveal_strlit("--follow-symlinks");
    reveal_strlit("-e");
    reveal_strlit("--ed");
    reveal_strlit("--set-utc");
    reveal_strlit("--set-time");
    reveal_strlit("-f");
    reveal_strlit("--force");
    reveal_strlit("-t");
    reveal_strlit("--batch");
    reveal_strlit("-E");
    reveal_strlit("--remove-empty-files");
    assert("--version"@[0] == '-');
    assert("--"@[0] == '-');
    assert("--merge"@[0] == '-');
    assert("-p"@[0] == '-');
    assert("--strip"@[0] == '-');
    assert("-d"@[0] == '-');
    assert("--directory"@[0] == '-');
    assert("-i"@[0] == '-');
    assert("--input"@[0] == '-');
    assert("-o"@[0] == '-');
    assert("--output"@[0] == '-');
    assert("-F"@[0] == '-');
    assert("--fuzz"@[0] == '-');
    assert("-B"@[0] == '-');
    assert("--prefix"@[0] == '-');
    assert("--backup-prefix"@[0] == '-');
    assert("-z"@[0] == '-');
    assert("--suffix"@[0] == '-');
    assert("--backup-suffix"@[0] == '-');
    assert("-Y"@[0] == '-');
    assert("--basename-prefix"@[0] == '-');
    assert("-V"@[0] == '-');
    assert("--version-control"@[0] == '-');
    assert("-r"@[0] == '-');
    assert("--reject-file"@[0] == '-');
    assert("-R"@[0] == '-');
    assert("--reverse"@[0] == '-');
    assert("--dry-run"@[0] == '-');
    assert("-s"@[0] == '-');
    assert("--quiet"@[0] == '-');
    assert("--silent"@[0] == '-');
    assert("-v"@[0] == '-');
    assert("--verbose"@[0] == '-');
    assert("-N"@[0] == '-');
    assert("--forward"@[0] == '-');
    assert("-b"@[0] == '-');
    assert("--backup"@[0] == '-');
    assert("--no-backup-if-mismatch"@[0] == '-');
    assert("--posix"@[0] == '-');
    assert("--binary"@[0] == '-');
    assert("--follow-symlinks"@[0] == '-');
    assert("-e"@[0] == '-');
    assert("--ed"@[0] == '-');
    assert("--set-utc"@[0] == '-');
    assert("--set-time"@[0] == '-');
    assert("-f"@[0] == '-');
    assert("--force"@[0] == '-');
    assert("-t"@[0] == '-');
    assert("--batch"@[0] == '-');
    assert("-E"@[0] == '-');
    assert("--remove-empty-files"@[0] == '-');
    if arg.len() > 0 {
        lemma_no_prefix(arg, "--strip="@, 0);
    }
    if arg.len() > 0 {
        lemma_no_prefix(arg, "-p"@, 0);
    }
    if arg.len() > 0 {
        lemma_no_prefix(arg, "--directory="@, 0);
    }
    if arg.len() > 0 {
        lemma_no_prefix(arg, "--input="@, 0);
    }
    if arg.len() > 0 {
        lemma_no_prefix(arg, "--output="@, 0);
    }
    if arg.len() > 0 {
        lemma_no_prefix(arg, "--fuzz="@, 0);
    }
    if arg.len() > 0 {
        lemma_no_prefix(arg, "-F"@, 0);
    }
    if arg.len() > 0 {
        lemma_no_prefix(arg, "--prefix="@, 0);
    }
    if arg.len() > 0 {
        lemma_no_prefix(arg, "--backup-prefix="@, 0);
    }
    if arg.len() > 0 {
        lemma_no_prefix(arg, "--suffix="@, 0);
    }
    if arg.len() > 0 {
        lemma_no_prefix(arg, "--backup-suffix="@, 0);
    }
    if arg.len() > 0 {
        lemma_no_prefix(arg, "--basename-prefix="@, 0);
    }
    if arg.len() > 0 {
        lemma_no_prefix(arg, "--version-control="@, 0);
    }
    if arg.len() > 0 {
        lemma_no_prefix(arg, "--reject-file="@, 0);
    }
    if arg.len() > 0 {
        lemma_no_prefix(arg, "--reject-format="@, 0);
    }
    if arg.len() > 0 {
        lemma_no_prefix(arg, "--read-only="@, 0);
    }
    if arg.len() > 0 {
        lemma_no_prefix(arg, "--merge="@, 0);
    }
    if arg.len() > 0 {
        lemma_no_prefix(arg, "-"@, 0);
    }
}

/// An argument that does not begin with a dash is the name of the file to
/// patch, and so is the one after two dashes. Only the first such name counts.
pub proof fn law_names_on_the_command_line(args: Seq<Seq<char>>, i: int, o: OptionsModel)
    requires
        0 <= i < args.len(),
    ensures
        args[i].len() == 0 || args[i][0] != '-' ==> args_from(args, i, o) == args_from(
            args,
            i + 1,
            first_name_kept(o, args[i]),
        ),
        args[i] == "--"@ && i + 1 < args.len() ==> args_from(args, i, o) == args_from(
            args,
            i + 2,
            first_name_kept(o, args[i + 1]),
        ),
        args[i] == "--"@ && i + 1 == args.len() ==> args_from(args, i, o) == Ok::<_, StopModel>(o),
{
    lemma_args_step(args, i, o);
    if args[i].len() == 0 || args[i][0] != '-' {
        lemma_dashes(args[i]);
    } else if args[i] == "--"@ {
        reveal_strlit("--");
        reveal_strlit("--version");
    }
}

/// What a flag does to the options.
proof fn lemma_flag_is_a_field(o: OptionsModel)
    ensures
        with_flag(o, Flag::Silent) == (OptionsModel {
            on: Switches { silent: true, ..o.on },
            ..o
        }),
        with_flag(o, Flag::Reverse) == (OptionsModel {
            on: Switches { reverse: true, ..o.on },
            ..o
        }),
        with_flag(o, Flag::Forward) == (OptionsModel {
            on: Switches { forward: true, ..o.on },
            ..o
        }),
        with_flag(o, Flag::Backup) == (OptionsModel {
            on: Switches { backup: true, ..o.on },
            ..o
        }),
        with_flag(o, Flag::Force) == (OptionsModel {
            on: Switches { force: true, ..o.on },
            ..o
        }),
        with_flag(o, Flag::RemoveEmpty) == (OptionsModel {
            on: Switches { remove_empty: true, ..o.on },
            ..o
        }),
        with_flag(o, Flag::Verbose) == (OptionsModel {
            on: Switches { verbose: true, ..o.on },
            ..o
        }),
        with_flag(o, Flag::Batch) == (OptionsModel {
            on: Switches { batch: true, ..o.on },
            ..o
        }),
{
}

/// Each of the letters in a row turns on its flag and nothing else, after what
/// the letters before it do; a letter that stands for no flag says nothing.
pub proof fn law_each_letter_turns_on_its_flag(
    o: OptionsModel,
    letters: Seq<char>,
    c: char,
    before: OptionsModel,
)
    requires
        before == with_letters(o, letters),
    ensures
        with_letters(o, Seq::empty()) == o,
        c == 's' ==> with_letters(o, letters.push(c)) == (OptionsModel {
            on: Switches { silent: true, ..before.on },
            ..before
        }),
        c == 'R' ==> with_letters(o, letters.push(c)) == (OptionsModel {
            on: Switches { reverse: true, ..before.on },
            ..before
        }),
        c == 'N' ==> with_letters(o, letters.push(c)) == (OptionsModel {
            on: Switches { forward: true, ..before.on },
            ..before
        }),
        c == 'b' ==> with_letters(o, letters.push(c)) == (OptionsModel {
            on: Switches { backup: true, ..before.on },
            ..before
        }),
        c == 'f' ==> with_letters(o, letters.push(c)) == (OptionsModel {
            on: Switches { force: true, ..before.on },
            ..before
        }),
        c == 'E' ==> with_letters(o, letters.push(c)) == (OptionsModel {
            on: Switches { remove_empty: true, ..before.on },
            ..before
        }),
        c == 'v' ==> with_letters(o, letters.push(c)) == (OptionsModel {
            on: Switches { verbose: true, ..before.on },
            ..before
        }),
        c == 't' ==> with_letters(o, letters.push(c)) == (OptionsModel {
            on: Switches { batch: true, ..before.on },
            ..before
        }),
        c != 's' && c != 'R' && c != 'N' && c != 'b' && c != 'f' && c != 'E' && c != 'v' && c != 't'
            ==> with_letters(o, letters.push(c)) == before,
{
    law_letters_are_flags(o, letters, c);
    lemma_flag_is_a_field(before);
}

/// Two letters or more behind one dash are letters in a row, unless the first
/// takes what follows as its value.
pub proof fn law_letters_in_a_row(args: Seq<Seq<char>>, i: int, o: OptionsModel, letters: Seq<char>)
    requires
        0 <= i < args.len(),
        letters.len() >= 2,
        letters[0] != '-' && letters[0] != 'p' && letters[0] != 'F',
        args[i] == seq!['-'] + letters,
    ensures
        args_from(args, i, o) == args_from(
            args,
            i + 1,
            with_letters(o, letters),
        ),
{
    let arg = args[i];
    lemma_args_step(args, i, o);
    assert(arg.skip(1) =~= letters);
    assert(arg[1] == letters[0] && arg[0] == '-');
    reveal_strlit("--version");
    reveal_strlit("--");
    reveal_strlit("-");
    reveal_strlit("--merge");
    reveal_strlit("--merge=");
    reveal_strlit("-p");
    reveal_strlit("--strip");
    reveal_strlit("-d");
    reveal_strlit("--directory");
    reveal_strlit("-i");
    reveal_strlit("--input");
    reveal_strlit("-o");
    reveal_strlit("--output");
    reveal_strlit("-F");
    reveal_strlit("--fuzz");
    reveal_strlit("-B");
    reveal_strlit("--prefix");
    reveal_strlit("--backup-prefix");
    reveal_strlit("-z");
    reveal_strlit("--suffix");
    reveal_strlit("--backup-suffix");
    reveal_strlit("-Y");
    reveal_strlit("--basename-prefix");
    reveal_strlit("-V");
    reveal_strlit("--version-control");
    reveal_strlit("-r");
    reveal_strlit("--reject-file");
    reveal_strlit("--strip=");
    reveal_strlit("--directory=");
    reveal_strlit("--input=");
    reveal_strlit("--output=");
    reveal_strlit("--fuzz=");
    reveal_strlit("--prefix=");
    reveal_strlit("--backup-prefix=");
    reveal_strlit("--suffix=");
    reveal_strlit("--backup-suffix=");
    reveal_strlit("--basename-prefix=");
    reveal_strlit("--version-control=");
    reveal_strlit("--reject-file=");
    reveal_strlit("--reject-format=");
    reveal_strlit("--read-only=");
    reveal_strlit("-R");
    reveal_strlit("--reverse");
    reveal_strlit("--dry-run");
    reveal_strlit("-s");
    reveal_strlit("--quiet");
    reveal_strlit("--silent");
    reveal_strlit("-v");
    reveal_strlit("--verbose");
    reveal_strlit("-N");
    reveal_strlit("--forward");
    reveal_strlit("-b");
    reveal_strlit("--backup");
    reveal_strlit("--no-backup-if-mismatch");
    reveal_strlit("--posix");
    reveal_strlit("--binary");
    reveal_strlit("--follow-symlinks");
    reveal_strlit("-e");
    reveal_strlit("--ed");
    reveal_strlit("--set-utc");
    reveal_strlit("--set-time");
    reveal_strlit("-f");
    reveal_strlit("--force");
    reveal_strlit("-t");
    reveal_strlit("--batch");
    reveal_strlit("-E");
    reveal_strlit("--remove-empty-files");
    assert("--version"@[1] == '-' || "--version"@.len() == 2);
    assert("--"@[1] == '-' || "--"@.len() == 2);
    assert("--merge"@[1] == '-' || "--merge"@.len() == 2);
    assert("-p"@[1] == '-' || "-p"@.len() == 2);
    assert("--strip"@[1] == '-' || "--strip"@.len() == 2);
    assert("-d"@[1] == '-' || "-d"@.len() == 2);
    assert("--directory"@[1] == '-' || "--directory"@.len() == 2);
    assert("-i"@[1] == '-' || "-i"@.len() == 2);
    assert("--input"@[1] == '-' || "--input"@.len() == 2);
    assert("-o"@[1] == '-' || "-o"@.len() == 2);
    assert("--output"@[1] == '-' || "--output"@.len() == 2);
    assert("-F"@[1] == '-' || "-F"@.len() == 2);
    assert("--fuzz"@[1] == '-' || "--fuzz"@.len() == 2);
    assert("-B"@[1] == '-' || "-B"@.len() == 2);
    assert("--prefix"@[1] == '-' || "--prefix"@.len() == 2);
    assert("--backup-prefix"@[1] == '-' || "--backup-prefix"@.len() == 2);
    assert("-z"@[1] == '-' || "-z"@.len() == 2);
    assert("--suffix"@[1] == '-' || "--suffix"@.len() == 2);
    assert("--backup-suffix"@[1] == '-' || "--backup-suffix"@.len() == 2);
    assert("-Y"@[1] == '-' || "-Y"@.len() == 2);
    assert("--basename-prefix"@[1] == '-' || "--basename-prefix"@.len() == 2);
    assert("-V"@[1] == '-' || "-V"@.len() == 2);
    assert("--version-control"@[1] == '-' || "--version-control"@.len() == 2);
    assert("-r"@[1] == '-' || "-r"@.len() == 2);
    assert("--reject-file"@[1] == '-' || "--reject-file"@.len() == 2);
    assert("-R"@[1] == '-' || "-R"@.len() == 2);
    assert("--reverse"@[1] == '-' || "--reverse"@.len() == 2);
    assert("--dry-run"@[1] == '-' || "--dry-run"@.len() == 2);
    assert("-s"@[1] == '-' || "-s"@.len() == 2);
    assert("--quiet"@[1] == '-' || "--quiet"@.len() == 2);
    assert("--silent"@[1] == '-' || "--silent"@.len() == 2);
    assert("-v"@[1] == '-' || "-v"@.len() == 2);
    assert("--verbose"@[1] == '-' || "--verbose"@.len() == 2);
    assert("-N"@[1] == '-' || "-N"@.len() == 2);
    assert("--forward"@[1] == '-' || "--forward"@.len() == 2);
    assert("-b"@[1] == '-' || "-b"@.len() == 2);
    assert("--backup"@[1] == '-' || "--backup"@.len() == 2);
    assert("--no-backup-if-mismatch"@[1] == '-' || "--no-backup-if-mismatch"@.len() == 2);
    assert("--posix"@[1] == '-' || "--posix"@.len() == 2);
    assert("--binary"@[1] == '-' || "--binary"@.len() == 2);
    assert("--follow-symlinks"@[1] == '-' || "--follow-symlinks"@.len() == 2);
    assert("-e"@[1] == '-' || "-e"@.len() == 2);
    assert("--ed"@[1] == '-' || "--ed"@.len() == 2);
    assert("--set-utc"@[1] == '-' || "--set-utc"@.len() == 2);
    assert("--set-time"@[1] == '-' || "--set-time"@.len() == 2);
    assert("-f"@[1] == '-' || "-f"@.len() == 2);
    assert("--force"@[1] == '-' || "--force"@.len() == 2);
    assert("-t"@[1] == '-' || "-t"@.len() == 2);
    assert("--batch"@[1] == '-' || "--batch"@.len() == 2);
    assert("-E"@[1] == '-' || "-E"@.len() == 2);
    assert("--remove-empty-files"@[1] == '-' || "--remove-empty-files"@.len() == 2);
    assert(arg.take(1) =~= "-"@);
    lemma_no_prefix(arg, "--"@, 1);
    lemma_no_prefix(arg, "--strip="@, 1);
    lemma_no_prefix(arg, "-p"@, 1);
    lemma_no_prefix(arg, "--directory="@, 1);
    lemma_no_prefix(arg, "--input="@, 1);
    lemma_no_prefix(arg, "--output="@, 1);
    lemma_no_prefix(arg, "--fuzz="@, 1);
    lemma_no_prefix(arg, "-F"@, 1);
    lemma_no_prefix(arg, "--prefix="@, 1);
    lemma_no_prefix(arg, "--backup-prefix="@, 1);
    lemma_no_prefix(arg, "--suffix="@, 1);
    lemma_no_prefix(arg, "--backup-suffix="@, 1);
    lemma_no_prefix(arg, "--basename-prefix="@, 1);
    lemma_no_prefix(arg, "--version-control="@, 1);
    lemma_no_prefix(arg, "--reject-file="@, 1);
    lemma_no_prefix(arg, "--reject-format="@, 1);
    lemma_no_prefix(arg, "--read-only="@, 1);
    lemma_no_prefix(arg, "--merge="@, 1);
}

} // verus!
