//! The lines that a run prints. File names in them are quoted for a shell.
use vstd::prelude::*;

use crate::model::{DiffFormat, FilePatch, PatchModel};
use crate::number::{decimal, decimal_of_signed, decimal_of_usize, signed_decimal};
use crate::options::{Options, OptionsModel};
use crate::paths::{quote_for_display, quoted};
use crate::text::texts;

verus! {

/// The word for `n` hunks.
pub open spec fn hunk_word(n: nat) -> Seq<char> {
    if n == 1 {
        "hunk"@
    } else {
        "hunks"@
    }
}

/// What a success message says of fuzz.
pub open spec fn fuzz_part(fuzz: nat) -> Seq<char> {
    if fuzz == 0 {
        Seq::empty()
    } else {
        " with fuzz "@ + decimal(fuzz)
    }
}

/// What a success message says of an offset.
pub open spec fn offset_part(offset: int) -> Seq<char> {
    if offset == 0 {
        Seq::empty()
    } else {
        " (offset "@ + signed_decimal(offset) + if offset == 1 {
            " line)"@
        } else {
            " lines)"@
        }
    }
}

/// That hunk number `n` was carried out at this line.
pub open spec fn success_text(n: nat, line: int, offset: int, fuzz: nat) -> Seq<char> {
    "Hunk #"@ + decimal(n) + " succeeded at "@ + signed_decimal(line) + fuzz_part(fuzz)
        + offset_part(offset) + "."@
}

/// That hunk number `n`, which belongs at this line, fits nowhere.
pub open spec fn failure_text(n: nat, line: int, endings_differ: bool) -> Seq<char> {
    "Hunk #"@ + decimal(n) + " FAILED at "@ + signed_decimal(line) + if endings_differ {
        " (different line endings)."@
    } else {
        "."@
    }
}

/// That hunk number `n` is in the file already.
pub open spec fn skipped_text(n: nat) -> Seq<char> {
    "Skipping patch -- already applied (hunk #"@ + decimal(n) + ")."@
}

/// The file that rejected hunks are saved to.
pub open spec fn reject_name(o: OptionsModel, target: Seq<char>) -> Seq<char> {
    match o.reject_file {
        Some(name) => name,
        None => target + ".rej"@,
    }
}

/// That all hunks of a patch are passed over.
pub open spec fn ignored_text(n: nat) -> Seq<char> {
    decimal(n) + " out of "@ + decimal(n) + " hunk ignored"@
}

/// That all hunks of a patch are passed over and saved.
pub open spec fn saved_text(n: nat, rejects: Seq<char>) -> Seq<char> {
    decimal(n) + " out of "@ + decimal(n) + " "@ + hunk_word(n)
        + " ignored -- saving rejects to file "@ + quoted(rejects)
}

/// The marks before the two headers of a patch.
pub open spec fn header_marks(format: DiffFormat) -> (Seq<char>, Seq<char>) {
    if format == DiffFormat::Context {
        ("*** "@, "--- "@)
    } else {
        ("--- "@, "+++ "@)
    }
}

/// That no file was found for a patch, with its headers and a hint.
pub open spec fn not_found_lines(p: PatchModel, hint: Seq<char>) -> Seq<Seq<char>> {
    let marks = header_marks(p.format);
    Seq::<Seq<char>>::empty().push("can't find file to patch at input line 3"@).push(hint).push(
        "The text leading up to this was:"@,
    ).push("--------------------------"@).push("|"@ + marks.0 + p.old_header).push(
        "|"@ + marks.1 + p.new_header,
    ).push("--------------------------"@).push("No file to patch.  Skipping patch."@).push(
        ignored_text(p.hunks.len()),
    )
}

/// That some hunks of a patch failed, and what follows from that.
pub open spec fn failure_lines(
    o: OptionsModel,
    target: Seq<char>,
    failed: nat,
    total: nat,
) -> Seq<Seq<char>> {
    let before = if o.on.set_utc || o.on.set_time {
        Seq::empty().push("Not setting time of file "@ + quoted(target) + " (time mismatch)"@)
    } else {
        Seq::empty()
    };
    if failed == 0 || o.on.silent {
        Seq::empty()
    } else {
        before.push(
            decimal(failed) + " out of "@ + decimal(total) + " "@ + hunk_word(total) + " FAILED"@
                + if o.on.dry_run {
                Seq::empty()
            } else {
                " -- saving rejects to file "@ + quoted(reject_name(o, target))
            },
        )
    }
}

/// That a file stays although the patch deletes it.
pub open spec fn kept_text(target: Seq<char>) -> Seq<char> {
    "Not deleting file "@ + quoted(target) + " as content differs from patch"@
}

// ---------------------------------------------------------------------------
// Operations
// ---------------------------------------------------------------------------

/// Adds a line.
pub fn say(out: &mut Vec<String>, line: String)
    ensures
        texts(final(out)@) == texts(old(out)@).push(line@),
{
    let ghost before = texts(out@);
    let ghost text = line@;
    out.push(line);
    assert(texts(out@) =~= before.push(text));
}

/// No lines yet.
pub fn no_lines() -> (r: Vec<String>)
    ensures
        texts(r@) == Seq::<Seq<char>>::empty(),
{
    let r: Vec<String> = Vec::new();
    assert(texts(r@) =~= Seq::<Seq<char>>::empty());
    r
}

/// Three pieces of text in a row.
pub fn text3(a: &str, b: &str, c: &str) -> (r: String)
    ensures
        r@ == a@ + b@ + c@,
{
    let mut s = a.to_owned();
    s.append(b);
    s.append(c);
    s
}

/// The word for `n` hunks.
pub fn word_for_hunks(n: usize) -> (r: &'static str)
    ensures
        r@ == hunk_word(n as nat),
{
    if n == 1 {
        "hunk"
    } else {
        "hunks"
    }
}

/// The message for a hunk that was carried out.
pub fn success_message(n: usize, line: i64, offset: i64, fuzz: usize) -> (r: String)
    ensures
        r@ == success_text(n as nat, line as int, offset as int, fuzz as nat),
{
    let mut fuzz_text = String::new();
    if fuzz != 0 {
        fuzz_text = " with fuzz ".to_owned();
        fuzz_text.append(decimal_of_usize(fuzz).as_str());
    }
    let mut offset_text = String::new();
    if offset != 0 {
        offset_text = " (offset ".to_owned();
        offset_text.append(decimal_of_signed(offset).as_str());
        if offset == 1 {
            offset_text.append(" line)");
        } else {
            offset_text.append(" lines)");
        }
    }
    assert(fuzz_text@ == fuzz_part(fuzz as nat));
    assert(offset_text@ == offset_part(offset as int));
    let mut s = "Hunk #".to_owned();
    s.append(decimal_of_usize(n).as_str());
    s.append(" succeeded at ");
    s.append(decimal_of_signed(line).as_str());
    s.append(fuzz_text.as_str());
    s.append(offset_text.as_str());
    s.append(".");
    s
}

/// The message for a hunk that fits nowhere.
pub fn failure_message(n: usize, line: i64, endings_differ: bool) -> (r: String)
    ensures
        r@ == failure_text(n as nat, line as int, endings_differ),
{
    let mut s = "Hunk #".to_owned();
    s.append(decimal_of_usize(n).as_str());
    s.append(" FAILED at ");
    s.append(decimal_of_signed(line).as_str());
    if endings_differ {
        s.append(" (different line endings).");
    } else {
        s.append(".");
    }
    s
}

/// The message for a hunk that is not tried.
pub fn refusal_message(n: usize, line: usize) -> (r: String)
    ensures
        r@ == failure_text(n as nat, line as int, false),
{
    let mut s = "Hunk #".to_owned();
    s.append(decimal_of_usize(n).as_str());
    s.append(" FAILED at ");
    s.append(decimal_of_usize(line).as_str());
    s.append(".");
    s
}

/// The message for a hunk that is in the file already.
pub fn skipped_message(n: usize) -> (r: String)
    ensures
        r@ == skipped_text(n as nat),
{
    let n = decimal_of_usize(n);
    text3("Skipping patch -- already applied (hunk #", n.as_str(), ").")
}

/// The file that rejected hunks are saved to.
pub fn reject_path(opts: &Options, target: &str) -> (r: String)
    ensures
        r@ == reject_name(opts@, target@),
{
    match &opts.reject_file {
        Some(name) => name.clone(),
        None => {
            let mut s = target.to_owned();
            s.append(".rej");
            s
        },
    }
}

/// The message that all `n` hunks are passed over.
pub fn ignored_message(n: usize) -> (r: String)
    ensures
        r@ == ignored_text(n as nat),
{
    let d = decimal_of_usize(n);
    let mut s = d.clone();
    s.append(" out of ");
    s.append(d.as_str());
    s.append(" hunk ignored");
    s
}

/// The message that all `n` hunks are passed over and saved.
pub fn saved_message(n: usize, rejects: &str) -> (r: String)
    ensures
        r@ == saved_text(n as nat, rejects@),
{
    let d = decimal_of_usize(n);
    let mut s = d.clone();
    s.append(" out of ");
    s.append(d.as_str());
    s.append(" ");
    s.append(word_for_hunks(n));
    s.append(" ignored -- saving rejects to file ");
    s.append(quote_for_display(rejects).as_str());
    s
}

/// The message that no file was found for a patch.
pub fn not_found_message(out: &mut Vec<String>, patch: &FilePatch, hint: &str)
    ensures
        texts(final(out)@) == texts(old(out)@) + not_found_lines(patch@, hint@),
{
    let ghost before = texts(out@);
    let (first, second) = if patch.format == DiffFormat::Context {
        ("*** ", "--- ")
    } else {
        ("--- ", "+++ ")
    };
    say(out, "can't find file to patch at input line 3".to_owned());
    say(out, hint.to_owned());
    say(out, "The text leading up to this was:".to_owned());
    say(out, "--------------------------".to_owned());
    say(out, text3("|", first, patch.old_header.as_str()));
    say(out, text3("|", second, patch.new_header.as_str()));
    say(out, "--------------------------".to_owned());
    say(out, "No file to patch.  Skipping patch.".to_owned());
    say(out, ignored_message(patch.hunks.len()));
    assert(texts(out@) =~= before + not_found_lines(patch@, hint@));
}

/// The message that a file stays although the patch deletes it.
pub fn kept_message(target: &str) -> (r: String)
    ensures
        r@ == kept_text(target@),
{
    text3("Not deleting file ", quote_for_display(target).as_str(), " as content differs from patch")
}

/// The message that hunks of a patch failed.
pub fn failure_summary(opts: &Options, target: &str, failed: usize, total: usize) -> (r: Vec<
    String,
>)
    ensures
        texts(r@) == failure_lines(opts@, target@, failed as nat, total as nat),
{
    let mut out = no_lines();
    if failed == 0 || opts.on.silent {
        return out;
    }
    if opts.on.set_utc || opts.on.set_time {
        say(&mut out, text3("Not setting time of file ", quote_for_display(target).as_str(), " (time mismatch)"));
    }
    let mut suffix = String::new();
    if !opts.on.dry_run {
        suffix = " -- saving rejects to file ".to_owned();
        suffix.append(quote_for_display(reject_path(opts, target).as_str()).as_str());
    }
    let mut s = decimal_of_usize(failed);
    s.append(" out of ");
    s.append(decimal_of_usize(total).as_str());
    s.append(" ");
    s.append(word_for_hunks(total));
    s.append(" FAILED");
    s.append(suffix.as_str());
    say(&mut out, s);
    out
}

} // verus!
