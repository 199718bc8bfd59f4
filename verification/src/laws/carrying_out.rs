//! What carrying out the hunks of a patch comes to.
use vstd::prelude::*;

use crate::apply::{applied, steps_of, Applied, ApplyError, Kind};
use crate::laws::placing::{left_out_first, left_out_last, lemma_leading, lemma_trailing};
use crate::laws::unified_form::lemma_lengths;
use crate::laws::wording::ended_lines;
use crate::model::{HunkModel, LineModel, PatchModel};
use crate::number::{decimal, signed_decimal};
use crate::options::OptionsModel;
use crate::paths::stripped_opt;
use crate::report::{failure_text, skipped_text, success_text};
use crate::run::{
    added_lines, after_hunk, after_hunks, after_refusal, belongs_at, file_lines, growth,
    is_removed, keeps_rest, new_text, removed_lines, reported_fuzz, Manner, RunModel,
};
use crate::text::{joined, newline_parts, std_lines, trimmed, without_cr};

verus! {

// ---------------------------------------------------------------------------
// Places and sizes
// ---------------------------------------------------------------------------

proof fn lemma_counts(lines: Seq<LineModel>)
    ensures
        added_lines(lines) == lines.filter(|l: LineModel| l is Add).len(),
        removed_lines(lines) == lines.filter(|l: LineModel| l is Remove).len(),
        added_lines(lines) <= lines.len(),
        removed_lines(lines) <= lines.len(),
    decreases lines.len(),
{
    reveal(Seq::filter);
    if lines.len() > 0 {
        lemma_counts(lines.drop_last());
    }
}

/// A hunk makes the file longer by the lines that it adds, less those that it
/// removes; in reverse it makes it shorter by as much.
pub proof fn law_growth_of_a_hunk(lines: Seq<LineModel>)
    requires
        lines.len() <= i64::MAX,
        lines.len() <= usize::MAX,
    ensures
        growth(lines, false) == lines.filter(|l: LineModel| l is Add).len() - lines.filter(
            |l: LineModel| l is Remove,
        ).len(),
        growth(lines, true) == lines.filter(|l: LineModel| l is Remove).len() - lines.filter(
            |l: LineModel| l is Add,
        ).len(),
{
    lemma_counts(lines);
}

/// A hunk belongs at the line that its header gives, moved by what the hunks
/// before it added: that of the old side, or of the new side in reverse. A side
/// without lines is given by the line above it, and the line zero is the first.
pub proof fn law_line_that_a_hunk_belongs_at(h: HunkModel, delta: i64)
    requires
        h.old_start < 0x4000_0000_0000_0000,
        h.new_start < 0x4000_0000_0000_0000,
        -0x4000_0000_0000_0000 < delta < 0x4000_0000_0000_0000,
    ensures
        h.old_start == 0 ==> belongs_at(h, false, delta) == 1,
        h.old_start > 0 && h.old_count > 0 ==> belongs_at(h, false, delta) == h.old_start + delta,
        h.old_start > 0 && h.old_count == 0 ==> belongs_at(h, false, delta) == h.old_start + 1
            + delta,
        h.new_start == 0 ==> belongs_at(h, true, delta) == 1,
        h.new_start > 0 && h.new_count > 0 ==> belongs_at(h, true, delta) == h.new_start + delta,
        h.new_start > 0 && h.new_count == 0 ==> belongs_at(h, true, delta) == h.new_start + 1
            + delta,
{
}

/// Exactly this many context lines begin and end the hunk.
pub open spec fn context_at_ends(lines: Seq<LineModel>, lead: int, trail: int) -> bool {
    left_out_first(lines, lines.len() as int, lead) && left_out_last(
        lines,
        lines.len() as int,
        trail,
    )
}

/// The fuzz in a message is the fuzz that was needed; or, if that is more, by
/// how much the context at one end is longer than at the other, when the hunk
/// was moved, or when it has less at its end, does not begin the file, and does
/// not reach the end of the file either.
pub proof fn law_fuzz_that_is_reported(
    h: HunkModel,
    a: Applied,
    offset: i64,
    file_len: nat,
    lead: int,
    trail: int,
)
    requires
        context_at_ends(h.lines, lead, trail),
        0 <= a.level,
        0 <= a.start && a.start + h.lines.len() <= usize::MAX,
    ensures
        ({
            let old = h.lines.filter(|l: LineModel| !(l is Add)).len();
            let short = lead > trail && h.old_start > 1 && a.start + old < file_len;
            let uneven = if lead > trail {
                lead - trail
            } else {
                trail - lead
            };
            reported_fuzz(h, a, offset, file_len) == if (offset != 0 || short) && uneven > a.level {
                uneven
            } else {
                a.level
            }
        }),
{
    let steps = steps_of(h.lines, false, false);
    assert forall|i: int| 0 <= i < lead implies (#[trigger] steps[i]).kind == Kind::Context by {
        assert(h.lines[i] is Context);
    }
    assert forall|i: int| steps.len() - trail <= i < steps.len() implies (#[trigger] steps[i]).kind
        == Kind::Context by {
        assert(h.lines[i] is Context);
    }
    lemma_leading(steps, lead);
    lemma_trailing(steps, trail);
    lemma_lengths(h.lines);
    lemma_filter_is_shorter(h.lines);
}

proof fn lemma_filter_is_shorter(lines: Seq<LineModel>)
    ensures
        lines.filter(|l: LineModel| !(l is Add)).len() <= lines.len(),
    decreases lines.len(),
{
    reveal(Seq::filter);
    if lines.len() > 0 {
        lemma_filter_is_shorter(lines.drop_last());
    }
}

// ---------------------------------------------------------------------------
// One hunk after the other
// ---------------------------------------------------------------------------

/// Hunks are carried out one after the other, each on what the ones before it
/// made of the file.
pub proof fn law_hunks_one_after_the_other(
    r: RunModel,
    hunks: Seq<HunkModel>,
    i: int,
    m: Manner,
)
    requires
        0 <= i <= hunks.len(),
    ensures
        i == hunks.len() ==> after_hunks(r, hunks, i, m) == Ok::<_, ApplyError>(r),
        i < hunks.len() ==> after_hunks(r, hunks, i, m) == match after_hunk(r, hunks[i], i, m) {
            Ok(next) => after_hunks(next, hunks, i + 1, m),
            Err(e) => Err(e),
        },
{
}

/// A hunk that is found changes the file as `applied` says and fails nothing;
/// what it adds moves the hunks below it. It is reported when it was moved, when
/// it took fuzz, or when all is to be told.
pub proof fn law_hunk_that_is_found(
    r: RunModel,
    h: HunkModel,
    i: int,
    m: Manner,
    a: Applied,
)
    requires
        0 <= i,
        applied(r.lines, h, m.fuzz as int, m.reverse, m.strip_cr) == Ok::<_, ApplyError>(Some(a)),
        0 <= a.start < i64::MAX,
        a.start <= usize::MAX,
        i64::MIN <= a.start + 1 - belongs_at(h, m.reverse, r.delta) <= i64::MAX,
        i64::MIN <= r.delta + growth(h.lines, m.reverse) <= i64::MAX,
    ensures
        ({
            let offset = a.start + 1 - belongs_at(h, m.reverse, r.delta);
            let fuzz = reported_fuzz(h, a, offset as i64, r.lines.len());
            let told = offset != 0 || fuzz > 0 || m.verbose;
            after_hunk(r, h, i, m) matches Ok(next) && {
                &&& next.lines == a.lines
                &&& next.failed == r.failed
                &&& next.delta == r.delta + growth(h.lines, m.reverse)
                &&& !told ==> next.messages == r.messages
                &&& told ==> next.messages == r.messages.push(
                    success_text((i + 1) as nat, a.start + 1, offset, fuzz),
                )
            }
        }),
{
}

/// A hunk that is not found fails and leaves the file as it is; it is said at
/// which line it belongs. One that stands in the file already is passed over
/// instead, when that is asked for.
pub proof fn law_hunk_that_is_not_found(r: RunModel, h: HunkModel, i: int, m: Manner)
    requires
        0 <= i <= usize::MAX,
        applied(r.lines, h, m.fuzz as int, m.reverse, m.strip_cr) == Ok::<
            Option<Applied>,
            ApplyError,
        >(None),
        m.forward ==> applied(r.lines, h, m.fuzz as int, !m.reverse, m.strip_cr) is Ok,
    ensures
        ({
            let there = m.forward && applied(r.lines, h, m.fuzz as int, !m.reverse, m.strip_cr)
                != Ok::<Option<Applied>, ApplyError>(None);
            after_hunk(r, h, i, m) matches Ok(next) && {
                &&& next.lines == r.lines
                &&& next.delta == r.delta
                &&& there ==> next.failed == r.failed
                &&& !there ==> next.failed == r.failed.push(i as usize)
                &&& m.silent ==> next.messages == r.messages
                &&& !m.silent && there ==> next.messages == r.messages.push(
                    skipped_text((i + 1) as nat),
                )
                &&& !m.silent && !there ==> next.messages == r.messages.push(
                    failure_text(
                        (i + 1) as nat,
                        belongs_at(h, m.reverse, r.delta) as int,
                        m.endings_differ,
                    ),
                )
            }
        }),
{
}

/// Hunks that are refused all fail, untried, and the file stays as it is. Each
/// is told with the line in its header.
pub proof fn law_refused_hunks_all_fail(
    lines: Seq<Seq<char>>,
    hunks: Seq<HunkModel>,
    n: int,
    silent: bool,
)
    requires
        0 <= n <= hunks.len() <= usize::MAX,
    ensures
        ({
            let r = after_refusal(lines, hunks, n, silent);
            &&& r.lines == lines
            &&& r.delta == 0
            &&& r.failed.len() == n
            &&& forall|k: int| 0 <= k < n ==> #[trigger] r.failed[k] == k
            &&& silent ==> r.messages == Seq::<Seq<char>>::empty()
            &&& !silent ==> r.messages.len() == n && forall|k: int|
                0 <= k < n ==> #[trigger] r.messages[k] == failure_text(
                    (k + 1) as nat,
                    if hunks[k].old_start == 0 {
                        1
                    } else {
                        hunks[k].old_start as int
                    },
                    false,
                )
        }),
    decreases n,
{
    if n > 0 {
        law_refused_hunks_all_fail(lines, hunks, n - 1, silent);
    }
}

/// What is said of a hunk: its number and its line, then the fuzz and the offset
/// if there are any, in the words of the messages.
pub proof fn law_messages_on_hunks(n: nat, line: int, offset: int, fuzz: nat)
    ensures
        success_text(n, line, 0, 0) == "Hunk #"@ + decimal(n) + " succeeded at "@ + signed_decimal(
            line,
        ) + "."@,
        offset != 0 && offset != 1 ==> success_text(n, line, offset, 0) == "Hunk #"@ + decimal(n)
            + " succeeded at "@ + signed_decimal(line) + " (offset "@ + signed_decimal(offset)
            + " lines)."@,
        success_text(n, line, 1, 0) == "Hunk #"@ + decimal(n) + " succeeded at "@ + signed_decimal(
            line,
        ) + " (offset 1 line)."@,
        fuzz > 0 ==> success_text(n, line, 0, fuzz) == "Hunk #"@ + decimal(n) + " succeeded at "@
            + signed_decimal(line) + " with fuzz "@ + decimal(fuzz) + "."@,
        fuzz > 0 && offset != 0 && offset != 1 ==> success_text(n, line, offset, fuzz) == "Hunk #"@
            + decimal(n) + " succeeded at "@ + signed_decimal(line) + " with fuzz "@ + decimal(fuzz)
            + " (offset "@ + signed_decimal(offset) + " lines)."@,
        fuzz > 0 ==> success_text(n, line, 1, fuzz) == "Hunk #"@ + decimal(n) + " succeeded at "@
            + signed_decimal(line) + " with fuzz "@ + decimal(fuzz) + " (offset 1 line)."@,
        failure_text(n, line, false) == "Hunk #"@ + decimal(n) + " FAILED at "@ + signed_decimal(
            line,
        ) + "."@,
        failure_text(n, line, true) == "Hunk #"@ + decimal(n) + " FAILED at "@ + signed_decimal(
            line,
        ) + " (different line endings)."@,
        skipped_text(n) == "Skipping patch -- already applied (hunk #"@ + decimal(n) + ")."@,
{
    let start = "Hunk #"@ + decimal(n) + " succeeded at "@ + signed_decimal(line);
    let fuzzy = start + (" with fuzz "@ + decimal(fuzz));
    assert(start + Seq::<char>::empty() + Seq::<char>::empty() =~= start);
    assert(start + (" with fuzz "@ + decimal(fuzz)) =~= start + " with fuzz "@ + decimal(fuzz));
    assert(fuzzy + Seq::<char>::empty() =~= fuzzy);
    reveal_strlit(" lines)");
    reveal_strlit(" line)");
    reveal_strlit(".");
    reveal_strlit(" lines).");
    reveal_strlit(" (offset 1 line).");
    reveal_strlit(" (offset ");
    assert(" lines)"@ + "."@ =~= " lines)."@);
    assert(signed_decimal(1) =~= seq!['1']);
    assert(" (offset "@ + signed_decimal(1) + " line)"@ + "."@ =~= " (offset 1 line)."@);
    let moved = " (offset "@ + signed_decimal(offset) + " lines)"@;
    assert(start + Seq::<char>::empty() + moved + "."@ =~= start + " (offset "@ + signed_decimal(
        offset,
    ) + (" lines)"@ + "."@));
    assert(fuzzy + moved + "."@ =~= start + " with fuzz "@ + decimal(fuzz) + " (offset "@
        + signed_decimal(offset) + (" lines)"@ + "."@));
    let by_one = " (offset "@ + signed_decimal(1) + " line)"@;
    assert(start + Seq::<char>::empty() + by_one + "."@ =~= start + (by_one + "."@));
    assert(fuzzy + by_one + "."@ =~= start + " with fuzz "@ + decimal(fuzz) + (by_one + "."@));
}

// ---------------------------------------------------------------------------
// The new file
// ---------------------------------------------------------------------------

/// In binary mode carriage returns are part of the lines of a file; else those
/// before a newline are not.
pub proof fn law_lines_of_a_file(content: Seq<char>)
    ensures
        file_lines(content, true) == newline_parts(content),
        file_lines(content, false) == std_lines(content),
{
}

proof fn lemma_joined_ended(lines: Seq<Seq<char>>)
    requires
        lines.len() > 0,
    ensures
        joined(lines, seq!['\n']) + seq!['\n'] == ended_lines(lines),
    decreases lines.len(),
{
    let first = lines[0];
    let rest = lines.skip(1);
    if lines.len() == 1 {
        assert(ended_lines(rest) =~= Seq::empty());
        assert(joined(lines, seq!['\n']) == first);
        assert(joined(lines, seq!['\n']) + seq!['\n'] =~= ended_lines(lines));
    } else {
        lemma_joined_ended(rest);
        lemma_joined_first_line(lines);
        assert(joined(lines, seq!['\n']) + seq!['\n'] =~= first + seq!['\n'] + (joined(
            rest,
            seq!['\n'],
        ) + seq!['\n']));
    }
}

proof fn lemma_joined_first_line(lines: Seq<Seq<char>>)
    requires
        lines.len() > 1,
    ensures
        joined(lines, seq!['\n']) == lines[0] + seq!['\n'] + joined(lines.skip(1), seq!['\n']),
    decreases lines.len(),
{
    let sep = seq!['\n'];
    let init = lines.drop_last();
    if lines.len() == 2 {
        assert(joined(init, sep) == lines[0]);
        assert(joined(lines.skip(1), sep) == lines[1]);
    } else {
        lemma_joined_first_line(init);
        assert(init.skip(1) =~= lines.skip(1).drop_last());
        assert(lines.skip(1).last() == lines.last());
        assert(joined(lines, sep) =~= lines[0] + sep + (joined(lines.skip(1).drop_last(), sep) + sep
            + lines.last()));
    }
}

/// A file that had content is written line by line, a newline behind every
/// line, the last among them. One that had none gets no newline at its end.
pub proof fn law_new_file_is_its_lines(lines: Seq<Seq<char>>, content: Seq<char>)
    requires
        lines.len() > 0,
        joined(lines, seq!['\n']).len() > 0,
    ensures
        content.len() > 0 ==> new_text(lines, content, false) == ended_lines(lines),
        content.len() == 0 ==> new_text(lines, content, false) + seq!['\n'] == ended_lines(lines),
{
    reveal_strlit("\n");
    assert("\n"@ =~= seq!['\n']);
    lemma_joined_ended(lines);
}

/// A file without lines has no text.
pub proof fn law_no_lines_no_text(content: Seq<char>, crlf: bool)
    ensures
        new_text(Seq::empty(), content, crlf) == Seq::<char>::empty(),
{
    let kept = Seq::new(0, |i: int| without_cr(Seq::<Seq<char>>::empty()[i]));
    assert(kept =~= Seq::<Seq<char>>::empty());
}

/// A file is removed when its creation is undone; when the patch deletes it,
/// every hunk was carried out, nothing is left and the rules of POSIX are not
/// asked for; and when nothing but white space is left and empty files are not
/// wanted. It is kept, though the patch deletes it, when something is left.
pub proof fn law_files_that_are_removed(
    p: PatchModel,
    o: OptionsModel,
    reverse: bool,
    failures: nat,
    text: Seq<char>,
    crlf: bool,
)
    ensures
        ({
            let null = "/dev/null"@;
            let created = reverse && (p.old_file == null || p.git.new_file_mode is Some);
            let deleted = !reverse && stripped_opt(p.new_file, o.strip) == null && stripped_opt(
                p.old_file,
                o.strip,
            ) != null && failures == 0 && !o.on.posix;
            let left = if crlf {
                text.len() > 0 && text != seq!['\r', '\n']
            } else {
                text.len() > 0 && text != seq!['\n']
            };
            let unwanted = o.on.remove_empty && trimmed(text).len() == 0;
            &&& is_removed(p, o, reverse, failures, text, crlf) == (created || (deleted && !left)
                || unwanted)
            &&& keeps_rest(p, o, reverse, failures, text, crlf) == (deleted && left)
        }),
{
    reveal_strlit("\r\n");
    reveal_strlit("\n");
    assert("\r\n"@ =~= seq!['\r', '\n']);
    assert("\n"@ =~= seq!['\n']);
}

} // verus!
