//! What reject files are read back as.
use vstd::prelude::*;

use crate::context::{
    context_hunk, context_hunks, context_patch, context_start, context_step, ends_new_half, filled,
    implied, law_merge_undoes_split, new_half, new_half_line, new_tags, old_half, old_half_line,
    old_tags, range_len, removes_first, ContextStep, Tagged,
};
use crate::header::{context_range, header_suffix, unified_header, unified_header_text};
use crate::model::{HunkModel, LineModel, NotesModel, PatchError, PatchModel};
use crate::options::OptionsModel;
use crate::reject::{
    as_context, context_hunk_text, context_new_lines, context_old_lines, context_range_text,
    is_change, label, reject_headers, reject_hunks, rejects, unified_hunk_text, unified_line,
    unified_lines,
};
use crate::text::{has_prefix, joined, law_split_undoes_join, newline_parts};
use crate::unified::{
    empty_preamble, marked_line, noted, preamble_from, unified_body, unified_hunks, unified_patch,
    unified_rest, PreambleEnd, PreambleModel,
};

verus! {

// ---------------------------------------------------------------------------
// Unified rejects
// ---------------------------------------------------------------------------

/// The lines of a unified hunk.
pub open spec fn hunk_text_lines(h: HunkModel) -> Seq<Seq<char>> {
    seq![unified_header_text(h)] + Seq::new(h.lines.len(), |i: int| unified_line(h.lines[i]))
}

/// The lines of unified hunks.
pub open spec fn hunks_text_lines(hunks: Seq<HunkModel>) -> Seq<Seq<char>>
    decreases hunks.len(),
{
    if hunks.len() == 0 {
        Seq::empty()
    } else {
        hunks_text_lines(hunks.drop_last()) + hunk_text_lines(hunks.last())
    }
}

/// The header of the hunk, as it is written, is read as the ranges and the text
/// after them, the hunk is on its own lines, and no removed line looks like the
/// header of a file.
pub open spec fn is_readable(h: HunkModel) -> bool {
    &&& unified_header(unified_header_text(h)) == Ok::<_, PatchError>(
        Some((h.old_start, h.old_count, h.new_start, h.new_count)),
    )
    &&& header_suffix(unified_header_text(h)) == h.header_suffix
    &&& !unified_header_text(h).contains('\n')
    &&& forall|i: int| 0 <= i < h.lines.len() ==> is_readable_line(#[trigger] h.lines[i])
}

/// The line is on its own line and does not look like the header of a file.
pub open spec fn is_readable_line(line: LineModel) -> bool {
    !unified_line(line).contains('\n') && !has_prefix(unified_line(line), "--- "@)
}

/// The lines, each with its newline.
spec fn terminated(lines: Seq<Seq<char>>) -> Seq<char>
    decreases lines.len(),
{
    if lines.len() == 0 {
        Seq::empty()
    } else {
        terminated(lines.drop_last()) + lines.last() + "\n"@
    }
}

proof fn lemma_terminated_adds(a: Seq<Seq<char>>, b: Seq<Seq<char>>)
    ensures
        terminated(a + b) == terminated(a) + terminated(b),
    decreases b.len(),
{
    if b.len() == 0 {
        assert(a + b =~= a);
        assert(terminated(a) + terminated(b) =~= terminated(a));
    } else {
        lemma_terminated_adds(a, b.drop_last());
        assert((a + b).drop_last() =~= a + b.drop_last());
        assert(terminated(a + b) =~= terminated(a) + terminated(b));
    }
}

/// A line has been added to the lines of a hunk.
proof fn lemma_unified_lines(lines: Seq<LineModel>)
    ensures
        unified_lines(lines) == terminated(
            Seq::new(lines.len(), |i: int| unified_line(lines[i])),
        ),
    decreases lines.len(),
{
    let all = Seq::new(lines.len(), |i: int| unified_line(lines[i]));
    if lines.len() > 0 {
        let init = lines.drop_last();
        lemma_unified_lines(init);
        assert(all.drop_last() =~= Seq::new(init.len(), |i: int| unified_line(init[i])));
    }
}

proof fn lemma_hunks_text(hunks: Seq<HunkModel>)
    ensures
        reject_hunks(hunks, false) == terminated(hunks_text_lines(hunks)),
    decreases hunks.len(),
{
    if hunks.len() > 0 {
        let h = hunks.last();
        let head = seq![unified_header_text(h)];
        let body = Seq::new(h.lines.len(), |i: int| unified_line(h.lines[i]));
        lemma_hunks_text(hunks.drop_last());
        lemma_unified_lines(h.lines);
        lemma_terminated_adds(head, body);
        assert(head.drop_last() =~= Seq::empty());
        assert(terminated(head) =~= unified_header_text(h) + "\n"@) by {
            assert(terminated(head.drop_last()) =~= Seq::empty());
        }
        assert(unified_hunk_text(h) =~= terminated(hunk_text_lines(h)));
        lemma_terminated_adds(hunks_text_lines(hunks.drop_last()), hunk_text_lines(h));
    }
}

proof fn lemma_terminated_joins(lines: Seq<Seq<char>>)
    requires
        lines.len() > 0,
    ensures
        terminated(lines) == joined(lines, seq!['\n']) + seq!['\n'],
    decreases lines.len(),
{
    reveal_strlit("\n");
    assert("\n"@ =~= seq!['\n']);
    if lines.len() == 1 {
        assert(lines.drop_last() =~= Seq::empty());
        assert(terminated(lines.drop_last()) =~= Seq::empty());
        assert(terminated(lines) =~= lines[0] + seq!['\n']);
    } else {
        lemma_terminated_joins(lines.drop_last());
    }
}

/// Text made of lines with their newlines is read as these lines.
proof fn lemma_terminated_reads(lines: Seq<Seq<char>>)
    requires
        lines.len() > 0,
        forall|i: int| 0 <= i < lines.len() ==> !(#[trigger] lines[i]).contains('\n'),
    ensures
        newline_parts(terminated(lines)) == lines,
{
    lemma_terminated_joins(lines);
    let more = lines.push(Seq::empty());
    assert(more.drop_last() =~= lines);
    assert(joined(more, seq!['\n']) =~= terminated(lines));
    law_split_undoes_join(more, '\n');
}

/// The body of a hunk that stands among other lines is read as its lines.
proof fn lemma_body_reads(
    all: Seq<Seq<char>>,
    i: int,
    h: HunkModel,
    k: int,
    notes: NotesModel,
)
    requires
        is_readable(h),
        0 <= i,
        0 <= k <= h.lines.len(),
        i + h.lines.len() <= all.len(),
        forall|j: int|
            0 <= j < h.lines.len() ==> all[i + j] == unified_line(#[trigger] h.lines[j]),
        i + h.lines.len() == all.len() || has_prefix(all[i + h.lines.len()], "@@"@),
    ensures
        unified_body(all, i + k, h.lines.take(k), h.old_count, h.new_count, notes) == (
            h.lines,
            i + h.lines.len() as int,
            notes,
        ),
    decreases h.lines.len() - k,
{
    reveal_strlit(" ");
    reveal_strlit("-");
    reveal_strlit("+");
    reveal_strlit("@@");
    reveal_strlit("diff ");
    if k == h.lines.len() {
        assert(h.lines.take(k) =~= h.lines);
    } else {
        let l = h.lines[k];
        let line = all[i + k];
        assert(is_readable_line(l));
        assert(line == unified_line(l));
        assert(line[0] == ' ' || line[0] == '-' || line[0] == '+');
        assert(!has_prefix(line, "@@"@)) by {
            if has_prefix(line, "@@"@) {
                assert(line.take(2)[0] == '@');
            }
        }
        assert(!has_prefix(line, "diff "@)) by {
            if has_prefix(line, "diff "@) {
                assert(line.take(5)[0] == 'd');
            }
        }
        assert(marked_line(line) == Some(l)) by {
            assert(line.take(1)[0] == line[0]);
            match l {
                LineModel::Context(s) => {
                    assert(line.take(1) =~= " "@);
                    assert(line.skip(1) =~= s);
                },
                LineModel::Remove(s) => {
                    assert(line.take(1) =~= "-"@);
                    assert(line.skip(1) =~= s);
                },
                LineModel::Add(s) => {
                    assert(line.take(1) =~= "+"@);
                    assert(line.skip(1) =~= s);
                },
            }
        }
        assert(h.lines.take(k).push(l) =~= h.lines.take(k + 1));
        lemma_body_reads(all, i, h, k + 1, notes);
    }
}

/// Where hunk `m` begins among the lines of the hunks.
spec fn hunk_begin(hunks: Seq<HunkModel>, m: int) -> int {
    hunks_text_lines(hunks.take(m)).len() as int
}

/// The lines of hunk `m` stand where it begins.
proof fn lemma_hunk_place(hunks: Seq<HunkModel>, m: int)
    requires
        0 <= m < hunks.len(),
    ensures
        hunk_begin(hunks, m + 1) == hunk_begin(hunks, m) + 1 + hunks[m].lines.len(),
        hunk_begin(hunks, m + 1) <= hunks_text_lines(hunks).len(),
        hunks_text_lines(hunks)[hunk_begin(hunks, m)] == unified_header_text(hunks[m]),
        forall|j: int|
            0 <= j < hunks[m].lines.len() ==> hunks_text_lines(hunks)[hunk_begin(hunks, m) + 1 + j]
                == unified_line(#[trigger] hunks[m].lines[j]),
    decreases hunks.len(),
{
    let all = hunks_text_lines(hunks);
    assert(hunks.take(m + 1).drop_last() =~= hunks.take(m));
    assert(hunks.take(m + 1).last() == hunks[m]);
    if m == hunks.len() - 1 {
        assert(hunks.take(m + 1) =~= hunks);
        assert(hunks.drop_last() =~= hunks.take(m));
        let own = hunk_text_lines(hunks[m]);
        assert forall|j: int| 0 <= j < hunks[m].lines.len() implies all[hunk_begin(hunks, m) + 1 + j]
            == unified_line(#[trigger] hunks[m].lines[j]) by {
            assert(all[hunk_begin(hunks, m) + 1 + j] == own[1 + j]);
        }
    } else {
        let init = hunks.drop_last();
        lemma_hunk_place(init, m);
        assert(init.take(m) =~= hunks.take(m));
        assert(init.take(m + 1) =~= hunks.take(m + 1));
        let before = hunks_text_lines(init);
        assert forall|j: int| 0 <= j < hunks[m].lines.len() implies all[hunk_begin(hunks, m) + 1 + j]
            == unified_line(#[trigger] hunks[m].lines[j]) by {
            assert(init[m].lines[j] == hunks[m].lines[j]);
            assert(before[hunk_begin(init, m) + 1 + j] == unified_line(init[m].lines[j]));
        }
    }
}

/// A hunk that stands among other lines is read as it was.
proof fn lemma_hunk_reads(
    all: Seq<Seq<char>>,
    i: int,
    h: HunkModel,
    acc: Seq<HunkModel>,
    notes: NotesModel,
)
    requires
        is_readable(h),
        0 <= i,
        i + 1 + h.lines.len() <= all.len(),
        all[i] == unified_header_text(h),
        forall|j: int|
            0 <= j < h.lines.len() ==> all[i + 1 + j] == unified_line(#[trigger] h.lines[j]),
        i + 1 + h.lines.len() == all.len() || has_prefix(all[i + 1 + h.lines.len()], "@@"@),
    ensures
        unified_hunks(all, i, acc, notes) == unified_hunks(
            all,
            i + 1 + h.lines.len(),
            acc.push(h),
            notes,
        ),
{
    lemma_header_mark(h);
    assert(h.lines.take(0) =~= Seq::empty());
    lemma_body_reads(all, i + 1, h, 0, notes);
}

proof fn lemma_header_mark(h: HunkModel)
    ensures
        has_prefix(unified_header_text(h), "@@"@),
{
    reveal_strlit("@@ -");
    reveal_strlit("@@");
    assert(unified_header_text(h).take(2) =~= "@@"@);
}

/// The lines of hunk `m` stand below `head` where it begins, and what follows
/// them is the header of the next hunk or nothing.
proof fn lemma_place_below(head: Seq<Seq<char>>, hunks: Seq<HunkModel>, m: int)
    requires
        0 <= m < hunks.len(),
    ensures
        ({
            let all = head + hunks_text_lines(hunks);
            let i = head.len() + hunk_begin(hunks, m);
            let next = head.len() + hunk_begin(hunks, m + 1);
            &&& next == i + 1 + hunks[m].lines.len()
            &&& next <= all.len()
            &&& all[i] == unified_header_text(hunks[m])
            &&& forall|j: int|
                0 <= j < hunks[m].lines.len() ==> all[i + 1 + j] == unified_line(
                    #[trigger] hunks[m].lines[j],
                )
            &&& next == all.len() || has_prefix(all[next], "@@"@)
        }),
{
    let below = hunks_text_lines(hunks);
    let all = head + below;
    let i = head.len() + hunk_begin(hunks, m);
    lemma_hunk_place(hunks, m);
    assert forall|j: int| 0 <= j < hunks[m].lines.len() implies all[i + 1 + j] == unified_line(
        #[trigger] hunks[m].lines[j],
    ) by {
        assert(all[i + 1 + j] == below[hunk_begin(hunks, m) + 1 + j]);
    }
    if m + 1 < hunks.len() {
        lemma_hunk_place(hunks, m + 1);
        lemma_header_mark(hunks[m + 1]);
    } else {
        assert(hunks.take(m + 1) =~= hunks);
    }
}

/// The hunks from the `m`th on, written below `head`, are read as they were.
proof fn lemma_hunks_read(
    head: Seq<Seq<char>>,
    hunks: Seq<HunkModel>,
    m: int,
    notes: NotesModel,
)
    requires
        0 <= m <= hunks.len(),
        forall|i: int| 0 <= i < hunks.len() ==> is_readable(#[trigger] hunks[i]),
    ensures
        unified_hunks(
            head + hunks_text_lines(hunks),
            head.len() + hunk_begin(hunks, m),
            hunks.take(m),
            notes,
        ) == (
            Ok::<_, PatchError>((hunks, (head + hunks_text_lines(hunks)).len() as int)),
            notes,
        ),
    decreases hunks.len() - m,
{
    let all = head + hunks_text_lines(hunks);
    let i = head.len() + hunk_begin(hunks, m);
    if m == hunks.len() {
        assert(hunks.take(m) =~= hunks);
    } else {
        assert(is_readable(hunks[m]));
        lemma_place_below(head, hunks, m);
        lemma_hunk_reads(all, i, hunks[m], hunks.take(m), notes);
        assert(hunks.take(m).push(hunks[m]) =~= hunks.take(m + 1));
        lemma_hunks_read(head, hunks, m + 1, notes);
    }
}

/// The `Index:` line of a reject file, if it has one.
spec fn index_lines(p: PatchModel) -> Seq<Seq<char>> {
    match p.index_line {
        Some(line) => seq![line],
        None => Seq::empty(),
    }
}

/// The lines above the hunks of a unified reject file.
spec fn head_lines(p: PatchModel) -> Seq<Seq<char>> {
    index_lines(p) + seq![
        "--- "@ + label(p.old_header, p.old_file, "a"@),
        "+++ "@ + label(p.new_header, p.new_file, "b"@),
    ]
}

/// The headers of the patch are each on its own line.
pub open spec fn has_plain_headers(p: PatchModel) -> bool {
    &&& !label(p.old_header, p.old_file, "a"@).contains('\n')
    &&& !label(p.new_header, p.new_file, "b"@).contains('\n')
    &&& p.index_line matches Some(line) ==> has_prefix(line, "Index: "@) && !line.contains('\n')
}

proof fn lemma_head_text(p: PatchModel)
    ensures
        terminated(head_lines(p)) == match p.index_line {
            Some(line) => line + "\n"@,
            None => Seq::empty(),
        } + reject_headers(p, false),
{
    let old_line = "--- "@ + label(p.old_header, p.old_file, "a"@);
    let new_line = "+++ "@ + label(p.new_header, p.new_file, "b"@);
    let index = index_lines(p);
    let two = seq![old_line, new_line];
    lemma_terminated_adds(index, two);
    assert(two.drop_last() =~= seq![old_line]);
    assert(seq![old_line].drop_last() =~= Seq::<Seq<char>>::empty());
    assert(terminated(Seq::<Seq<char>>::empty()) =~= Seq::empty());
    assert(terminated(seq![old_line]) =~= old_line + "\n"@);
    assert(terminated(two) =~= reject_headers(p, false));
    if let Some(line) = p.index_line {
        assert(index.drop_last() =~= Seq::<Seq<char>>::empty());
        assert(terminated(index) =~= line + "\n"@);
    }
}

proof fn lemma_head_is_whole(p: PatchModel, i: int)
    requires
        has_plain_headers(p),
        0 <= i < head_lines(p).len(),
    ensures
        !head_lines(p)[i].contains('\n'),
{
    reveal_strlit("--- ");
    reveal_strlit("+++ ");
    lemma_no_newline_after("--- "@, label(p.old_header, p.old_file, "a"@));
    lemma_no_newline_after("+++ "@, label(p.new_header, p.new_file, "b"@));
}

/// The lines that a unified reject file is read as.
proof fn lemma_reject_lines(p: PatchModel, o: OptionsModel, rejected: Seq<HunkModel>)
    requires
        !as_context(p, o),
        forall|i: int| 0 <= i < rejected.len() ==> is_readable(#[trigger] rejected[i]),
        has_plain_headers(p),
    ensures
        newline_parts(rejects(p, o, rejected)) == head_lines(p) + hunks_text_lines(rejected),
{
    let head = head_lines(p);
    let below = hunks_text_lines(rejected);
    let all = head + below;
    lemma_hunks_text(rejected);
    lemma_head_text(p);
    lemma_terminated_adds(head, below);
    assert(rejects(p, o, rejected) == terminated(all));
    assert forall|i: int| 0 <= i < all.len() implies !(#[trigger] all[i]).contains('\n') by {
        if i < head.len() {
            lemma_head_is_whole(p, i);
        } else {
            lemma_lines_are_whole(rejected, i - head.len());
        }
    }
    lemma_terminated_reads(all);
}

/// The preamble of a unified reject file is its `Index:` line.
proof fn lemma_reject_preamble(p: PatchModel, below: Seq<Seq<char>>)
    requires
        has_plain_headers(p),
    ensures
        preamble_from(head_lines(p) + below, 0, empty_preamble()) == (PreambleEnd::Body {
            at: index_lines(p).len() as int,
            preamble: PreambleModel { index_line: p.index_line, ..empty_preamble() },
        }),
{
    reveal_strlit("--- ");
    reveal_strlit("Index: ");
    reveal_strlit("@@");
    let all = head_lines(p) + below;
    let at = index_lines(p).len() as int;
    let old_line = "--- "@ + label(p.old_header, p.old_file, "a"@);
    let q = PreambleModel { index_line: p.index_line, ..empty_preamble() };
    assert(all[at] == old_line);
    assert(old_line.take(4) =~= "--- "@);
    assert(preamble_from(all, at, q) == (PreambleEnd::Body { at, preamble: q }));
    if let Some(line) = p.index_line {
        assert(all[0] == line);
        assert(line.take(7)[0] == 'I');
        assert(!has_prefix(line, "--- "@)) by {
            if has_prefix(line, "--- "@) {
                assert(line.take(4)[0] == '-');
            }
        }
        assert(!has_prefix(line, "@@"@)) by {
            if has_prefix(line, "@@"@) {
                assert(line.take(2)[0] == '@');
            }
        }
        reveal_strlit("GIT binary patch");
        assert(line != "GIT binary patch"@);
        reveal_strlit("diff --git ");
        assert(!has_prefix(all[1], "diff --git "@)) by {
            if has_prefix(all[1], "diff --git "@) {
                assert(all[1].take(11)[0] == 'd');
            }
        }
        assert(noted(empty_preamble(), line) == q);
    }
}

/// What follows a preamble, when it is two headers and hunks.
proof fn lemma_rest_reads(
    all: Seq<Seq<char>>,
    at: int,
    preamble: PreambleModel,
    old: Seq<char>,
    new: Seq<char>,
    hunks: Seq<HunkModel>,
    notes: NotesModel,
)
    requires
        0 <= at,
        at + 2 < all.len(),
        all[at] == "--- "@ + old,
        all[at + 1] == "+++ "@ + new,
        has_prefix(all[at + 2], "@@"@),
        hunks.len() > 0,
        unified_hunks(all, at + 2, Seq::empty(), notes) == (
            Ok::<_, PatchError>((hunks, all.len() as int)),
            notes,
        ),
    ensures
        ({
            let (r, notes2) = unified_rest(all, at, preamble, notes);
            &&& notes2 == notes
            &&& r matches Ok(Some((q, next)))
            &&& next == all.len()
            &&& q.hunks == hunks
            &&& q.old_header == old
            &&& q.new_header == new
            &&& q.index_line == preamble.index_line
        }),
{
    reveal_strlit("--- ");
    reveal_strlit("+++ ");
    assert(all[at].take(4) =~= "--- "@);
    assert(all[at + 1].take(4) =~= "+++ "@);
    assert(all[at].skip(4) =~= old);
    assert(all[at + 1].skip(4) =~= new);
}

/// A unified reject file is read as a patch with the hunks that were saved, in
/// their order, under the same headers, as long as their header lines are read
/// as they are written and no removed line looks like the header of a file.
pub proof fn law_unified_rejects_read_back(
    p: PatchModel,
    o: OptionsModel,
    rejected: Seq<HunkModel>,
    notes: NotesModel,
)
    requires
        !as_context(p, o),
        rejected.len() > 0,
        forall|i: int| 0 <= i < rejected.len() ==> is_readable(#[trigger] rejected[i]),
        has_plain_headers(p),
    ensures
        ({
            let lines = newline_parts(rejects(p, o, rejected));
            let (r, notes2) = unified_patch(lines, 0, notes);
            &&& notes2 == notes
            &&& r matches Ok(Some((q, next)))
            &&& next == lines.len()
            &&& q.hunks == rejected
            &&& q.old_header == label(p.old_header, p.old_file, "a"@)
            &&& q.new_header == label(p.new_header, p.new_file, "b"@)
            &&& q.index_line == p.index_line
        }),
{
    let head = head_lines(p);
    let below = hunks_text_lines(rejected);
    let all = head + below;
    let at = index_lines(p).len() as int;
    lemma_reject_lines(p, o, rejected);
    lemma_reject_preamble(p, below);
    lemma_first_header(head, rejected);
    lemma_hunks_read(head, rejected, 0, notes);
    assert(rejected.take(0) =~= Seq::empty());
    assert(hunk_begin(rejected, 0) == 0);
    assert(head.len() == at + 2);
    lemma_rest_reads(
        all,
        at,
        PreambleModel { index_line: p.index_line, ..empty_preamble() },
        label(p.old_header, p.old_file, "a"@),
        label(p.new_header, p.new_file, "b"@),
        rejected,
        notes,
    );
}

/// The hunks below `head` begin with a hunk header.
proof fn lemma_first_header(head: Seq<Seq<char>>, hunks: Seq<HunkModel>)
    requires
        hunks.len() > 0,
    ensures
        head.len() < (head + hunks_text_lines(hunks)).len(),
        has_prefix((head + hunks_text_lines(hunks))[head.len() as int], "@@"@),
{
    lemma_place_below(head, hunks, 0);
    lemma_header_mark(hunks[0]);
    assert(hunks.take(0) =~= Seq::empty());
    assert(hunk_begin(hunks, 0) == 0);
}

proof fn lemma_no_newline_after(mark: Seq<char>, s: Seq<char>)
    requires
        !mark.contains('\n'),
        !s.contains('\n'),
    ensures
        !(mark + s).contains('\n'),
{
    if (mark + s).contains('\n') {
        let k = choose|k: int| 0 <= k < (mark + s).len() && (mark + s)[k] == '\n';
        if k < mark.len() {
            assert(mark[k] == '\n');
        } else {
            assert(s[k - mark.len()] == '\n');
        }
    }
}

proof fn lemma_lines_are_whole(hunks: Seq<HunkModel>, i: int)
    requires
        forall|m: int| 0 <= m < hunks.len() ==> is_readable(#[trigger] hunks[m]),
        0 <= i < hunks_text_lines(hunks).len(),
    ensures
        !hunks_text_lines(hunks)[i].contains('\n'),
    decreases hunks.len(),
{
    let init = hunks.drop_last();
    let h = hunks.last();
    let n = hunks_text_lines(init).len();
    assert(is_readable(hunks[hunks.len() - 1]));
    if i < n {
        assert forall|m: int| 0 <= m < init.len() implies is_readable(#[trigger] init[m]) by {
            assert(init[m] == hunks[m]);
        }
        lemma_lines_are_whole(init, i);
    } else if i > n {
        assert(is_readable_line(h.lines[i - n - 1]));
    }
}

// ---------------------------------------------------------------------------
// Context hunks
// ---------------------------------------------------------------------------

/// The header of the old side of a context hunk.
pub open spec fn old_side_header(h: HunkModel) -> Seq<char> {
    "*** "@ + context_range_text(h.old_start, h.old_count) + " ****"@
}

/// The header of the new side of a context hunk.
pub open spec fn new_side_header(h: HunkModel) -> Seq<char> {
    "--- "@ + context_range_text(h.new_start, h.new_count) + " ----"@
}

/// A line of one half of a context hunk as it is written.
pub open spec fn tag_line(tag: Tagged) -> Seq<char> {
    seq![tag.0, ' '] + tag.1
}

/// The lines of one half of a context hunk as they are written.
pub open spec fn tag_lines(tags: Seq<Tagged>) -> Seq<Seq<char>> {
    Seq::new(tags.len(), |i: int| tag_line(tags[i]))
}

/// The lines of a context hunk as they are written.
pub open spec fn context_hunk_lines(h: HunkModel) -> Seq<Seq<char>> {
    let change = is_change(h.lines);
    seq!["***************"@ + h.header_suffix, old_side_header(h)] + tag_lines(
        old_tags(h.lines, change),
    ) + seq![new_side_header(h)] + tag_lines(new_tags(h.lines, change))
}

/// The last line of a range.
pub open spec fn range_end(start: usize, count: usize) -> usize {
    start.wrapping_add(
        if count == 0 {
            0
        } else {
            (count - 1) as usize
        },
    )
}

/// The headers of the sides of the hunk are read as they are written, its
/// counts are those of its lines, and removed lines come before added ones.
pub open spec fn is_readable_in_context(h: HunkModel) -> bool {
    let change = is_change(h.lines);
    &&& context_range(old_side_header(h)) == Ok::<_, PatchError>(
        Some((h.old_start, range_end(h.old_start, h.old_count))),
    )
    &&& context_range(new_side_header(h)) == Ok::<_, PatchError>(
        Some((h.new_start, range_end(h.new_start, h.new_count))),
    )
    &&& old_tags(h.lines, change).len() == h.old_count
    &&& new_tags(h.lines, change).len() == h.new_count
    &&& h.old_start + h.old_count <= usize::MAX + 1
    &&& h.new_start + h.new_count <= usize::MAX + 1
    &&& removes_first(h.lines)
}

proof fn lemma_tags_push(lines: Seq<LineModel>, l: LineModel, change: bool)
    ensures
        old_tags(lines.push(l), change) == old_tags(lines, change) + old_tags(seq![l], change),
        new_tags(lines.push(l), change) == new_tags(lines, change) + new_tags(seq![l], change),
    decreases lines.len(),
{
    if lines.len() == 0 {
        assert(lines.push(l) =~= seq![l]);
        assert(old_tags(lines, change) + old_tags(seq![l], change) =~= old_tags(seq![l], change));
        assert(new_tags(lines, change) + new_tags(seq![l], change) =~= new_tags(seq![l], change));
    } else {
        lemma_tags_push(lines.skip(1), l, change);
        assert(lines.push(l).skip(1) =~= lines.skip(1).push(l));
        assert(old_tags(lines.push(l), change) =~= old_tags(lines, change) + old_tags(
            seq![l],
            change,
        ));
        assert(new_tags(lines.push(l), change) =~= new_tags(lines, change) + new_tags(
            seq![l],
            change,
        ));
    }
}

proof fn lemma_tag_lines_add(a: Seq<Tagged>, b: Seq<Tagged>)
    ensures
        tag_lines(a + b) == tag_lines(a) + tag_lines(b),
{
    assert(tag_lines(a + b) =~= tag_lines(a) + tag_lines(b));
}

/// The text of one line with its newline.
proof fn lemma_terminated_one(line: Seq<char>)
    ensures
        terminated(seq![line]) == line + "\n"@,
{
    assert(seq![line].drop_last() =~= Seq::<Seq<char>>::empty());
    assert(terminated(Seq::<Seq<char>>::empty()) =~= Seq::empty());
    assert(terminated(seq![line]) =~= line + "\n"@);
}

/// The text of the two sides of a context hunk is that of their lines.
proof fn lemma_side_texts(lines: Seq<LineModel>, change: bool)
    ensures
        context_old_lines(lines, change) == terminated(tag_lines(old_tags(lines, change))),
        context_new_lines(lines, change) == terminated(tag_lines(new_tags(lines, change))),
    decreases lines.len(),
{
    reveal_strlit("  ");
    reveal_strlit("! ");
    reveal_strlit("- ");
    reveal_strlit("+ ");
    if lines.len() > 0 {
        let init = lines.drop_last();
        let l = lines.last();
        let one = seq![l];
        lemma_side_texts(init, change);
        assert(lines =~= init.push(l));
        lemma_tags_push(init, l, change);
        lemma_tag_lines_add(old_tags(init, change), old_tags(one, change));
        lemma_tag_lines_add(new_tags(init, change), new_tags(one, change));
        lemma_terminated_adds(tag_lines(old_tags(init, change)), tag_lines(old_tags(one, change)));
        lemma_terminated_adds(tag_lines(new_tags(init, change)), tag_lines(new_tags(one, change)));
        assert(one.skip(1) =~= Seq::empty());
        assert(terminated(Seq::<Seq<char>>::empty()) =~= Seq::empty());
        lemma_one_side_text(l, change);
        assert(context_old_lines(lines, change) =~= context_old_lines(init, change) + terminated(
            tag_lines(old_tags(one, change)),
        ));
        assert(context_new_lines(lines, change) =~= context_new_lines(init, change) + terminated(
            tag_lines(new_tags(one, change)),
        ));
    }
}

/// The text that one hunk line adds to the two sides of a context hunk.
proof fn lemma_one_side_text(l: LineModel, change: bool)
    ensures
        terminated(tag_lines(old_tags(seq![l], change))) == match l {
            LineModel::Context(s) => "  "@ + s + "\n"@,
            LineModel::Remove(s) => (if change {
                "! "@
            } else {
                "- "@
            }) + s + "\n"@,
            LineModel::Add(_) => Seq::empty(),
        },
        terminated(tag_lines(new_tags(seq![l], change))) == match l {
            LineModel::Context(s) => "  "@ + s + "\n"@,
            LineModel::Add(s) => (if change {
                "! "@
            } else {
                "+ "@
            }) + s + "\n"@,
            LineModel::Remove(_) => Seq::empty(),
        },
{
    reveal_strlit("  ");
    reveal_strlit("! ");
    reveal_strlit("- ");
    reveal_strlit("+ ");
    let one = seq![l];
    assert(one.skip(1) =~= Seq::empty());
    let old = old_tags(one, change);
    let new = new_tags(one, change);
    assert(old_tags(one.skip(1), change) =~= Seq::empty());
    assert(new_tags(one.skip(1), change) =~= Seq::empty());
    assert(terminated(Seq::<Seq<char>>::empty()) =~= Seq::empty());
    match l {
        LineModel::Context(s) => {
            assert(old =~= seq![(' ', s)]);
            assert(new =~= seq![(' ', s)]);
            assert(tag_lines(old) =~= seq!["  "@ + s]) by {
                assert(tag_line((' ', s)) =~= "  "@ + s);
            }
            assert(tag_lines(new) =~= tag_lines(old));
            lemma_terminated_one("  "@ + s);
        },
        LineModel::Remove(s) => {
            let mark = if change {
                "! "@
            } else {
                "- "@
            };
            assert(tag_lines(old) =~= seq![mark + s]) by {
                assert(tag_line(old[0]) =~= mark + s);
            }
            assert(tag_lines(new) =~= Seq::empty());
            lemma_terminated_one(mark + s);
        },
        LineModel::Add(s) => {
            let mark = if change {
                "! "@
            } else {
                "+ "@
            };
            assert(tag_lines(new) =~= seq![mark + s]) by {
                assert(tag_line(new[0]) =~= mark + s);
            }
            assert(tag_lines(old) =~= Seq::empty());
            lemma_terminated_one(mark + s);
        },
    }
}

/// The text of the two sides of a context hunk, each with its header.
proof fn lemma_sides_with_headers(h: HunkModel)
    ensures
        ({
            let change = is_change(h.lines);
            context_hunk_text(h) == terminated(
                seq![old_side_header(h)] + tag_lines(old_tags(h.lines, change)),
            ) + terminated(seq![new_side_header(h)] + tag_lines(new_tags(h.lines, change)))
        }),
{
    reveal_strlit(" ****");
    reveal_strlit(" ----");
    reveal_strlit(" ****\n");
    reveal_strlit(" ----\n");
    reveal_strlit("\n");
    let change = is_change(h.lines);
    let old_lines = tag_lines(old_tags(h.lines, change));
    let new_lines = tag_lines(new_tags(h.lines, change));
    lemma_side_texts(h.lines, change);
    lemma_terminated_one(old_side_header(h));
    lemma_terminated_one(new_side_header(h));
    lemma_terminated_adds(seq![old_side_header(h)], old_lines);
    lemma_terminated_adds(seq![new_side_header(h)], new_lines);
    let a = "*** "@ + context_range_text(h.old_start, h.old_count);
    let b = "--- "@ + context_range_text(h.new_start, h.new_count);
    let old_text = context_old_lines(h.lines, change);
    let new_text = context_new_lines(h.lines, change);
    assert(" ****\n"@ =~= " ****"@ + "\n"@);
    assert(" ----\n"@ =~= " ----"@ + "\n"@);
    assert(a + " ****\n"@ =~= old_side_header(h) + "\n"@);
    assert(b + " ----\n"@ =~= new_side_header(h) + "\n"@);
    assert(context_hunk_text(h) =~= (a + " ****\n"@ + old_text) + (b + " ----\n"@ + new_text));
}

/// What is written of a context hunk is its lines, each with a newline.
proof fn lemma_context_hunk_text(h: HunkModel)
    ensures
        "***************"@ + h.header_suffix + "\n"@ + context_hunk_text(h) == terminated(
            context_hunk_lines(h),
        ),
{
    let change = is_change(h.lines);
    let stars = "***************"@ + h.header_suffix;
    let old_part = seq![old_side_header(h)] + tag_lines(old_tags(h.lines, change));
    let new_part = seq![new_side_header(h)] + tag_lines(new_tags(h.lines, change));
    lemma_sides_with_headers(h);
    lemma_terminated_one(stars);
    lemma_terminated_adds(seq![stars], old_part);
    lemma_terminated_adds(seq![stars] + old_part, new_part);
    assert(context_hunk_lines(h) =~= seq![stars] + old_part + new_part);
    assert(terminated(context_hunk_lines(h)) =~= stars + "\n"@ + context_hunk_text(h));
}

/// No line of the context hunk is broken.
pub open spec fn has_whole_lines(h: HunkModel) -> bool {
    forall|i: int|
        0 <= i < context_hunk_lines(h).len() ==> !(#[trigger] context_hunk_lines(h)[i]).contains(
            '\n',
        )
}

/// What is written of a context hunk is read as its lines.
pub proof fn law_context_hunk_is_its_lines(h: HunkModel)
    requires
        has_whole_lines(h),
    ensures
        newline_parts("***************"@ + h.header_suffix + "\n"@ + context_hunk_text(h))
            == context_hunk_lines(h),
{
    lemma_context_hunk_text(h);
    lemma_terminated_reads(context_hunk_lines(h));
}

proof fn lemma_old_half_reads(
    all: Seq<Seq<char>>,
    i: int,
    tags: Seq<Tagged>,
    k: int,
)
    requires
        0 <= i,
        0 <= k <= tags.len(),
        i + tags.len() < all.len(),
        forall|j: int| 0 <= j < tags.len() ==> all[i + j] == tag_line(#[trigger] tags[j]),
        forall|j: int|
            0 <= j < tags.len() ==> ((#[trigger] tags[j]).0 == ' ' || tags[j].0 == '!' || tags[j].0
                == '-'),
        has_prefix(all[i + tags.len()], "--- "@),
    ensures
        old_half(all, i + k, tags.take(k)) == (tags, i + tags.len() as int),
    decreases tags.len() - k,
{
    reveal_strlit("--- ");
    reveal_strlit("! ");
    reveal_strlit("- ");
    reveal_strlit("  ");
    if k == tags.len() {
        assert(tags.take(k) =~= tags);
    } else {
        let tag = tags[k];
        let line = all[i + k];
        assert(line == tag_line(tag));
        assert(line[0] == tag.0 && line[1] == ' ');
        assert(line.take(2)[0] == tag.0);
        assert(line.take(2) =~= seq![tag.0, ' ']);
        assert(line.skip(2) =~= tag.1);
        assert(!has_prefix(line, "--- "@)) by {
            if has_prefix(line, "--- "@) {
                assert(line.take(4)[1] == '-');
            }
        }
        assert(old_half_line(line) == Some(tag)) by {
            if tag.0 == ' ' {
                assert(line.take(2) =~= "  "@);
            } else if tag.0 == '!' {
                assert(line.take(2) =~= "! "@);
            } else {
                assert(line.take(2) =~= "- "@);
            }
        }
        assert(tags.take(k).push(tag) =~= tags.take(k + 1));
        lemma_old_half_reads(all, i, tags, k + 1);
    }
}

proof fn lemma_new_half_reads(
    all: Seq<Seq<char>>,
    i: int,
    tags: Seq<Tagged>,
    k: int,
)
    requires
        0 <= i,
        0 <= k <= tags.len(),
        i + tags.len() <= all.len(),
        forall|j: int| 0 <= j < tags.len() ==> all[i + j] == tag_line(#[trigger] tags[j]),
        forall|j: int|
            0 <= j < tags.len() ==> ((#[trigger] tags[j]).0 == ' ' || tags[j].0 == '!' || tags[j].0
                == '+'),
        i + tags.len() == all.len() || ends_new_half(all[i + tags.len()]),
    ensures
        new_half(all, i + k, tags.take(k)) == (tags, i + tags.len() as int),
    decreases tags.len() - k,
{
    reveal_strlit("***************");
    reveal_strlit("diff ");
    reveal_strlit("*** ");
    reveal_strlit("! ");
    reveal_strlit("+ ");
    reveal_strlit("  ");
    if k == tags.len() {
        assert(tags.take(k) =~= tags);
    } else {
        let tag = tags[k];
        let line = all[i + k];
        assert(line == tag_line(tag));
        assert(line[0] == tag.0 && line[1] == ' ');
        assert(line.take(2)[0] == tag.0);
        assert(line.take(2) =~= seq![tag.0, ' ']);
        assert(line.skip(2) =~= tag.1);
        assert(!ends_new_half(line)) by {
            if has_prefix(line, "***************"@) {
                assert(line.take(15)[0] == '*');
            }
            if has_prefix(line, "diff "@) {
                assert(line.take(5)[0] == 'd');
            }
            if has_prefix(line, "*** "@) {
                assert(line.take(4)[0] == '*');
            }
        }
        assert(new_half_line(line) == Some(tag)) by {
            if tag.0 == ' ' {
                assert(line.take(2) =~= "  "@);
            } else if tag.0 == '!' {
                assert(line.take(2) =~= "! "@);
            } else {
                assert(line.take(2) =~= "+ "@);
            }
        }
        assert(tags.take(k).push(tag) =~= tags.take(k + 1));
        lemma_new_half_reads(all, i, tags, k + 1);
    }
}

proof fn lemma_tag_marks(lines: Seq<LineModel>, change: bool)
    ensures
        forall|j: int|
            0 <= j < old_tags(lines, change).len() ==> ((#[trigger] old_tags(lines, change)[j]).0
                == ' ' || old_tags(lines, change)[j].0 == '!' || old_tags(lines, change)[j].0
                == '-'),
        forall|j: int|
            0 <= j < new_tags(lines, change).len() ==> ((#[trigger] new_tags(lines, change)[j]).0
                == ' ' || new_tags(lines, change)[j].0 == '!' || new_tags(lines, change)[j].0
                == '+'),
        forall|i: int| 0 <= i < lines.len() && #[trigger] lines[i] !is Add ==> old_tags(
            lines,
            change,
        ).len() > 0,
        forall|i: int| 0 <= i < lines.len() && #[trigger] lines[i] !is Remove ==> new_tags(
            lines,
            change,
        ).len() > 0,
    decreases lines.len(),
{
    if lines.len() > 0 {
        let rest = lines.skip(1);
        lemma_tag_marks(rest, change);
        let old = old_tags(lines, change);
        let new = new_tags(lines, change);
        let old_rest = old_tags(rest, change);
        let new_rest = new_tags(rest, change);
        assert forall|j: int| 0 <= j < old.len() implies ((#[trigger] old[j]).0 == ' ' || old[j].0
            == '!' || old[j].0 == '-') by {
            let off: int = if lines[0] is Add {
                0
            } else {
                1
            };
            if j >= off {
                assert(old[j] == old_rest[j - off]);
            }
        }
        assert forall|j: int| 0 <= j < new.len() implies ((#[trigger] new[j]).0 == ' ' || new[j].0
            == '!' || new[j].0 == '+') by {
            let off: int = if lines[0] is Remove {
                0
            } else {
                1
            };
            if j >= off {
                assert(new[j] == new_rest[j - off]);
            }
        }
        assert forall|i: int| 0 <= i < lines.len() && #[trigger] lines[i] !is Add implies old.len()
            > 0 by {
            if i > 0 {
                assert(rest[i - 1] == lines[i]);
            }
        }
        assert forall|i: int|
            0 <= i < lines.len() && #[trigger] lines[i] !is Remove implies new.len() > 0 by {
            if i > 0 {
                assert(rest[i - 1] == lines[i]);
            }
        }
    }
}

/// A half that is all of one side's own lines implies nothing on the other.
proof fn lemma_implies_nothing(tags: Seq<Tagged>, own: char)
    requires
        forall|j: int| 0 <= j < tags.len() ==> (#[trigger] tags[j]).0 == own,
    ensures
        implied(tags, own) == Seq::<Tagged>::empty(),
    decreases tags.len(),
{
    if tags.len() > 0 {
        lemma_implies_nothing(tags.drop_last(), own);
    }
}

proof fn lemma_only_removes(lines: Seq<LineModel>, change: bool)
    requires
        new_tags(lines, change).len() == 0,
        !change,
    ensures
        forall|j: int|
            0 <= j < old_tags(lines, change).len() ==> (#[trigger] old_tags(lines, change)[j]).0
                == '-',
    decreases lines.len(),
{
    if lines.len() > 0 {
        let rest = lines.skip(1);
        lemma_only_removes(rest, change);
        let old = old_tags(lines, change);
        assert forall|j: int| 0 <= j < old.len() implies (#[trigger] old[j]).0 == '-' by {
            if j > 0 {
                assert(old[j] == old_tags(rest, change)[j - 1]);
            }
        }
    }
}

proof fn lemma_only_adds(lines: Seq<LineModel>, change: bool)
    requires
        old_tags(lines, change).len() == 0,
        !change,
    ensures
        forall|j: int|
            0 <= j < new_tags(lines, change).len() ==> (#[trigger] new_tags(lines, change)[j]).0
                == '+',
    decreases lines.len(),
{
    if lines.len() > 0 {
        let rest = lines.skip(1);
        lemma_only_adds(rest, change);
        let new = new_tags(lines, change);
        assert forall|j: int| 0 <= j < new.len() implies (#[trigger] new[j]).0 == '+' by {
            if j > 0 {
                assert(new[j] == new_tags(rest, change)[j - 1]);
            }
        }
    }
}

/// The halves of a written hunk make up the hunk.
proof fn lemma_halves_make_hunk(h: HunkModel)
    requires
        is_readable_in_context(h),
    ensures
        ({
            let change = is_change(h.lines);
            context_hunk(
                h.header_suffix,
                (h.old_start, range_end(h.old_start, h.old_count)),
                (h.new_start, range_end(h.new_start, h.new_count)),
                old_tags(h.lines, change),
                new_tags(h.lines, change),
            ) == h
        }),
{
    let change = is_change(h.lines);
    let old = old_tags(h.lines, change);
    let new = new_tags(h.lines, change);
    lemma_tag_marks(h.lines, change);
    law_merge_undoes_split(h.lines, change);
    if new.len() == 0 {
        assert(!change);
        lemma_only_removes(h.lines, change);
        lemma_implies_nothing(old, '-');
        assert(new =~= Seq::empty());
    }
    if old.len() == 0 {
        assert(!change);
        lemma_only_adds(h.lines, change);
        lemma_implies_nothing(new, '+');
        assert(old =~= Seq::empty());
    }
    let old_count = range_len(h.old_start, range_end(h.old_start, h.old_count));
    let new_count = range_len(h.new_start, range_end(h.new_start, h.new_count));
    assert(h.old_count > 0 ==> old_count == h.old_count);
    assert(h.new_count > 0 ==> new_count == h.new_count);
    assert(filled(old, new, old_count, new_count) == (old, new));
}

/// A context hunk among other lines is read as it was written, when its counts
/// are those of its lines, the headers of its sides are read as they are
/// written, and removed lines come before added ones.
pub proof fn law_context_hunk_reads_back(all: Seq<Seq<char>>, i: int, h: HunkModel)
    requires
        is_readable_in_context(h),
        0 <= i,
        i + context_hunk_lines(h).len() <= all.len(),
        all.subrange(i, i + context_hunk_lines(h).len()) == context_hunk_lines(h),
        i + context_hunk_lines(h).len() == all.len() || ends_new_half(
            all[i + context_hunk_lines(h).len()],
        ),
    ensures
        context_step(all, i) == (ContextStep::Hunk {
            hunk: h,
            next: i + context_hunk_lines(h).len(),
        }),
{
    reveal_strlit("***************");
    reveal_strlit("--- ");
    let change = is_change(h.lines);
    let own = context_hunk_lines(h);
    let old = old_tags(h.lines, change);
    let new = new_tags(h.lines, change);
    let part = all.subrange(i, i + own.len());
    assert forall|j: int| 0 <= j < own.len() implies all[i + j] == own[j] by {
        assert(part[j] == all[i + j]);
    }
    assert(all[i] == own[0]);
    assert(all[i].skip(15) =~= h.header_suffix);
    assert(all[i + 1] == own[1]);
    lemma_tag_marks(h.lines, change);
    assert forall|j: int| 0 <= j < old.len() implies all[i + 2 + j] == tag_line(
        #[trigger] old[j],
    ) by {
        assert(all[i + (2 + j)] == own[2 + j]);
        assert(own[2 + j] == tag_lines(old)[j]);
    }
    let mid = i + 2 + old.len();
    assert(all[i + (2 + old.len())] == own[2 + old.len() as int]);
    assert(all[mid] == new_side_header(h));
    assert(all[mid].take(4) =~= "--- "@);
    assert(old.take(0) =~= Seq::empty());
    lemma_old_half_reads(all, i + 2, old, 0);
    assert forall|j: int| 0 <= j < new.len() implies all[mid + 1 + j] == tag_line(
        #[trigger] new[j],
    ) by {
        let at = 3 + old.len() + j;
        assert(all[i + at] == own[at]);
        assert(own[at] == tag_lines(new)[j]);
    }
    assert(new.take(0) =~= Seq::empty());
    lemma_new_half_reads(all, mid + 1, new, 0);
    lemma_halves_make_hunk(h);
}

// ---------------------------------------------------------------------------
// Context rejects
// ---------------------------------------------------------------------------

/// The lines of context hunks as they are written.
pub open spec fn context_hunks_lines(hunks: Seq<HunkModel>) -> Seq<Seq<char>>
    decreases hunks.len(),
{
    if hunks.len() == 0 {
        Seq::empty()
    } else {
        context_hunks_lines(hunks.drop_last()) + context_hunk_lines(hunks.last())
    }
}

proof fn lemma_context_hunks_text(hunks: Seq<HunkModel>)
    ensures
        reject_hunks(hunks, true) == terminated(context_hunks_lines(hunks)),
    decreases hunks.len(),
{
    if hunks.len() > 0 {
        let h = hunks.last();
        let init = hunks.drop_last();
        lemma_context_hunks_text(init);
        lemma_context_hunk_text(h);
        lemma_terminated_adds(context_hunks_lines(init), context_hunk_lines(h));
        let before = reject_hunks(init, true);
        let own = "***************"@ + h.header_suffix + "\n"@ + context_hunk_text(h);
        assert(reject_hunks(hunks, true) =~= before + own);
    }
}

proof fn lemma_context_lines_are_whole(hunks: Seq<HunkModel>, i: int)
    requires
        forall|m: int| 0 <= m < hunks.len() ==> has_whole_lines(#[trigger] hunks[m]),
        0 <= i < context_hunks_lines(hunks).len(),
    ensures
        !context_hunks_lines(hunks)[i].contains('\n'),
    decreases hunks.len(),
{
    let init = hunks.drop_last();
    let n = context_hunks_lines(init).len();
    if i < n {
        assert forall|m: int| 0 <= m < init.len() implies has_whole_lines(#[trigger] init[m]) by {
            assert(init[m] == hunks[m]);
        }
        lemma_context_lines_are_whole(init, i);
    } else {
        assert(has_whole_lines(hunks[hunks.len() - 1]));
        assert(!context_hunk_lines(hunks.last())[i - n].contains('\n'));
    }
}

/// The lines above the hunks of a context reject file.
spec fn context_head_lines(p: PatchModel) -> Seq<Seq<char>> {
    index_lines(p) + seq![
        "*** "@ + label(p.old_header, p.old_file, "a"@),
        "--- "@ + label(p.new_header, p.new_file, "b"@),
    ]
}

proof fn lemma_context_head_text(p: PatchModel)
    ensures
        terminated(context_head_lines(p)) == match p.index_line {
            Some(line) => line + "\n"@,
            None => Seq::empty(),
        } + reject_headers(p, true),
{
    let old_line = "*** "@ + label(p.old_header, p.old_file, "a"@);
    let new_line = "--- "@ + label(p.new_header, p.new_file, "b"@);
    let index = index_lines(p);
    let two = seq![old_line, new_line];
    lemma_terminated_adds(index, two);
    assert(two.drop_last() =~= seq![old_line]);
    lemma_terminated_one(old_line);
    assert(terminated(two) =~= reject_headers(p, true));
    assert(terminated(Seq::<Seq<char>>::empty()) =~= Seq::empty());
    if let Some(line) = p.index_line {
        lemma_terminated_one(line);
    }
}

/// The lines that a context reject file is read as.
proof fn lemma_context_reject_lines(p: PatchModel, o: OptionsModel, rejected: Seq<HunkModel>)
    requires
        as_context(p, o),
        forall|i: int| 0 <= i < rejected.len() ==> has_whole_lines(#[trigger] rejected[i]),
        has_plain_headers(p),
    ensures
        newline_parts(rejects(p, o, rejected)) == context_head_lines(p) + context_hunks_lines(
            rejected,
        ),
{
    reveal_strlit("*** ");
    reveal_strlit("--- ");
    let head = context_head_lines(p);
    let below = context_hunks_lines(rejected);
    let all = head + below;
    lemma_context_hunks_text(rejected);
    lemma_context_head_text(p);
    lemma_terminated_adds(head, below);
    assert(rejects(p, o, rejected) == terminated(all));
    lemma_no_newline_after("*** "@, label(p.old_header, p.old_file, "a"@));
    lemma_no_newline_after("--- "@, label(p.new_header, p.new_file, "b"@));
    assert forall|i: int| 0 <= i < all.len() implies !(#[trigger] all[i]).contains('\n') by {
        if i >= head.len() {
            lemma_context_lines_are_whole(rejected, i - head.len());
        }
    }
    lemma_terminated_reads(all);
}

/// Where context hunk `m` begins among the lines of the hunks.
spec fn context_hunk_begin(hunks: Seq<HunkModel>, m: int) -> int {
    context_hunks_lines(hunks.take(m)).len() as int
}

/// The lines of context hunk `m` stand where it begins.
proof fn lemma_context_hunk_place(hunks: Seq<HunkModel>, m: int)
    requires
        0 <= m < hunks.len(),
    ensures
        ({
            let begin = context_hunk_begin(hunks, m);
            let next = context_hunk_begin(hunks, m + 1);
            &&& next == begin + context_hunk_lines(hunks[m]).len()
            &&& next <= context_hunks_lines(hunks).len()
            &&& context_hunks_lines(hunks).subrange(begin, next) == context_hunk_lines(hunks[m])
        }),
    decreases hunks.len(),
{
    let all = context_hunks_lines(hunks);
    let begin = context_hunk_begin(hunks, m);
    let next = context_hunk_begin(hunks, m + 1);
    let own = context_hunk_lines(hunks[m]);
    assert(hunks.take(m + 1).drop_last() =~= hunks.take(m));
    assert(hunks.take(m + 1).last() == hunks[m]);
    if m == hunks.len() - 1 {
        assert(hunks.take(m + 1) =~= hunks);
        assert(hunks.drop_last() =~= hunks.take(m));
        assert(all.subrange(begin, next) =~= own);
    } else {
        let init = hunks.drop_last();
        lemma_context_hunk_place(init, m);
        assert(init.take(m) =~= hunks.take(m));
        assert(init.take(m + 1) =~= hunks.take(m + 1));
        assert(all.subrange(begin, next) =~= context_hunks_lines(init).subrange(begin, next));
    }
}

/// A context hunk begins with a row of stars.
proof fn lemma_begins_with_stars(h: HunkModel)
    ensures
        context_hunk_lines(h).len() > 0,
        has_prefix(context_hunk_lines(h)[0], "***************"@),
{
    let line = context_hunk_lines(h)[0];
    assert(line == "***************"@ + h.header_suffix);
    assert(line.take("***************"@.len() as int) =~= "***************"@);
}

/// The context hunks from the `m`th on, written below `head`, are read as they
/// were.
#[verifier::spinoff_prover]
#[verifier::rlimit(50)]
proof fn lemma_context_hunks_read(head: Seq<Seq<char>>, hunks: Seq<HunkModel>, m: int)
    requires
        0 <= m <= hunks.len(),
        forall|i: int| 0 <= i < hunks.len() ==> is_readable_in_context(#[trigger] hunks[i]),
    ensures
        context_hunks(
            head + context_hunks_lines(hunks),
            head.len() + context_hunk_begin(hunks, m),
            hunks.take(m),
        ) == Ok::<_, PatchError>((hunks, (head + context_hunks_lines(hunks)).len() as int)),
    decreases hunks.len() - m,
{
    let below = context_hunks_lines(hunks);
    let all = head + below;
    let i = head.len() + context_hunk_begin(hunks, m);
    if m == hunks.len() {
        assert(hunks.take(m) =~= hunks);
    } else {
        let h = hunks[m];
        let next = head.len() + context_hunk_begin(hunks, m + 1);
        assert(is_readable_in_context(h));
        lemma_context_hunk_place(hunks, m);
        assert(all.subrange(i, next) =~= below.subrange(i - head.len(), next - head.len()));
        lemma_begins_with_stars(h);
        assert(all[i] == all.subrange(i, next)[0]);
        if m + 1 < hunks.len() {
            let after = hunks[m + 1];
            let end = context_hunk_begin(hunks, m + 2);
            lemma_context_hunk_place(hunks, m + 1);
            lemma_begins_with_stars(after);
            assert(all[next] == below.subrange(next - head.len(), end)[0]);
        } else {
            assert(hunks.take(m + 1) =~= hunks);
        }
        law_context_hunk_reads_back(all, i, h);
        assert(hunks.take(m).push(h) =~= hunks.take(m + 1));
        lemma_context_hunks_read(head, hunks, m + 1);
    }
}

/// A context reject file is read as a patch with the hunks that were saved, in
/// their order, under the same headers, as long as each hunk alone is read as
/// it is written.
pub proof fn law_context_rejects_read_back(
    p: PatchModel,
    o: OptionsModel,
    rejected: Seq<HunkModel>,
)
    requires
        as_context(p, o),
        rejected.len() > 0,
        forall|i: int| 0 <= i < rejected.len() ==> has_whole_lines(#[trigger] rejected[i]),
        forall|i: int| 0 <= i < rejected.len() ==> is_readable_in_context(#[trigger] rejected[i]),
        has_plain_headers(p),
    ensures
        ({
            let lines = newline_parts(rejects(p, o, rejected));
            &&& context_patch(lines, 0) matches Ok(Some((q, next)))
            &&& next == lines.len()
            &&& q.hunks == rejected
            &&& q.old_header == label(p.old_header, p.old_file, "a"@)
            &&& q.new_header == label(p.new_header, p.new_file, "b"@)
        }),
{
    reveal_strlit("*** ");
    reveal_strlit("--- ");
    reveal_strlit("Index: ");
    reveal_strlit("***************");
    let head = context_head_lines(p);
    let all = head + context_hunks_lines(rejected);
    let at = index_lines(p).len() as int;
    lemma_context_reject_lines(p, o, rejected);
    assert(rejected.take(0) =~= Seq::empty());
    assert(context_hunk_begin(rejected, 0) == 0);
    lemma_context_hunks_read(head, rejected, 0);
    let old_line = "*** "@ + label(p.old_header, p.old_file, "a"@);
    let new_line = "--- "@ + label(p.new_header, p.new_file, "b"@);
    assert(all[at] == old_line);
    assert(all[at + 1] == new_line);
    assert(old_line.take(4) =~= "*** "@);
    assert(new_line.take(4) =~= "--- "@);
    assert(old_line.skip(4) =~= label(p.old_header, p.old_file, "a"@));
    assert(new_line.skip(4) =~= label(p.new_header, p.new_file, "b"@));
    assert(context_start(all, at) == at);
    if let Some(line) = p.index_line {
        assert(all[0] == line);
        assert(line.take(7)[0] == 'I');
        assert(!has_prefix(line, "*** "@)) by {
            if has_prefix(line, "*** "@) {
                assert(line.take(4)[0] == '*');
            }
        }
        assert(!has_prefix(line, "***************"@)) by {
            if has_prefix(line, "***************"@) {
                assert(line.take(15)[0] == '*');
            }
        }
        assert(context_start(all, 0) == context_start(all, 1));
    }
}

} // verus!
