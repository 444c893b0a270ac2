//! Where lines, entries and files stand: how lines are followed from one commit to another, and in
//! which order merging and filtering leave what they are given.

use crate::authorship::attestation_laws::{carries, entries_attested, lemma_with_file};
use crate::authorship::authorship_log::{
    file_at, file_index, with_file, AuthorshipLog, EntryView, FileView,
};
use crate::authorship::conflict_resolution::{
    entry_kept, file_kept, log_or_empty, uncovered_entries, uncovered_files, uncovering_entry,
    uncovering_file,
};
use crate::authorship::line_coverage::covered_lines;
use crate::authorship::line_mapping::{
    content_lines, keeps_line, law_mapping_follows_kept_lines, line_mapping, map_run,
    some_step_keeps, DiffOp,
};
use crate::authorship::line_range::{
    canonical, canonical_ranges, lemma_canonical_exists, lemma_lines_bounded, lines_of,
};
use crate::authorship::log_merge::{merged_entries, merged_file, merged_files};
use crate::selection::{lemma_filter_positions, positions_within};
use crate::text::text_lines;
use vstd::prelude::*;
use vstd::utf8::{decode_utf8, valid_utf8};

verus! {

/// Whether the line `from` is kept at an offset of a step and by no later line of the difference.
pub open spec fn keeps_last(ops: Seq<DiffOp>, k: int, offset: int, from: u32, to: u32) -> bool {
    &&& 0 <= k < ops.len()
    &&& keeps_line(ops[k], offset, from, to)
    &&& forall|later: int, at: int, other: u32|
        0 <= later < ops.len() && (k < later || k == later && offset < at) ==> !(
        #[trigger] keeps_line(ops[later], at, from, other))
}

proof fn lemma_run_ends(
    mapping: Map<u32, u32>,
    old_index: usize,
    new_index: usize,
    len: nat,
    offset: int,
    from: u32,
)
    requires
        0 <= offset < len,
        from == (old_index + offset + 1) as u32,
        forall|at: int| offset < at < len ==> from != #[trigger] ((old_index + at + 1) as u32),
    ensures
        map_run(mapping, old_index, new_index, len).contains_pair(
            from,
            (new_index + offset + 1) as u32,
        ),
    decreases len,
{
    if offset < len - 1 {
        assert(from != ((old_index + (len - 1) + 1) as u32));
        assert(old_index + (len - 1) + 1 == old_index + len);
        lemma_run_ends(mapping, old_index, new_index, (len - 1) as nat, offset, from);
    }
}

proof fn lemma_run_passes(
    mapping: Map<u32, u32>,
    old_index: usize,
    new_index: usize,
    len: nat,
    from: u32,
)
    requires
        forall|at: int| 0 <= at < len ==> from != #[trigger] ((old_index + at + 1) as u32),
    ensures
        map_run(mapping, old_index, new_index, len).contains_key(from) <==> mapping.contains_key(
            from,
        ),
        mapping.contains_key(from) ==> map_run(mapping, old_index, new_index, len)[from]
            == mapping[from],
    decreases len,
{
    if len > 0 {
        assert(from != ((old_index + (len - 1) + 1) as u32));
        assert(old_index + (len - 1) + 1 == old_index + len);
        lemma_run_passes(mapping, old_index, new_index, (len - 1) as nat, from);
    }
}

/// A line is followed to where it is kept last.
pub proof fn law_last_kept_place_prevails(
    ops: Seq<DiffOp>,
    k: int,
    offset: int,
    from: u32,
    to: u32,
)
    requires
        keeps_last(ops, k, offset, from, to),
    ensures
        line_mapping(ops).contains_pair(from, to),
    decreases ops.len(),
{
    let rest = ops.drop_last();
    let last = ops.len() - 1;
    if k == last {
        if let DiffOp::Equal { old_index, new_index, len } = ops[last] {
            assert forall|at: int| offset < at < len implies from != #[trigger] ((old_index + at
                + 1) as u32) by {
                assert(!keeps_line(ops[last], at, from, (new_index + at + 1) as u32));
            }
            lemma_run_ends(line_mapping(rest), old_index, new_index, len as nat, offset, from);
        }
    } else {
        assert(rest[k] == ops[k]);
        assert forall|later: int, at: int, other: u32|
            0 <= later < rest.len() && (k < later || k == later && offset < at) implies !(
        #[trigger] keeps_line(rest[later], at, from, other)) by {
            assert(rest[later] == ops[later]);
            assert(!keeps_line(ops[later], at, from, other));
        }
        law_last_kept_place_prevails(rest, k, offset, from, to);
        if let DiffOp::Equal { old_index, new_index, len } = ops[last] {
            assert forall|at: int| 0 <= at < len implies from != #[trigger] ((old_index + at
                + 1) as u32) by {
                assert(!keeps_line(ops[last], at, from, (new_index + at + 1) as u32));
            }
            lemma_run_passes(line_mapping(rest), old_index, new_index, len as nat, from);
        }
    }
}

/// A line that a file of a source commit attests is carried exactly where the difference of that
/// very file keeps it. A file without a difference carries nothing.
pub proof fn law_kept_lines_are_carried(
    files: Seq<FileView>,
    diffs: Seq<Option<Seq<DiffOp>>>,
    at: int,
    from: u32,
    hash: Seq<char>,
    k: int,
    offset: int,
    to: u32,
)
    requires
        0 <= at < files.len(),
        entries_attested(files[at].entries, hash).contains(from as int),
    ensures
        at < diffs.len() && diffs[at] is Some && keeps_last(diffs[at]->0, k, offset, from, to)
            ==> carries(files, diffs, at, from, files[at].file_path, hash, to as int),
        (at < diffs.len() && diffs[at] is Some && !some_step_keeps(diffs[at]->0, from, to))
            ==> !carries(files, diffs, at, from, files[at].file_path, hash, to as int),
        (at >= diffs.len() || diffs[at] is None) ==> !carries(
            files,
            diffs,
            at,
            from,
            files[at].file_path,
            hash,
            to as int,
        ),
{
    if at < diffs.len() && diffs[at] is Some {
        let ops = diffs[at]->0;
        law_mapping_follows_kept_lines(ops, from);
        if keeps_last(ops, k, offset, from, to) {
            law_last_kept_place_prevails(ops, k, offset, from, to);
        }
    }
}

/// The versions of a file are compared as the lines of their texts, exactly where the bytes are
/// UTF-8.
pub proof fn law_texts_are_compared_by_lines(bytes: Seq<u8>)
    ensures
        content_lines(Some(bytes)) is Some <==> valid_utf8(bytes),
        valid_utf8(bytes) ==> content_lines(Some(bytes)) == Some(text_lines(decode_utf8(bytes))),
        content_lines(None) is None,
{
}

/// The shifted log is where a merge begins, with all that it holds; without one it begins with
/// nothing.
pub proof fn law_merge_begins_with_shifted_log(log: AuthorshipLog)
    ensures
        log_or_empty(Some(log)).files == log@.files,
        log_or_empty(Some(log)).metadata == log@.metadata,
        log_or_empty(None).files.len() == 0,
        log_or_empty(None).metadata.prompts.dom().is_empty(),
        log_or_empty(None).metadata.humans.dom().is_empty(),
        log_or_empty(None).metadata.sessions.dom().is_empty(),
{
}

/// Merging the files of two logs at once is merging first those of one, then those of the other.
pub proof fn law_merging_adds_up(
    target: Seq<FileView>,
    first: Seq<FileView>,
    second: Seq<FileView>,
)
    ensures
        merged_files(target, first + second) == merged_files(merged_files(target, first), second),
    decreases second.len(),
{
    if second.len() == 0 {
        assert(first + second =~= first);
    } else {
        assert((first + second).drop_last() =~= first + second.drop_last());
        law_merging_adds_up(target, first, second.drop_last());
    }
}

proof fn lemma_merging_entries_adds_up(
    target: Seq<EntryView>,
    first: Seq<EntryView>,
    second: Seq<EntryView>,
)
    ensures
        merged_entries(target, first + second) == merged_entries(
            merged_entries(target, first),
            second,
        ),
    decreases second.len(),
{
    if second.len() == 0 {
        assert(first + second =~= first);
    } else {
        assert((first + second).drop_last() =~= first + second.drop_last());
        lemma_merging_entries_adds_up(target, first, second.drop_last());
    }
}

/// A file can come in two parts: merging its entries at once is merging first some, then the rest.
pub proof fn law_file_can_come_in_parts(
    target: Seq<FileView>,
    path: Seq<char>,
    first: Seq<EntryView>,
    second: Seq<EntryView>,
)
    ensures
        ({
            let whole = FileView { file_path: path, entries: first + second };
            let one = FileView { file_path: path, entries: first };
            let other = FileView { file_path: path, entries: second };
            merged_files(target, seq![whole]) == merged_files(target, seq![one, other])
        }),
{
    let whole = FileView { file_path: path, entries: first + second };
    let one = FileView { file_path: path, entries: first };
    let other = FileView { file_path: path, entries: second };
    assert(seq![one, other].drop_last() =~= seq![one]);
    assert(seq![one].drop_last() =~= Seq::empty());
    assert(seq![whole].drop_last() =~= Seq::empty());
    reveal_with_fuel(merged_files, 3);
    assert(merged_files(target, seq![whole]) == merged_file(target, whole));
    assert(merged_files(target, seq![one, other]) == merged_file(merged_file(target, one), other));
    let present = with_file(target, path);
    lemma_with_file(target, path, path, Seq::empty());
    let at = file_index(present, path);
    let half = merged_file(target, one);
    assert(half[at].file_path == path);
    assert(file_at(half, path, at));
    assert(with_file(half, path) == half);
    lemma_with_file(half, path, path, Seq::empty());
    assert(file_index(half, path) == at) by {
        let found = file_index(half, path);
        assert(file_at(half, path, found));
        if found < at {
            assert(half[found].file_path != path);
        }
        if at < found {
            assert(half[at].file_path != path);
        }
    }
    lemma_merging_entries_adds_up(present[at].entries, first, second);
    assert(merged_file(half, other) =~= merged_file(target, whole));
}

/// A file whose path is new stands at the end after a merge, and so does an entry whose hash is
/// new to its file, with the lines in normal form.
pub proof fn law_what_is_new_comes_last(
    target: Seq<FileView>,
    path: Seq<char>,
    entry: EntryView,
)
    requires
        forall|i: int| 0 <= i < target.len() ==> (#[trigger] target[i]).file_path != path,
    ensures
        ({
            let merged = merged_files(
                target,
                seq![FileView { file_path: path, entries: seq![entry] }],
            );
            let last = merged[target.len() as int];
            &&& merged.len() == target.len() + 1
            &&& merged.take(target.len() as int) == target
            &&& last.file_path == path
            &&& last.entries.len() == 1
            &&& last.entries[0].hash == entry.hash
            &&& canonical(last.entries[0].line_ranges)
            &&& lines_of(last.entries[0].line_ranges) == lines_of(entry.line_ranges)
        }),
{
    let file = FileView { file_path: path, entries: seq![entry] };
    assert(seq![file].drop_last() =~= Seq::empty());
    assert(seq![entry].drop_last() =~= Seq::empty());
    reveal_with_fuel(merged_files, 2);
    reveal_with_fuel(merged_entries, 2);
    let merged = merged_files(target, seq![file]);
    assert(merged == merged_file(target, file));
    let present = with_file(target, path);
    lemma_with_file(target, path, path, Seq::empty());
    assert(file_index(present, path) == target.len()) by {
        let at = file_index(present, path);
        assert(file_at(present, path, at));
    }
    assert(merged.take(target.len() as int) =~= target);
    lemma_lines_bounded(entry.line_ranges);
    lemma_canonical_exists(lines_of(entry.line_ranges));
}

/// Filtering takes the files one by one: those of two lists come out one after the other.
pub proof fn law_filtering_adds_up(
    first: Seq<FileView>,
    second: Seq<FileView>,
    covering: Seq<FileView>,
)
    ensures
        uncovered_files(first + second, covering) == uncovered_files(first, covering)
            + uncovered_files(second, covering),
{
    let taken = uncovering_file(covering);
    assert((first + second).map_values(taken) =~= first.map_values(taken) + second.map_values(
        taken,
    ));
    Seq::filter_distributes_over_add(
        first.map_values(taken),
        second.map_values(taken),
        file_kept(),
    );
}

/// Of a file those entries stay, in their order, that hold a line which is not covered. Each keeps
/// its hash and exactly those lines, in normal form.
pub proof fn law_filtered_entries_keep_order(entries: Seq<EntryView>, covered: Set<int>) -> (
    positions: Seq<int>)
    ensures
        positions_within(positions, entries.len()),
        forall|k: int| #[trigger]
            positions.contains(k) <==> 0 <= k < entries.len() && exists|line: int|
                #[trigger] lines_of(entries[k].line_ranges).contains(line) && !covered.contains(
                    line,
                ),
        uncovered_entries(entries, covered).len() == positions.len(),
        forall|i: int|
            0 <= i < positions.len() ==> {
                let kept = uncovered_entries(entries, covered)[i];
                let given = entries[#[trigger] positions[i]];
                &&& kept.hash == given.hash
                &&& canonical(kept.line_ranges)
                &&& lines_of(kept.line_ranges) == lines_of(given.line_ranges).difference(covered)
            },
{
    let taken = entries.map_values(uncovering_entry(covered));
    let positions = lemma_filter_positions(taken, entry_kept());
    assert forall|k: int| 0 <= k < entries.len() implies {
        let left = lines_of((#[trigger] entries[k]).line_ranges).difference(covered);
        &&& canonical(taken[k].line_ranges)
        &&& lines_of(taken[k].line_ranges) == left
        &&& taken[k].line_ranges.len() > 0 <==> exists|line: int|
            #[trigger] lines_of(entries[k].line_ranges).contains(line) && !covered.contains(line)
    } by {
        let left = lines_of(entries[k].line_ranges).difference(covered);
        lemma_lines_bounded(entries[k].line_ranges);
        lemma_canonical_exists(left);
        let ranges = taken[k].line_ranges;
        assert(ranges == canonical_ranges(left));
        if ranges.len() > 0 {
            assert(ranges[0].proper());
            assert(ranges[0].holds(ranges[0].first()));
            assert(lines_of(ranges).contains(ranges[0].first()));
            assert(lines_of(entries[k].line_ranges).contains(ranges[0].first()));
        }
        if exists|line: int|
            #[trigger] lines_of(entries[k].line_ranges).contains(line) && !covered.contains(line) {
            let line = choose|line: int|
                #[trigger] lines_of(entries[k].line_ranges).contains(line) && !covered.contains(
                    line,
                );
            assert(left.contains(line));
            assert(lines_of(ranges).contains(line));
        }
    }
    assert forall|i: int| 0 <= i < positions.len() implies {
        let kept = uncovered_entries(entries, covered)[i];
        let given = entries[#[trigger] positions[i]];
        &&& kept.hash == given.hash
        &&& canonical(kept.line_ranges)
        &&& lines_of(kept.line_ranges) == lines_of(given.line_ranges).difference(covered)
    } by {
        assert(uncovered_entries(entries, covered)[i] == taken[positions[i]]);
        assert(canonical(taken[positions[i]].line_ranges));
    }
    positions
}

/// A file that is filtered keeps its path, and what stays of its entries depends on the lines that
/// are covered under that path alone.
pub proof fn law_file_is_filtered_by_its_path(file: FileView, covering: Seq<FileView>)
    ensures
        ({
            let kept = uncovered_entries(file.entries, covered_lines(covering, file.file_path));
            uncovered_files(seq![file], covering) == if kept.len() > 0 {
                seq![FileView { file_path: file.file_path, entries: kept }]
            } else {
                Seq::empty()
            }
        }),
{
    reveal(Seq::filter);
    let taken = seq![file].map_values(uncovering_file(covering));
    assert(taken =~= seq![uncovering_file(covering)(file)]);
    assert(taken.drop_last() =~= Seq::empty());
    assert(taken.drop_last().filter(file_kept()) =~= Seq::empty());
    assert(uncovered_files(seq![file], covering) =~= if file_kept()(taken[0]) {
        seq![taken[0]]
    } else {
        Seq::empty()
    });
}

} // verus!
