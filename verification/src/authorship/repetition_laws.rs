//! What a second merge or recovery does, and to whom a recovered line goes.

use crate::authorship::attestation_laws::{
    attested, carries, entries_attested, law_covered_is_attested, law_merge_joins_attestations,
    law_merge_joins_coverage, law_recovery_adds_carried_lines, law_recovery_covers_carried_lines,
    law_resolution_adds_uncovered_lines, law_resolution_covers_all, lemma_first_entry,
    lemma_recovered_entry, lemma_recovered_files, lemma_with_file, one_author,
};
use crate::authorship::authorship_log::{
    file_at, file_index, has_file, with_file, EntryView, FileView, LogView, MetadataView,
};
use crate::authorship::conflict_resolution::{
    diff_views, mapped_lines, mapping_at, missing_lines, recovered_entries, recovered_files,
    recovered_log, resolved_log, uncovered_entries, uncovered_entry, uncovered_file,
    uncovered_files, uncovered_log, uncovering_entry, uncovering_file, with_recovered,
    SourceCommit,
};
use crate::authorship::line_coverage::{covered_lines, entries_lines};
use crate::authorship::line_mapping::DiffOp;
use crate::authorship::line_range::{
    canonical_ranges, lemma_canonical_empty, lemma_canonical_exists, lemma_lines_bounded,
    lines_of,
};
use crate::authorship::log_merge::{
    entry_at, has_entry, merged_entries, merged_entry, merged_file, merged_files, merged_log,
    merged_metadata,
};
use crate::authorship::metadata_references::{referenced_keys, referenced_metadata, RecordKind};
use vstd::prelude::*;

verus! {

/// Whether the first entry with the hash of another holds its lines, in normal form.
spec fn absorbed_at(entries: Seq<EntryView>, entry: EntryView, at: int) -> bool {
    &&& entry_at(entries, entry.hash, at)
    &&& lines_of(entry.line_ranges).subset_of(lines_of(entries[at].line_ranges))
    &&& entries[at].line_ranges == canonical_ranges(lines_of(entries[at].line_ranges))
}

spec fn absorbed(entries: Seq<EntryView>, entry: EntryView) -> bool {
    exists|at: int| absorbed_at(entries, entry, at)
}

proof fn lemma_absorbed_stays(entries: Seq<EntryView>, entry: EntryView)
    requires
        absorbed(entries, entry),
    ensures
        merged_entry(entries, entry) == entries,
{
    let at = choose|at: int| absorbed_at(entries, entry, at);
    assert(entries[at].hash == entry.hash);
    let first = choose|first: int| entry_at(entries, entry.hash, first);
    assert(first == at);
    assert(lines_of(entries[at].line_ranges).union(lines_of(entry.line_ranges)) =~= lines_of(
        entries[at].line_ranges,
    ));
    assert(merged_entry(entries, entry) =~= entries);
}

proof fn lemma_merging_absorbs(entries: Seq<EntryView>, entry: EntryView)
    ensures
        absorbed(merged_entry(entries, entry), entry),
{
    let merged = merged_entry(entries, entry);
    lemma_lines_bounded(entry.line_ranges);
    if has_entry(entries, entry.hash) {
        let some = choose|j: int|
            0 <= j < entries.len() && (#[trigger] entries[j]).hash == entry.hash;
        lemma_first_entry(entries, entry.hash, some);
        let at = choose|at: int| entry_at(entries, entry.hash, at);
        lemma_lines_bounded(entries[at].line_ranges);
        lemma_canonical_exists(
            lines_of(entries[at].line_ranges).union(lines_of(entry.line_ranges)),
        );
        assert(absorbed_at(merged, entry, at));
    } else {
        lemma_canonical_exists(lines_of(entry.line_ranges));
        assert(absorbed_at(merged, entry, entries.len() as int));
    }
}

proof fn lemma_absorbed_after_merge(
    entries: Seq<EntryView>,
    entry: EntryView,
    other: EntryView,
)
    requires
        absorbed(entries, entry),
    ensures
        absorbed(merged_entry(entries, other), entry),
{
    let merged = merged_entry(entries, other);
    let at = choose|at: int| absorbed_at(entries, entry, at);
    lemma_lines_bounded(other.line_ranges);
    if has_entry(entries, other.hash) {
        let some = choose|j: int|
            0 <= j < entries.len() && (#[trigger] entries[j]).hash == other.hash;
        lemma_first_entry(entries, other.hash, some);
        let first = choose|first: int| entry_at(entries, other.hash, first);
        lemma_lines_bounded(entries[first].line_ranges);
        lemma_canonical_exists(
            lines_of(entries[first].line_ranges).union(lines_of(other.line_ranges)),
        );
        assert forall|j: int| 0 <= j < at implies (#[trigger] merged[j]).hash != entry.hash by {
            assert(entries[j].hash != entry.hash);
        }
        if first == at {
            assert(lines_of(entry.line_ranges).subset_of(lines_of(merged[at].line_ranges)));
        }
        assert(absorbed_at(merged, entry, at));
    } else {
        assert forall|j: int| 0 <= j < at implies (#[trigger] merged[j]).hash != entry.hash by {
            assert(entries[j].hash != entry.hash);
        }
        assert(absorbed_at(merged, entry, at));
    }
}

proof fn lemma_absorbed_after_merges(
    entries: Seq<EntryView>,
    entry: EntryView,
    more: Seq<EntryView>,
)
    requires
        absorbed(entries, entry),
    ensures
        absorbed(merged_entries(entries, more), entry),
    decreases more.len(),
{
    if more.len() > 0 {
        lemma_absorbed_after_merges(entries, entry, more.drop_last());
        lemma_absorbed_after_merge(
            merged_entries(entries, more.drop_last()),
            entry,
            more.last(),
        );
    }
}

spec fn all_absorbed(entries: Seq<EntryView>, more: Seq<EntryView>) -> bool {
    forall|j: int| 0 <= j < more.len() ==> absorbed(entries, #[trigger] more[j])
}

proof fn lemma_merges_absorb(entries: Seq<EntryView>, more: Seq<EntryView>)
    ensures
        all_absorbed(merged_entries(entries, more), more),
    decreases more.len(),
{
    if more.len() > 0 {
        let rest = more.drop_last();
        let before = merged_entries(entries, rest);
        lemma_merges_absorb(entries, rest);
        lemma_merging_absorbs(before, more.last());
        assert forall|j: int| 0 <= j < more.len() implies absorbed(
            merged_entries(entries, more),
            #[trigger] more[j],
        ) by {
            if j < rest.len() {
                assert(rest[j] == more[j]);
                assert(absorbed(before, rest[j]));
                lemma_absorbed_after_merge(before, more[j], more.last());
            }
        }
    }
}

proof fn lemma_all_absorbed_stay(entries: Seq<EntryView>, more: Seq<EntryView>)
    requires
        all_absorbed(entries, more),
    ensures
        merged_entries(entries, more) == entries,
    decreases more.len(),
{
    if more.len() > 0 {
        let rest = more.drop_last();
        assert forall|j: int| 0 <= j < rest.len() implies absorbed(entries, #[trigger] rest[j]) by {
            assert(rest[j] == more[j]);
        }
        lemma_all_absorbed_stay(entries, rest);
        assert(absorbed(entries, more[more.len() - 1]));
        lemma_absorbed_stays(entries, more.last());
    }
}

/// Whether the first file with the path of another has absorbed all its entries.
spec fn file_absorbed_at(files: Seq<FileView>, file: FileView, at: int) -> bool {
    file_at(files, file.file_path, at) && all_absorbed(files[at].entries, file.entries)
}

spec fn file_absorbed(files: Seq<FileView>, file: FileView) -> bool {
    exists|at: int| file_absorbed_at(files, file, at)
}

proof fn lemma_absorbed_file_stays(files: Seq<FileView>, file: FileView)
    requires
        file_absorbed(files, file),
    ensures
        merged_file(files, file) == files,
{
    let at = choose|at: int| file_absorbed_at(files, file, at);
    assert(files[at].file_path == file.file_path);
    assert(has_file(files, file.file_path));
    assert(file_index(files, file.file_path) == at) by {
        assert(file_at(files, file.file_path, at));
    }
    lemma_all_absorbed_stay(files[at].entries, file.entries);
    assert(merged_file(files, file) =~= files);
}

proof fn lemma_merging_absorbs_file(files: Seq<FileView>, file: FileView)
    ensures
        file_absorbed(merged_file(files, file), file),
{
    let present = with_file(files, file.file_path);
    lemma_with_file(files, file.file_path, file.file_path, Seq::empty());
    let at = file_index(present, file.file_path);
    let merged = merged_file(files, file);
    lemma_merges_absorb(present[at].entries, file.entries);
    assert forall|i: int| 0 <= i < at implies (#[trigger] merged[i]).file_path
        != file.file_path by {
        assert(present[i].file_path != file.file_path);
    }
    assert(file_absorbed_at(merged, file, at));
}

proof fn lemma_absorbed_file_after_merge(
    files: Seq<FileView>,
    file: FileView,
    other: FileView,
)
    requires
        file_absorbed(files, file),
    ensures
        file_absorbed(merged_file(files, other), file),
{
    let at = choose|at: int| file_absorbed_at(files, file, at);
    let present = with_file(files, other.file_path);
    lemma_with_file(files, other.file_path, other.file_path, Seq::empty());
    let changed = file_index(present, other.file_path);
    let merged = merged_file(files, other);
    assert forall|i: int| 0 <= i < at implies (#[trigger] merged[i]).file_path
        != file.file_path by {
        assert(files[i].file_path != file.file_path);
        assert(present[i] == files[i]);
    }
    assert(present[at] == files[at]);
    assert forall|j: int| 0 <= j < file.entries.len() implies absorbed(
        merged[at].entries,
        #[trigger] file.entries[j],
    ) by {
        assert(absorbed(files[at].entries, file.entries[j]));
        if changed == at {
            lemma_absorbed_after_merges(files[at].entries, file.entries[j], other.entries);
        }
    }
    assert(file_absorbed_at(merged, file, at));
}

proof fn lemma_merged_files_absorb(files: Seq<FileView>, more: Seq<FileView>)
    ensures
        forall|i: int|
            0 <= i < more.len() ==> file_absorbed(merged_files(files, more), #[trigger] more[i]),
    decreases more.len(),
{
    if more.len() > 0 {
        let rest = more.drop_last();
        let before = merged_files(files, rest);
        lemma_merged_files_absorb(files, rest);
        lemma_merging_absorbs_file(before, more.last());
        assert forall|i: int| 0 <= i < more.len() implies file_absorbed(
            merged_files(files, more),
            #[trigger] more[i],
        ) by {
            if i < rest.len() {
                assert(rest[i] == more[i]);
                assert(file_absorbed(before, rest[i]));
                lemma_absorbed_file_after_merge(before, more[i], more.last());
            }
        }
    }
}

proof fn lemma_absorbed_files_stay(files: Seq<FileView>, more: Seq<FileView>)
    requires
        forall|i: int| 0 <= i < more.len() ==> file_absorbed(files, #[trigger] more[i]),
    ensures
        merged_files(files, more) == files,
    decreases more.len(),
{
    if more.len() > 0 {
        let rest = more.drop_last();
        assert forall|i: int| 0 <= i < rest.len() implies file_absorbed(
            files,
            #[trigger] rest[i],
        ) by {
            assert(rest[i] == more[i]);
        }
        lemma_absorbed_files_stay(files, rest);
        assert(file_absorbed(files, more[more.len() - 1]));
        lemma_absorbed_file_stays(files, more.last());
    }
}

/// Merging the same attestations a second time changes nothing.
pub proof fn law_second_merge_changes_nothing(target: Seq<FileView>, source: Seq<FileView>)
    ensures
        merged_files(merged_files(target, source), source) == merged_files(target, source),
{
    lemma_merged_files_absorb(target, source);
    lemma_absorbed_files_stay(merged_files(target, source), source);
}

/// Merging the same records a second time changes nothing.
pub proof fn law_second_metadata_merge_changes_nothing(
    target: MetadataView,
    source: MetadataView,
)
    ensures
        merged_metadata(merged_metadata(target, source), source) == merged_metadata(
            target,
            source,
        ),
{
    assert(merged_metadata(merged_metadata(target, source), source) =~= merged_metadata(
        target,
        source,
    ));
}

/// Merging a log without files, with the records that it refers to, changes nothing.
proof fn lemma_merging_nothing(target: LogView, metadata: MetadataView)
    ensures
        merged_log(
            target,
            LogView {
                files: Seq::empty(),
                metadata: referenced_metadata(metadata, Seq::empty()),
            },
        ) == target,
{
    let none = Seq::<FileView>::empty();
    assert(referenced_keys(none, RecordKind::Prompt) =~= Set::empty());
    assert(referenced_keys(none, RecordKind::Human) =~= Set::empty());
    assert(referenced_keys(none, RecordKind::Session) =~= Set::empty());
    assert(merged_metadata(target.metadata, referenced_metadata(metadata, none))
        =~= target.metadata);
}

/// Whether a target covers every line that a source commit carries over.
spec fn covers_carried(
    target: Seq<FileView>,
    files: Seq<FileView>,
    diffs: Seq<Option<Seq<DiffOp>>>,
) -> bool {
    forall|at: int, source: u32, path: Seq<char>, hash: Seq<char>, line: int| #[trigger]
        carries(files, diffs, at, source, path, hash, line) ==> covered_lines(
            target,
            path,
        ).contains(line)
}

proof fn lemma_no_entry_recovered(
    target: Seq<FileView>,
    path: Seq<char>,
    entries: Seq<EntryView>,
    mapping: Map<u32, u32>,
)
    requires
        forall|j: int, line: int|
            0 <= j < entries.len() && #[trigger] mapped_lines(entries[j], mapping).contains(line)
                ==> covered_lines(target, path).contains(line),
    ensures
        recovered_entries(target, Seq::empty(), path, entries, mapping) == Seq::<
            FileView,
        >::empty(),
    decreases entries.len(),
{
    if entries.len() > 0 {
        let rest = entries.drop_last();
        assert forall|j: int, line: int|
            0 <= j < rest.len() && #[trigger] mapped_lines(rest[j], mapping).contains(
                line,
            ) implies covered_lines(target, path).contains(line) by {
            assert(rest[j] == entries[j]);
        }
        lemma_no_entry_recovered(target, path, rest, mapping);
        let last = entries[entries.len() - 1];
        let missing = missing_lines(target, Seq::empty(), path, last, mapping);
        assert forall|line: int| !missing.contains(line) by {
            if mapped_lines(last, mapping).contains(line) {
                assert(covered_lines(target, path).contains(line));
            }
        }
        assert(missing =~= Set::<int>::empty());
    }
}

/// Where everything is covered, nothing is recovered.
proof fn lemma_nothing_recovered(
    target: Seq<FileView>,
    files: Seq<FileView>,
    diffs: Seq<Option<Seq<DiffOp>>>,
)
    requires
        covers_carried(target, files, diffs),
    ensures
        recovered_files(target, files, diffs) == Seq::<FileView>::empty(),
    decreases files.len(),
{
    if files.len() > 0 {
        let rest = files.drop_last();
        let last = files.len() - 1;
        assert forall|at: int, source: u32, path: Seq<char>, hash: Seq<char>, line: int| #[trigger]
            carries(rest, diffs, at, source, path, hash, line) implies covered_lines(
            target,
            path,
        ).contains(line) by {
            assert(carries(files, diffs, at, source, path, hash, line));
        }
        lemma_nothing_recovered(target, rest, diffs);
        if let Some(mapping) = mapping_at(diffs, last) {
            let file = files[last];
            assert forall|j: int, line: int|
                0 <= j < file.entries.len() && #[trigger] mapped_lines(
                    file.entries[j],
                    mapping,
                ).contains(line) implies covered_lines(target, file.file_path).contains(line) by {
                lemma_mapped_is_carried(files, diffs, last, j, line);
            }
            lemma_no_entry_recovered(target, file.file_path, file.entries, mapping);
        }
    }
}

/// A line to which an entry is mapped is carried over.
proof fn lemma_mapped_is_carried(
    files: Seq<FileView>,
    diffs: Seq<Option<Seq<DiffOp>>>,
    at: int,
    j: int,
    line: int,
)
    requires
        0 <= at < files.len(),
        mapping_at(diffs, at) is Some,
        0 <= j < files[at].entries.len(),
        mapped_lines(files[at].entries[j], mapping_at(diffs, at)->0).contains(line),
    ensures
        exists|source: u32| #[trigger]
            carries(
                files,
                diffs,
                at,
                source,
                files[at].file_path,
                files[at].entries[j].hash,
                line,
            ),
{
    let mapping = mapping_at(diffs, at)->0;
    let entry = files[at].entries[j];
    let source = choose|source: u32| #[trigger]
        mapping.contains_key(source) && mapping[source] == line && lines_of(
            entry.line_ranges,
        ).contains(source as int);
    assert(files[at].entries[j].hash == entry.hash);
    assert(entries_attested(files[at].entries, entry.hash).contains(source as int));
    assert(carries(files, diffs, at, source, files[at].file_path, entry.hash, line));
}

/// Where everything that a source commit carries over is covered, recovering from it changes
/// nothing.
proof fn lemma_recovery_changes_nothing(
    target: LogView,
    source: LogView,
    diffs: Seq<Option<Seq<DiffOp>>>,
)
    requires
        covers_carried(target.files, source.files, diffs),
    ensures
        merged_log(target, recovered_log(target, source, diffs)) == target,
{
    lemma_nothing_recovered(target.files, source.files, diffs);
    lemma_merging_nothing(target, source.metadata);
}

/// Recovering from the same source commit a second time changes nothing.
pub proof fn law_second_recovery_changes_nothing(
    target: LogView,
    source: LogView,
    diffs: Seq<Option<Seq<DiffOp>>>,
)
    ensures
        ({
            let after = merged_log(target, recovered_log(target, source, diffs));
            merged_log(after, recovered_log(after, source, diffs)) == after
        }),
{
    let after = merged_log(target, recovered_log(target, source, diffs));
    assert forall|at: int, from: u32, path: Seq<char>, hash: Seq<char>, line: int| #[trigger]
        carries(source.files, diffs, at, from, path, hash, line) implies covered_lines(
        after.files,
        path,
    ).contains(line) by {
        law_recovery_covers_carried_lines(
            target,
            source,
            diffs,
            at,
            from,
            path,
            hash,
            line,
        );
    }
    lemma_recovery_changes_nothing(after, source, diffs);
}

/// Recovering from more source commits keeps what is covered.
proof fn lemma_coverage_grows(
    base: LogView,
    sources: Seq<SourceCommit>,
    count: int,
    path: Seq<char>,
    line: int,
)
    requires
        0 <= count <= sources.len(),
        covered_lines(with_recovered(base, sources.take(count)).files, path).contains(line),
    ensures
        covered_lines(with_recovered(base, sources).files, path).contains(line),
    decreases sources.len() - count,
{
    if count < sources.len() {
        let longer = sources.take(count + 1);
        assert(longer.drop_last() =~= sources.take(count));
        assert(longer.last() == sources[count]);
        let before = with_recovered(base, sources.take(count));
        if let Some(log) = sources[count].log {
            law_merge_joins_coverage(
                before.files,
                recovered_files(before.files, log@.files, diff_views(sources[count].diffs@)),
                path,
            );
        }
        lemma_coverage_grows(base, sources, count + 1, path, line);
    } else {
        assert(sources.take(count) =~= sources);
    }
}

/// Whether a target covers every line that any of the source commits carries over.
spec fn covers_sources(target: Seq<FileView>, sources: Seq<SourceCommit>) -> bool {
    forall|k: int|
        0 <= k < sources.len() && (#[trigger] sources[k]).log is Some ==> covers_carried(
            target,
            sources[k].log->0@.files,
            diff_views(sources[k].diffs@),
        )
}

proof fn lemma_recoveries_change_nothing(target: LogView, sources: Seq<SourceCommit>)
    requires
        covers_sources(target.files, sources),
    ensures
        with_recovered(target, sources) == target,
    decreases sources.len(),
{
    if sources.len() > 0 {
        let rest = sources.drop_last();
        assert forall|k: int|
            0 <= k < rest.len() && (#[trigger] rest[k]).log is Some implies covers_carried(
            target.files,
            rest[k].log->0@.files,
            diff_views(rest[k].diffs@),
        ) by {
            assert(rest[k] == sources[k]);
        }
        lemma_recoveries_change_nothing(target, rest);
        let last = sources[sources.len() - 1];
        if let Some(log) = last.log {
            lemma_recovery_changes_nothing(target, log@, diff_views(last.diffs@));
        }
    }
}

proof fn lemma_recovered_covers_sources(base: LogView, sources: Seq<SourceCommit>)
    ensures
        covers_sources(with_recovered(base, sources).files, sources),
{
    let carried = with_recovered(base, sources).files;
    assert forall|k: int|
        0 <= k < sources.len() && (#[trigger] sources[k]).log is Some implies covers_carried(
        carried,
        sources[k].log->0@.files,
        diff_views(sources[k].diffs@),
    ) by {
        let log = sources[k].log->0@;
        let diffs = diff_views(sources[k].diffs@);
        let longer = sources.take(k + 1);
        assert(longer.drop_last() =~= sources.take(k));
        assert(longer.last() == sources[k]);
        let before = with_recovered(base, sources.take(k));
        assert forall|at: int, from: u32, path: Seq<char>, hash: Seq<char>, line: int| #[trigger]
            carries(log.files, diffs, at, from, path, hash, line) implies covered_lines(
            carried,
            path,
        ).contains(line) by {
            law_recovery_covers_carried_lines(before, log, diffs, at, from, path, hash, line);
            lemma_coverage_grows(base, sources, k + 1, path, line);
        }
    }
}

/// A line that a source commit carries over is covered once all are recovered from.
pub proof fn lemma_recovered_covers_source(
    base: LogView,
    sources: Seq<SourceCommit>,
    k: int,
    at: int,
    from: u32,
    path: Seq<char>,
    hash: Seq<char>,
    line: int,
)
    requires
        0 <= k < sources.len(),
        sources[k].log is Some,
        carries(
            sources[k].log->0@.files,
            diff_views(sources[k].diffs@),
            at,
            from,
            path,
            hash,
            line,
        ),
    ensures
        covered_lines(with_recovered(base, sources).files, path).contains(line),
{
    lemma_recovered_covers_sources(base, sources);
    assert(sources[k].log is Some);
}

/// Where everything in the entries is covered, none of them is kept.
proof fn lemma_no_entry_uncovered(entries: Seq<EntryView>, covered: Set<int>)
    requires
        entries_lines(entries).subset_of(covered),
    ensures
        uncovered_entries(entries, covered) == Seq::<EntryView>::empty(),
    decreases entries.len(),
{
    reveal(Seq::filter);
    let mapped = entries.map_values(uncovering_entry(covered));
    if entries.len() > 0 {
        let rest = entries.drop_last();
        let last = entries[entries.len() - 1];
        assert forall|line: int| entries_lines(rest).contains(line) implies covered.contains(
            line,
        ) by {
            let j = choose|j: int|
                0 <= j < rest.len() && lines_of((#[trigger] rest[j]).line_ranges).contains(line);
            assert(lines_of(entries[j].line_ranges).contains(line));
            assert(entries_lines(entries).contains(line));
        }
        lemma_no_entry_uncovered(rest, covered);
        assert(mapped.drop_last() =~= rest.map_values(uncovering_entry(covered)));
        let left = lines_of(last.line_ranges).difference(covered);
        assert forall|line: int| !left.contains(line) by {
            if lines_of(last.line_ranges).contains(line) {
                assert(lines_of(entries[entries.len() - 1].line_ranges).contains(line));
                assert(entries_lines(entries).contains(line));
            }
        }
        assert(left =~= Set::<int>::empty());
        lemma_canonical_exists(left);
        lemma_canonical_empty(canonical_ranges(left));
        assert(mapped.last() == uncovered_entry(last, covered));
    } else {
        assert(mapped =~= Seq::empty());
    }
}

/// Where everything in the files is covered, none of them is kept.
proof fn lemma_nothing_uncovered(files: Seq<FileView>, covering: Seq<FileView>)
    requires
        forall|path: Seq<char>| #[trigger]
            covered_lines(files, path).subset_of(covered_lines(covering, path)),
    ensures
        uncovered_files(files, covering) == Seq::<FileView>::empty(),
    decreases files.len(),
{
    reveal(Seq::filter);
    let mapped = files.map_values(uncovering_file(covering));
    if files.len() > 0 {
        let rest = files.drop_last();
        let last = files[files.len() - 1];
        assert forall|path: Seq<char>| #[trigger]
            covered_lines(rest, path).subset_of(covered_lines(covering, path)) by {
            assert forall|line: int| covered_lines(rest, path).contains(
                line,
            ) implies covered_lines(covering, path).contains(line) by {
                let i = choose|i: int|
                    0 <= i < rest.len() && (#[trigger] rest[i]).file_path == path
                        && entries_lines(rest[i].entries).contains(line);
                assert(files[i] == rest[i]);
                assert(covered_lines(files, path).contains(line));
                assert(covered_lines(files, path).subset_of(covered_lines(covering, path)));
            }
        }
        lemma_nothing_uncovered(rest, covering);
        assert(mapped.drop_last() =~= rest.map_values(uncovering_file(covering)));
        let path = last.file_path;
        assert forall|line: int| entries_lines(last.entries).contains(
            line,
        ) implies covered_lines(covering, path).contains(line) by {
            assert(files[files.len() - 1].file_path == path);
            assert(covered_lines(files, path).contains(line));
            assert(covered_lines(files, path).subset_of(covered_lines(covering, path)));
        }
        lemma_no_entry_uncovered(last.entries, covered_lines(covering, path));
        assert(mapped.last() == uncovered_file(last, covering));
    } else {
        assert(mapped =~= Seq::empty());
    }
}

/// Merging the authorship of the same commit a second time, on top of the result, changes nothing.
pub proof fn law_second_resolution_changes_nothing(
    shifted: LogView,
    resolution: LogView,
    sources: Seq<SourceCommit>,
    commit_sha: Seq<char>,
)
    ensures
        ({
            let resolved = resolved_log(shifted, resolution, sources, commit_sha);
            resolved_log(resolved, resolution, sources, commit_sha) == resolved
        }),
{
    let resolved = resolved_log(shifted, resolution, sources, commit_sha);
    let carried = with_recovered(shifted, sources);
    lemma_recovered_covers_sources(shifted, sources);
    assert forall|k: int|
        0 <= k < sources.len() && (#[trigger] sources[k]).log is Some implies covers_carried(
        resolved.files,
        sources[k].log->0@.files,
        diff_views(sources[k].diffs@),
    ) by {
        let log = sources[k].log->0@;
        let diffs = diff_views(sources[k].diffs@);
        assert(covers_carried(carried.files, log.files, diffs));
        assert forall|at: int, from: u32, path: Seq<char>, hash: Seq<char>, line: int| #[trigger]
            carries(log.files, diffs, at, from, path, hash, line) implies covered_lines(
            resolved.files,
            path,
        ).contains(line) by {
            law_resolution_covers_all(shifted, resolution, sources, commit_sha, path);
        }
    }
    lemma_recoveries_change_nothing(resolved, sources);
    assert forall|path: Seq<char>| #[trigger]
        covered_lines(resolution.files, path).subset_of(covered_lines(resolved.files, path)) by {
        law_resolution_covers_all(shifted, resolution, sources, commit_sha, path);
    }
    lemma_nothing_uncovered(resolution.files, resolved.files);
    lemma_merging_nothing(resolved, resolution.metadata);
    assert(uncovered_log(resolution, resolved.files) == (LogView {
        files: Seq::empty(),
        metadata: referenced_metadata(resolution.metadata, Seq::empty()),
    }));
}

/// Whether the entry at position `j` of the file at position `at` carries a line of a path over.
pub open spec fn carrier(
    files: Seq<FileView>,
    diffs: Seq<Option<Seq<DiffOp>>>,
    at: int,
    j: int,
    path: Seq<char>,
    line: int,
) -> bool {
    &&& 0 <= at < files.len()
    &&& files[at].file_path == path
    &&& mapping_at(diffs, at) is Some
    &&& 0 <= j < files[at].entries.len()
    &&& mapped_lines(files[at].entries[j], mapping_at(diffs, at)->0).contains(line)
}

/// Whether that entry is the first that carries the line over.
pub open spec fn first_carrier(
    files: Seq<FileView>,
    diffs: Seq<Option<Seq<DiffOp>>>,
    at: int,
    j: int,
    path: Seq<char>,
    line: int,
) -> bool {
    &&& carrier(files, diffs, at, j, path, line)
    &&& forall|earlier: int, i: int| #[trigger]
        carrier(files, diffs, earlier, i, path, line) ==> at < earlier || (at == earlier && j
            <= i)
}

/// A line that no entry carries over is not recovered.
proof fn lemma_uncarried_entries(
    target: Seq<FileView>,
    recovered: Seq<FileView>,
    path: Seq<char>,
    entries: Seq<EntryView>,
    mapping: Map<u32, u32>,
    line: int,
)
    requires
        forall|j: int|
            0 <= j < entries.len() ==> !mapped_lines(#[trigger] entries[j], mapping).contains(
                line,
            ),
    ensures
        covered_lines(
            recovered_entries(target, recovered, path, entries, mapping),
            path,
        ).contains(line) ==> covered_lines(recovered, path).contains(line),
    decreases entries.len(),
{
    if entries.len() > 0 {
        let rest = entries.drop_last();
        assert forall|j: int| 0 <= j < rest.len() implies !mapped_lines(
            #[trigger] rest[j],
            mapping,
        ).contains(line) by {
            assert(rest[j] == entries[j]);
        }
        lemma_uncarried_entries(target, recovered, path, rest, mapping, line);
        let before = recovered_entries(target, recovered, path, rest, mapping);
        let last = entries[entries.len() - 1];
        lemma_recovered_entry(target, before, path, last, mapping, path, last.hash);
        assert(!mapped_lines(last, mapping).contains(line));
    }
}

/// The first entry of a file that carries a line over gets it.
proof fn lemma_first_entry_gets_line(
    target: Seq<FileView>,
    recovered: Seq<FileView>,
    path: Seq<char>,
    entries: Seq<EntryView>,
    mapping: Map<u32, u32>,
    j: int,
    line: int,
)
    requires
        !covered_lines(target, path).contains(line),
        !covered_lines(recovered, path).contains(line),
        0 <= j < entries.len(),
        mapped_lines(entries[j], mapping).contains(line),
        forall|i: int|
            0 <= i < j ==> !mapped_lines(#[trigger] entries[i], mapping).contains(line),
    ensures
        attested(
            recovered_entries(target, recovered, path, entries, mapping),
            path,
            entries[j].hash,
        ).contains(line),
    decreases entries.len(),
{
    let rest = entries.drop_last();
    let last = entries.len() - 1;
    let before = recovered_entries(target, recovered, path, rest, mapping);
    assert forall|i: int| 0 <= i < rest.len() implies rest[i] == #[trigger] entries[i] by {}
    if j < last {
        lemma_first_entry_gets_line(target, recovered, path, rest, mapping, j, line);
    } else {
        lemma_uncarried_entries(target, recovered, path, rest, mapping, line);
    }
    lemma_recovered_entry(target, before, path, entries.last(), mapping, path, entries[j].hash);
}

/// The entries of a file take no line from what was recovered before.
proof fn lemma_entries_keep_recovered(
    target: Seq<FileView>,
    recovered: Seq<FileView>,
    path: Seq<char>,
    entries: Seq<EntryView>,
    mapping: Map<u32, u32>,
    other: Seq<char>,
    hash: Seq<char>,
    line: int,
)
    requires
        attested(recovered, other, hash).contains(line),
    ensures
        attested(
            recovered_entries(target, recovered, path, entries, mapping),
            other,
            hash,
        ).contains(line),
    decreases entries.len(),
{
    if entries.len() > 0 {
        let rest = entries.drop_last();
        lemma_entries_keep_recovered(
            target,
            recovered,
            path,
            rest,
            mapping,
            other,
            hash,
            line,
        );
        lemma_recovered_entry(
            target,
            recovered_entries(target, recovered, path, rest, mapping),
            path,
            entries.last(),
            mapping,
            other,
            hash,
        );
    }
}

proof fn lemma_first_carrier_gets_line(
    target: Seq<FileView>,
    files: Seq<FileView>,
    diffs: Seq<Option<Seq<DiffOp>>>,
    at: int,
    j: int,
    path: Seq<char>,
    line: int,
)
    requires
        !covered_lines(target, path).contains(line),
        first_carrier(files, diffs, at, j, path, line),
    ensures
        attested(recovered_files(target, files, diffs), path, files[at].entries[j].hash).contains(
            line,
        ),
    decreases files.len(),
{
    let rest = files.drop_last();
    let last = files.len() - 1;
    let before = recovered_files(target, rest, diffs);
    let file = files[last];
    let hash = files[at].entries[j].hash;
    assert forall|i: int| 0 <= i < rest.len() implies rest[i] == #[trigger] files[i] by {}
    if at < last {
        assert forall|earlier: int, i: int| #[trigger]
            carrier(rest, diffs, earlier, i, path, line) implies at < earlier || (at == earlier
            && j <= i) by {
            assert(carrier(files, diffs, earlier, i, path, line));
        }
        assert(carrier(rest, diffs, at, j, path, line));
        lemma_first_carrier_gets_line(target, rest, diffs, at, j, path, line);
        if let Some(mapping) = mapping_at(diffs, last) {
            lemma_entries_keep_recovered(
                target,
                before,
                file.file_path,
                file.entries,
                mapping,
                path,
                hash,
                line,
            );
        }
    } else {
        assert(!covered_lines(before, path).contains(line)) by {
            if covered_lines(before, path).contains(line) {
                law_covered_is_attested(before, path, line);
                lemma_recovered_files(target, rest, diffs, path, line);
                let some = choose|some: Seq<char>| #[trigger]
                    attested(before, path, some).contains(line);
                let (earlier, source) = choose|earlier: int, source: u32|
                    carries(rest, diffs, earlier, source, path, some, line);
                lemma_carried_has_carrier(rest, diffs, earlier, source, path, some, line);
                let i = choose|i: int| #[trigger] carrier(rest, diffs, earlier, i, path, line);
                assert(carrier(files, diffs, earlier, i, path, line));
            }
        }
        let mapping = mapping_at(diffs, last)->0;
        assert forall|i: int| 0 <= i < j implies !mapped_lines(
            #[trigger] file.entries[i],
            mapping,
        ).contains(line) by {
            if mapped_lines(file.entries[i], mapping).contains(line) {
                assert(carrier(files, diffs, last, i, path, line));
            }
        }
        lemma_first_entry_gets_line(target, before, path, file.entries, mapping, j, line);
    }
}

/// A line that is carried over has an entry that carries it.
proof fn lemma_carried_has_carrier(
    files: Seq<FileView>,
    diffs: Seq<Option<Seq<DiffOp>>>,
    at: int,
    source: u32,
    path: Seq<char>,
    hash: Seq<char>,
    line: int,
)
    requires
        carries(files, diffs, at, source, path, hash, line),
    ensures
        exists|j: int| #[trigger] carrier(files, diffs, at, j, path, line),
{
    let entries = files[at].entries;
    let j = choose|j: int|
        0 <= j < entries.len() && (#[trigger] entries[j]).hash == hash && lines_of(
            entries[j].line_ranges,
        ).contains(source as int);
    assert(mapping_at(diffs, at)->0.contains_key(source));
    assert(mapped_lines(entries[j], mapping_at(diffs, at)->0).contains(line));
    assert(carrier(files, diffs, at, j, path, line));
}

/// A line that was not covered goes to the hash of the first entry that carries it over, and to no
/// other.
pub proof fn law_recovery_prefers_first_entry(
    target: LogView,
    source: LogView,
    diffs: Seq<Option<Seq<DiffOp>>>,
    at: int,
    j: int,
    path: Seq<char>,
    hash: Seq<char>,
    line: int,
)
    requires
        !covered_lines(target.files, path).contains(line),
        first_carrier(source.files, diffs, at, j, path, line),
    ensures
        attested(
            merged_log(target, recovered_log(target, source, diffs)).files,
            path,
            hash,
        ).contains(line) <==> hash == source.files[at].entries[j].hash,
{
    let recovered = recovered_files(target.files, source.files, diffs);
    let first = source.files[at].entries[j].hash;
    law_merge_joins_attestations(target.files, recovered, path, hash);
    law_covered_is_attested(target.files, path, line);
    lemma_first_carrier_gets_line(target.files, source.files, diffs, at, j, path, line);
    lemma_recovered_files(target.files, source.files, diffs, path, line);
    assert(!attested(target.files, path, hash).contains(line));
    assert(one_author(recovered, path, line));
    assert(attested(recovered, path, first).contains(line));
}

/// Whether no entry of a source commit carries a line of a path over.
pub open spec fn carries_nothing(source: SourceCommit, path: Seq<char>, line: int) -> bool {
    source.log is Some ==> forall|at: int, j: int|
        !#[trigger] carrier(source.log->0@.files, diff_views(source.diffs@), at, j, path, line)
}

/// A line that no source commit carries over stays uncovered.
proof fn lemma_uncarried_stays_uncovered(
    base: LogView,
    sources: Seq<SourceCommit>,
    path: Seq<char>,
    line: int,
)
    requires
        !covered_lines(base.files, path).contains(line),
        forall|k: int|
            0 <= k < sources.len() ==> carries_nothing(#[trigger] sources[k], path, line),
    ensures
        !covered_lines(with_recovered(base, sources).files, path).contains(line),
    decreases sources.len(),
{
    if sources.len() > 0 {
        let rest = sources.drop_last();
        let last = sources[sources.len() - 1];
        assert forall|k: int| 0 <= k < rest.len() implies carries_nothing(
            #[trigger] rest[k],
            path,
            line,
        ) by {
            assert(rest[k] == sources[k]);
        }
        lemma_uncarried_stays_uncovered(base, rest, path, line);
        assert(carries_nothing(last, path, line));
        if let Some(log) = last.log {
            let before = with_recovered(base, rest);
            let after = with_recovered(base, sources);
            let diffs = diff_views(last.diffs@);
            if covered_lines(after.files, path).contains(line) {
                law_covered_is_attested(after.files, path, line);
                law_covered_is_attested(before.files, path, line);
                let hash = choose|hash: Seq<char>| #[trigger]
                    attested(after.files, path, hash).contains(line);
                law_recovery_adds_carried_lines(before, log@, diffs, path, hash, line);
                assert(!attested(before.files, path, hash).contains(line));
                let (at, from) = choose|at: int, from: u32|
                    carries(log@.files, diffs, at, from, path, hash, line);
                lemma_carried_has_carrier(log@.files, diffs, at, from, path, hash, line);
            }
        }
    }
}

proof fn lemma_earliest_source_gets_line(
    shifted: LogView,
    sources: Seq<SourceCommit>,
    k: int,
    at: int,
    j: int,
    path: Seq<char>,
    hash: Seq<char>,
    line: int,
)
    requires
        !covered_lines(shifted.files, path).contains(line),
        0 <= k < sources.len(),
        sources[k].log is Some,
        first_carrier(
            sources[k].log->0@.files,
            diff_views(sources[k].diffs@),
            at,
            j,
            path,
            line,
        ),
        forall|earlier: int|
            0 <= earlier < k ==> carries_nothing(#[trigger] sources[earlier], path, line),
    ensures
        covered_lines(with_recovered(shifted, sources).files, path).contains(line),
        attested(with_recovered(shifted, sources).files, path, hash).contains(line) <==> hash
            == sources[k].log->0@.files[at].entries[j].hash,
    decreases sources.len(),
{
    let rest = sources.drop_last();
    let last = sources.len() - 1;
    let before = with_recovered(shifted, rest);
    let after = with_recovered(shifted, sources);
    let first = sources[k].log->0@.files[at].entries[j].hash;
    assert forall|i: int| 0 <= i < rest.len() implies rest[i] == #[trigger] sources[i] by {}
    if k < last {
        lemma_earliest_source_gets_line(shifted, rest, k, at, j, path, hash, line);
        if let Some(log) = sources[last].log {
            let diffs = diff_views(sources[last].diffs@);
            law_recovery_adds_carried_lines(before, log@, diffs, path, hash, line);
            law_merge_joins_coverage(
                before.files,
                recovered_files(before.files, log@.files, diffs),
                path,
            );
        }
    } else {
        lemma_uncarried_stays_uncovered(shifted, rest, path, line);
        let log = sources[last].log->0@;
        let diffs = diff_views(sources[last].diffs@);
        law_recovery_prefers_first_entry(before, log, diffs, at, j, path, hash, line);
        law_recovery_prefers_first_entry(before, log, diffs, at, j, path, first, line);
        law_covered_is_attested(after.files, path, line);
        assert(attested(after.files, path, first).contains(line));
    }
}

/// A line that the shifted log does not cover goes to the first entry of the earliest source
/// commit that carries it over, and to no other; the resolution does not change that.
pub proof fn law_earliest_source_gets_line(
    shifted: LogView,
    resolution: LogView,
    sources: Seq<SourceCommit>,
    commit_sha: Seq<char>,
    k: int,
    at: int,
    j: int,
    path: Seq<char>,
    hash: Seq<char>,
    line: int,
)
    requires
        !covered_lines(shifted.files, path).contains(line),
        0 <= k < sources.len(),
        sources[k].log is Some,
        first_carrier(
            sources[k].log->0@.files,
            diff_views(sources[k].diffs@),
            at,
            j,
            path,
            line,
        ),
        forall|earlier: int|
            0 <= earlier < k ==> carries_nothing(#[trigger] sources[earlier], path, line),
    ensures
        attested(with_recovered(shifted, sources).files, path, hash).contains(line) <==> hash
            == sources[k].log->0@.files[at].entries[j].hash,
        attested(
            resolved_log(shifted, resolution, sources, commit_sha).files,
            path,
            hash,
        ).contains(line) <==> hash == sources[k].log->0@.files[at].entries[j].hash,
{
    lemma_earliest_source_gets_line(shifted, sources, k, at, j, path, hash, line);
    law_resolution_adds_uncovered_lines(shifted, resolution, sources, commit_sha, path, hash);
}

} // verus!
