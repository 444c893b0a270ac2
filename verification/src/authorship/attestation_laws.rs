//! What merging, filtering and recovering do to the lines attested under each hash.

use crate::authorship::authorship_log::{
    file_at, file_index, has_file, with_file, EntryView, FileView, LogView, MetadataView,
};
use crate::authorship::conflict_resolution::{
    diff_views, entry_kept, file_kept, lemma_covered_with_entry, lemma_file_index, mapped_lines, mapping_at,
    missing_lines, recovered_entries, recovered_entry, recovered_files, recovered_log,
    resolved_log, uncovered_entries, uncovered_entry, uncovered_file, uncovered_files,
    uncovering_entry, uncovering_file, with_recovered, SourceCommit,
};
use crate::authorship::line_coverage::{covered_lines, entries_lines, lemma_entries_lines_push};
use crate::authorship::line_mapping::DiffOp;
use crate::authorship::line_range::{
    canonical, canonical_ranges, lemma_canonical_exists, lemma_lines_bounded, lines_of, LineRange,
};
use crate::authorship::log_merge::{
    entry_at, has_entry, merged_entries, merged_entry, merged_file, merged_files, merged_log,
};
use crate::authorship::metadata_references::{referenced_keys, RecordKind};
use vstd::prelude::*;

verus! {

/// The lines that entries attest under a hash.
pub open spec fn entries_attested(entries: Seq<EntryView>, hash: Seq<char>) -> Set<int> {
    Set::new(
        |line: int|
            exists|j: int|
                0 <= j < entries.len() && (#[trigger] entries[j]).hash == hash && lines_of(
                    entries[j].line_ranges,
                ).contains(line),
    )
}

/// The lines of a path that files attest under a hash.
pub open spec fn attested(files: Seq<FileView>, path: Seq<char>, hash: Seq<char>) -> Set<int> {
    Set::new(
        |line: int|
            exists|i: int|
                0 <= i < files.len() && (#[trigger] files[i]).file_path == path
                    && entries_attested(files[i].entries, hash).contains(line),
    )
}

/// A line is covered exactly when it is attested under some hash.
pub proof fn law_covered_is_attested(files: Seq<FileView>, path: Seq<char>, line: int)
    ensures
        covered_lines(files, path).contains(line) <==> exists|hash: Seq<char>| #[trigger]
            attested(files, path, hash).contains(line),
{
    if covered_lines(files, path).contains(line) {
        let i = choose|i: int|
            0 <= i < files.len() && (#[trigger] files[i]).file_path == path && entries_lines(
                files[i].entries,
            ).contains(line);
        let entries = files[i].entries;
        let j = choose|j: int|
            0 <= j < entries.len() && lines_of((#[trigger] entries[j]).line_ranges).contains(line);
        assert(entries_attested(files[i].entries, entries[j].hash).contains(line));
        assert(attested(files, path, entries[j].hash).contains(line));
    }
    if exists|hash: Seq<char>| #[trigger] attested(files, path, hash).contains(line) {
        let hash = choose|hash: Seq<char>| #[trigger] attested(files, path, hash).contains(line);
        let i = choose|i: int|
            0 <= i < files.len() && (#[trigger] files[i]).file_path == path && entries_attested(
                files[i].entries,
                hash,
            ).contains(line);
        let entries = files[i].entries;
        let j = choose|j: int|
            0 <= j < entries.len() && (#[trigger] entries[j]).hash == hash && lines_of(
                entries[j].line_ranges,
            ).contains(line);
        assert(lines_of(entries[j].line_ranges).contains(line));
        assert(entries_lines(files[i].entries).contains(line));
    }
}

proof fn lemma_attested_push(entries: Seq<EntryView>, entry: EntryView, hash: Seq<char>)
    ensures
        entries_attested(entries.push(entry), hash) == if entry.hash == hash {
            entries_attested(entries, hash).union(lines_of(entry.line_ranges))
        } else {
            entries_attested(entries, hash)
        },
{
    let longer = entries.push(entry);
    let expected = if entry.hash == hash {
        entries_attested(entries, hash).union(lines_of(entry.line_ranges))
    } else {
        entries_attested(entries, hash)
    };
    assert forall|line: int| entries_attested(longer, hash).contains(line) <==> expected.contains(
        line,
    ) by {
        if entries_attested(longer, hash).contains(line) {
            let j = choose|j: int|
                0 <= j < longer.len() && (#[trigger] longer[j]).hash == hash && lines_of(
                    longer[j].line_ranges,
                ).contains(line);
            if j < entries.len() {
                assert(entries[j] == longer[j]);
            }
        }
        if entries_attested(entries, hash).contains(line) {
            let j = choose|j: int|
                0 <= j < entries.len() && (#[trigger] entries[j]).hash == hash && lines_of(
                    entries[j].line_ranges,
                ).contains(line);
            assert(longer[j] == entries[j]);
        }
        assert(longer[entries.len() as int] == entry);
    }
    assert(entries_attested(longer, hash) =~= expected);
}

proof fn lemma_attested_entry_gains(
    entries: Seq<EntryView>,
    at: int,
    entry: EntryView,
    gained: Set<int>,
    hash: Seq<char>,
)
    requires
        0 <= at < entries.len(),
        entry.hash == entries[at].hash,
        lines_of(entry.line_ranges) == lines_of(entries[at].line_ranges).union(gained),
    ensures
        entries_attested(entries.update(at, entry), hash) == if entry.hash == hash {
            entries_attested(entries, hash).union(gained)
        } else {
            entries_attested(entries, hash)
        },
{
    let updated = entries.update(at, entry);
    let expected = if entry.hash == hash {
        entries_attested(entries, hash).union(gained)
    } else {
        entries_attested(entries, hash)
    };
    assert forall|line: int| entries_attested(updated, hash).contains(line) <==> expected.contains(
        line,
    ) by {
        if entries_attested(updated, hash).contains(line) {
            let j = choose|j: int|
                0 <= j < updated.len() && (#[trigger] updated[j]).hash == hash && lines_of(
                    updated[j].line_ranges,
                ).contains(line);
            assert(entries[j].hash == hash);
        }
        if entries_attested(entries, hash).contains(line) {
            let j = choose|j: int|
                0 <= j < entries.len() && (#[trigger] entries[j]).hash == hash && lines_of(
                    entries[j].line_ranges,
                ).contains(line);
            assert(updated[j].hash == hash);
        }
        assert(updated[at] == entry);
    }
    assert(entries_attested(updated, hash) =~= expected);
}

/// Where some entry has a hash, there is a first one.
pub proof fn lemma_first_entry(entries: Seq<EntryView>, hash: Seq<char>, some: int)
    requires
        0 <= some < entries.len(),
        entries[some].hash == hash,
    ensures
        exists|at: int| entry_at(entries, hash, at),
    decreases some,
{
    if exists|j: int| 0 <= j < some && (#[trigger] entries[j]).hash == hash {
        let j = choose|j: int| 0 <= j < some && (#[trigger] entries[j]).hash == hash;
        lemma_first_entry(entries, hash, j);
    } else {
        assert(entry_at(entries, hash, some));
    }
}

proof fn lemma_merged_entry(entries: Seq<EntryView>, entry: EntryView, hash: Seq<char>)
    ensures
        entries_attested(merged_entry(entries, entry), hash) == if entry.hash == hash {
            entries_attested(entries, hash).union(lines_of(entry.line_ranges))
        } else {
            entries_attested(entries, hash)
        },
{
    lemma_lines_bounded(entry.line_ranges);
    if has_entry(entries, entry.hash) {
        let some = choose|j: int|
            0 <= j < entries.len() && (#[trigger] entries[j]).hash == entry.hash;
        lemma_first_entry(entries, entry.hash, some);
        let at = choose|at: int| entry_at(entries, entry.hash, at);
        lemma_lines_bounded(entries[at].line_ranges);
        let lines = lines_of(entries[at].line_ranges).union(lines_of(entry.line_ranges));
        lemma_canonical_exists(lines);
        let joined = EntryView { hash: entry.hash, line_ranges: canonical_ranges(lines) };
        lemma_attested_entry_gains(entries, at, joined, lines_of(entry.line_ranges), hash);
    } else {
        lemma_canonical_exists(lines_of(entry.line_ranges));
        lemma_attested_push(
            entries,
            EntryView {
                hash: entry.hash,
                line_ranges: canonical_ranges(lines_of(entry.line_ranges)),
            },
            hash,
        );
    }
}

proof fn lemma_merged_entries(entries: Seq<EntryView>, more: Seq<EntryView>, hash: Seq<char>)
    ensures
        entries_attested(merged_entries(entries, more), hash) == entries_attested(
            entries,
            hash,
        ).union(entries_attested(more, hash)),
    decreases more.len(),
{
    if more.len() == 0 {
        assert(entries_attested(more, hash) =~= Set::empty());
        assert(entries_attested(entries, hash).union(entries_attested(more, hash))
            =~= entries_attested(entries, hash));
    } else {
        lemma_merged_entries(entries, more.drop_last(), hash);
        lemma_merged_entry(merged_entries(entries, more.drop_last()), more.last(), hash);
        lemma_attested_push(more.drop_last(), more.last(), hash);
        assert(more =~= more.drop_last().push(more.last()));
        assert(entries_attested(merged_entries(entries, more), hash) =~= entries_attested(
            entries,
            hash,
        ).union(entries_attested(more, hash)));
    }
}

proof fn lemma_attested_file_push(
    files: Seq<FileView>,
    file: FileView,
    path: Seq<char>,
    hash: Seq<char>,
)
    ensures
        attested(files.push(file), path, hash) == if file.file_path == path {
            attested(files, path, hash).union(entries_attested(file.entries, hash))
        } else {
            attested(files, path, hash)
        },
{
    let longer = files.push(file);
    let expected = if file.file_path == path {
        attested(files, path, hash).union(entries_attested(file.entries, hash))
    } else {
        attested(files, path, hash)
    };
    assert forall|line: int| attested(longer, path, hash).contains(line) <==> expected.contains(
        line,
    ) by {
        if attested(longer, path, hash).contains(line) {
            let i = choose|i: int|
                0 <= i < longer.len() && (#[trigger] longer[i]).file_path == path
                    && entries_attested(longer[i].entries, hash).contains(line);
            if i < files.len() {
                assert(files[i] == longer[i]);
            }
        }
        if attested(files, path, hash).contains(line) {
            let i = choose|i: int|
                0 <= i < files.len() && (#[trigger] files[i]).file_path == path
                    && entries_attested(files[i].entries, hash).contains(line);
            assert(longer[i] == files[i]);
        }
        assert(longer[files.len() as int] == file);
    }
    assert(attested(longer, path, hash) =~= expected);
}

proof fn lemma_attested_file_gains(
    files: Seq<FileView>,
    at: int,
    entries: Seq<EntryView>,
    gained: Set<int>,
    path: Seq<char>,
    hash: Seq<char>,
)
    requires
        0 <= at < files.len(),
        entries_attested(entries, hash) == entries_attested(files[at].entries, hash).union(gained),
    ensures
        attested(
            files.update(at, FileView { file_path: files[at].file_path, entries }),
            path,
            hash,
        ) == if files[at].file_path == path {
            attested(files, path, hash).union(gained)
        } else {
            attested(files, path, hash)
        },
{
    let updated = files.update(at, FileView { file_path: files[at].file_path, entries });
    let expected = if files[at].file_path == path {
        attested(files, path, hash).union(gained)
    } else {
        attested(files, path, hash)
    };
    assert forall|line: int| attested(updated, path, hash).contains(line) <==> expected.contains(
        line,
    ) by {
        if attested(updated, path, hash).contains(line) {
            let i = choose|i: int|
                0 <= i < updated.len() && (#[trigger] updated[i]).file_path == path
                    && entries_attested(updated[i].entries, hash).contains(line);
            assert(files[i].file_path == path);
        }
        if attested(files, path, hash).contains(line) {
            let i = choose|i: int|
                0 <= i < files.len() && (#[trigger] files[i]).file_path == path
                    && entries_attested(files[i].entries, hash).contains(line);
            assert(updated[i].file_path == path);
        }
        if files[at].file_path == path && gained.contains(line) {
            assert(updated[at].file_path == path);
        }
    }
    assert(attested(updated, path, hash) =~= expected);
}

/// Adding a file that attests nothing changes no attestation, and there is then a first file with
/// its path.
pub proof fn lemma_with_file(
    files: Seq<FileView>,
    path: Seq<char>,
    other: Seq<char>,
    hash: Seq<char>,
)
    ensures
        attested(with_file(files, path), other, hash) == attested(files, other, hash),
        file_at(with_file(files, path), path, file_index(with_file(files, path), path)),
{
    let present = with_file(files, path);
    if !has_file(files, path) {
        let file = FileView { file_path: path, entries: Seq::<EntryView>::empty() };
        lemma_attested_file_push(files, file, other, hash);
        assert(entries_attested(file.entries, hash) =~= Set::empty());
        assert(attested(files, other, hash).union(entries_attested(file.entries, hash))
            =~= attested(files, other, hash));
        assert(present[files.len() as int].file_path == path);
    }
    lemma_file_index(present, path);
}

proof fn lemma_merged_file(
    files: Seq<FileView>,
    file: FileView,
    path: Seq<char>,
    hash: Seq<char>,
)
    ensures
        attested(merged_file(files, file), path, hash) == if file.file_path == path {
            attested(files, path, hash).union(entries_attested(file.entries, hash))
        } else {
            attested(files, path, hash)
        },
{
    let present = with_file(files, file.file_path);
    lemma_with_file(files, file.file_path, path, hash);
    let at = file_index(present, file.file_path);
    lemma_merged_entries(present[at].entries, file.entries, hash);
    lemma_attested_file_gains(
        present,
        at,
        merged_entries(present[at].entries, file.entries),
        entries_attested(file.entries, hash),
        path,
        hash,
    );
}

/// Merging attestations keeps every line attested in either log under its hash, and adds none.
pub proof fn law_merge_joins_attestations(
    target: Seq<FileView>,
    source: Seq<FileView>,
    path: Seq<char>,
    hash: Seq<char>,
)
    ensures
        attested(merged_files(target, source), path, hash) == attested(target, path, hash).union(
            attested(source, path, hash),
        ),
    decreases source.len(),
{
    if source.len() == 0 {
        assert(attested(source, path, hash) =~= Set::empty());
        assert(attested(target, path, hash).union(attested(source, path, hash)) =~= attested(
            target,
            path,
            hash,
        ));
    } else {
        let rest = source.drop_last();
        law_merge_joins_attestations(target, rest, path, hash);
        lemma_merged_file(merged_files(target, rest), source.last(), path, hash);
        lemma_attested_file_push(rest, source.last(), path, hash);
        assert(source =~= rest.push(source.last()));
        assert(attested(merged_files(target, source), path, hash) =~= attested(
            target,
            path,
            hash,
        ).union(attested(source, path, hash)));
    }
}

/// Merging covers the lines that either log covers, and no others.
pub proof fn law_merge_joins_coverage(
    target: Seq<FileView>,
    source: Seq<FileView>,
    path: Seq<char>,
)
    ensures
        covered_lines(merged_files(target, source), path) == covered_lines(target, path).union(
            covered_lines(source, path),
        ),
{
    let merged = merged_files(target, source);
    let expected = covered_lines(target, path).union(covered_lines(source, path));
    assert forall|line: int| covered_lines(merged, path).contains(line) <==> expected.contains(
        line,
    ) by {
        law_covered_is_attested(merged, path, line);
        law_covered_is_attested(target, path, line);
        law_covered_is_attested(source, path, line);
        if covered_lines(merged, path).contains(line) {
            let hash = choose|hash: Seq<char>| #[trigger]
                attested(merged, path, hash).contains(line);
            law_merge_joins_attestations(target, source, path, hash);
            assert(attested(target, path, hash).contains(line) || attested(
                source,
                path,
                hash,
            ).contains(line));
        }
        if covered_lines(target, path).contains(line) {
            let hash = choose|hash: Seq<char>| #[trigger]
                attested(target, path, hash).contains(line);
            law_merge_joins_attestations(target, source, path, hash);
            assert(attested(merged, path, hash).contains(line));
        }
        if covered_lines(source, path).contains(line) {
            let hash = choose|hash: Seq<char>| #[trigger]
                attested(source, path, hash).contains(line);
            law_merge_joins_attestations(target, source, path, hash);
            assert(attested(merged, path, hash).contains(line));
        }
    }
    assert(covered_lines(merged, path) =~= expected);
}

proof fn lemma_uncovered_entries(entries: Seq<EntryView>, covered: Set<int>, hash: Seq<char>)
    ensures
        entries_attested(uncovered_entries(entries, covered), hash) == entries_attested(
            entries,
            hash,
        ).difference(covered),
    decreases entries.len(),
{
    reveal(Seq::filter);
    let uncover = uncovering_entry(covered);
    let mapped = entries.map_values(uncover);
    let expected = entries_attested(entries, hash).difference(covered);
    if entries.len() == 0 {
        assert(uncovered_entries(entries, covered) =~= Seq::empty());
        assert(entries_attested(uncovered_entries(entries, covered), hash) =~= expected);
    } else {
        let rest = entries.drop_last();
        let entry = entries.last();
        let left = lines_of(entry.line_ranges).difference(covered);
        lemma_uncovered_entries(rest, covered, hash);
        assert(mapped.drop_last() =~= rest.map_values(uncover));
        assert(mapped.last() == uncovered_entry(entry, covered));
        lemma_lines_bounded(entry.line_ranges);
        lemma_canonical_exists(left);
        lemma_attested_push(rest, entry, hash);
        assert(entries =~= rest.push(entry));
        lemma_attested_push(
            uncovered_entries(rest, covered),
            uncovered_entry(entry, covered),
            hash,
        );
        if !entry_kept()(uncovered_entry(entry, covered)) {
            assert(lines_of(canonical_ranges(left)) =~= Set::empty());
            assert(uncovered_entries(entries, covered) == uncovered_entries(rest, covered));
        } else {
            assert(uncovered_entries(entries, covered) == uncovered_entries(rest, covered).push(
                uncovered_entry(entry, covered),
            ));
        }
        let known = entries_attested(rest, hash);
        assert(known.difference(covered).union(left) =~= known.union(
            lines_of(entry.line_ranges),
        ).difference(covered));
        if left == Set::<int>::empty() {
            assert(known.difference(covered).union(left) =~= known.difference(covered));
        }
    }
}

/// Filtering takes from each hash exactly the lines that are covered elsewhere.
pub proof fn law_filter_keeps_uncovered(
    files: Seq<FileView>,
    covering: Seq<FileView>,
    path: Seq<char>,
    hash: Seq<char>,
)
    ensures
        attested(uncovered_files(files, covering), path, hash) == attested(
            files,
            path,
            hash,
        ).difference(covered_lines(covering, path)),
    decreases files.len(),
{
    reveal(Seq::filter);
    let uncover = uncovering_file(covering);
    let mapped = files.map_values(uncover);
    let expected = attested(files, path, hash).difference(covered_lines(covering, path));
    if files.len() == 0 {
        assert(uncovered_files(files, covering) =~= Seq::empty());
        assert(attested(uncovered_files(files, covering), path, hash) =~= expected);
    } else {
        let rest = files.drop_last();
        let file = files.last();
        law_filter_keeps_uncovered(rest, covering, path, hash);
        assert(mapped.drop_last() =~= rest.map_values(uncover));
        assert(mapped.last() == uncovered_file(file, covering));
        lemma_uncovered_entries(file.entries, covered_lines(covering, file.file_path), hash);
        lemma_attested_file_push(rest, file, path, hash);
        assert(files =~= rest.push(file));
        lemma_attested_file_push(
            uncovered_files(rest, covering),
            uncovered_file(file, covering),
            path,
            hash,
        );
        if !file_kept()(uncovered_file(file, covering)) {
            assert(entries_attested(uncovered_file(file, covering).entries, hash)
                =~= Set::empty());
            assert(uncovered_files(files, covering) == uncovered_files(rest, covering));
        } else {
            assert(uncovered_files(files, covering) == uncovered_files(rest, covering).push(
                uncovered_file(file, covering),
            ));
        }
        let known = attested(rest, path, hash);
        let covered = covered_lines(covering, path);
        let held = entries_attested(file.entries, hash);
        assert(known.difference(covered).union(held.difference(covered)) =~= known.union(
            held,
        ).difference(covered));
        if held.difference(covered) == Set::<int>::empty() {
            assert(known.difference(covered).union(held.difference(covered))
                =~= known.difference(covered));
        }
    }
}

/// What the resolution adds under a hash is exactly its lines that nothing carried over covers.
pub proof fn law_resolution_adds_uncovered_lines(
    shifted: LogView,
    resolution: LogView,
    sources: Seq<SourceCommit>,
    commit_sha: Seq<char>,
    path: Seq<char>,
    hash: Seq<char>,
)
    ensures
        attested(
            resolved_log(shifted, resolution, sources, commit_sha).files,
            path,
            hash,
        ) == attested(with_recovered(shifted, sources).files, path, hash).union(
            attested(resolution.files, path, hash).difference(
                covered_lines(with_recovered(shifted, sources).files, path),
            ),
        ),
{
    let carried = with_recovered(shifted, sources);
    law_merge_joins_attestations(
        carried.files,
        uncovered_files(resolution.files, carried.files),
        path,
        hash,
    );
    law_filter_keeps_uncovered(resolution.files, carried.files, path, hash);
}

/// The commit's log covers what was carried over and what the resolution covers, and no more.
pub proof fn law_resolution_covers_all(
    shifted: LogView,
    resolution: LogView,
    sources: Seq<SourceCommit>,
    commit_sha: Seq<char>,
    path: Seq<char>,
)
    ensures
        covered_lines(resolved_log(shifted, resolution, sources, commit_sha).files, path)
            == covered_lines(with_recovered(shifted, sources).files, path).union(
            covered_lines(resolution.files, path),
        ),
{
    let carried = with_recovered(shifted, sources).files;
    let uncovered = uncovered_files(resolution.files, carried);
    law_merge_joins_coverage(carried, uncovered, path);
    assert forall|line: int| covered_lines(uncovered, path).contains(line) <==> covered_lines(
        resolution.files,
        path,
    ).contains(line) && !covered_lines(carried, path).contains(line) by {
        law_covered_is_attested(uncovered, path, line);
        law_covered_is_attested(resolution.files, path, line);
        if covered_lines(uncovered, path).contains(line) {
            let hash = choose|hash: Seq<char>| #[trigger]
                attested(uncovered, path, hash).contains(line);
            law_filter_keeps_uncovered(resolution.files, carried, path, hash);
            assert(attested(resolution.files, path, hash).contains(line));
        }
        if covered_lines(resolution.files, path).contains(line) && !covered_lines(
            carried,
            path,
        ).contains(line) {
            let hash = choose|hash: Seq<char>| #[trigger]
                attested(resolution.files, path, hash).contains(line);
            law_filter_keeps_uncovered(resolution.files, carried, path, hash);
            assert(attested(uncovered, path, hash).contains(line));
        }
    }
    assert(covered_lines(resolved_log(shifted, resolution, sources, commit_sha).files, path)
        =~= covered_lines(carried, path).union(covered_lines(resolution.files, path)));
}

/// Whether at most one hash attests a line of a path.
pub open spec fn one_author(files: Seq<FileView>, path: Seq<char>, line: int) -> bool {
    forall|a: Seq<char>, b: Seq<char>|
        #[trigger] attested(files, path, a).contains(line) && #[trigger] attested(
            files,
            path,
            b,
        ).contains(line) ==> a == b
}

/// Whether the file at position `at` attests the line `source` of a path under a hash, and the
/// difference of that file moves it to `line`.
pub open spec fn carries(
    files: Seq<FileView>,
    diffs: Seq<Option<Seq<DiffOp>>>,
    at: int,
    source: u32,
    path: Seq<char>,
    hash: Seq<char>,
    line: int,
) -> bool {
    &&& 0 <= at < files.len()
    &&& files[at].file_path == path
    &&& mapping_at(diffs, at) is Some
    &&& mapping_at(diffs, at)->0.contains_key(source)
    &&& mapping_at(diffs, at)->0[source] == line
    &&& entries_attested(files[at].entries, hash).contains(source as int)
}

proof fn lemma_mapped_bounded(entry: EntryView, mapping: Map<u32, u32>)
    ensures
        forall|line: int| #[trigger]
            mapped_lines(entry, mapping).contains(line) ==> 0 <= line <= u32::MAX,
{
}

/// What one more entry adds: its missing lines, under its hash.
pub proof fn lemma_recovered_entry(
    target: Seq<FileView>,
    recovered: Seq<FileView>,
    path: Seq<char>,
    entry: EntryView,
    mapping: Map<u32, u32>,
    other: Seq<char>,
    hash: Seq<char>,
)
    ensures
        attested(recovered_entry(target, recovered, path, entry, mapping), other, hash)
            == if other == path && hash == entry.hash {
            attested(recovered, other, hash).union(
                missing_lines(target, recovered, path, entry, mapping),
            )
        } else {
            attested(recovered, other, hash)
        },
        covered_lines(recovered_entry(target, recovered, path, entry, mapping), other)
            == if other == path {
            covered_lines(recovered, other).union(
                missing_lines(target, recovered, path, entry, mapping),
            )
        } else {
            covered_lines(recovered, other)
        },
{
    let missing = missing_lines(target, recovered, path, entry, mapping);
    if missing == Set::<int>::empty() {
        assert(attested(recovered, other, hash).union(missing) =~= attested(
            recovered,
            other,
            hash,
        ));
        assert(covered_lines(recovered, other).union(missing) =~= covered_lines(recovered, other));
    } else {
        let added = EntryView { hash: entry.hash, line_ranges: canonical_ranges(missing) };
        lemma_mapped_bounded(entry, mapping);
        lemma_canonical_exists(missing);
        lemma_covered_with_entry(recovered, path, added, other);
        let present = with_file(recovered, path);
        lemma_with_file(recovered, path, other, hash);
        let at = file_index(present, path);
        let gained = if hash == entry.hash {
            missing
        } else {
            Set::<int>::empty()
        };
        lemma_attested_push(present[at].entries, added, hash);
        assert(entries_attested(present[at].entries.push(added), hash) =~= entries_attested(
            present[at].entries,
            hash,
        ).union(gained));
        lemma_attested_file_gains(
            present,
            at,
            present[at].entries.push(added),
            gained,
            other,
            hash,
        );
        assert(attested(recovered, other, hash).union(Set::<int>::empty()) =~= attested(
            recovered,
            other,
            hash,
        ));
    }
}

/// What the entries of one file add: nothing that was covered, each line under one hash, and every
/// line that the mapping reaches ends up covered.
proof fn lemma_recovered_entries(
    target: Seq<FileView>,
    recovered: Seq<FileView>,
    path: Seq<char>,
    entries: Seq<EntryView>,
    mapping: Map<u32, u32>,
    other: Seq<char>,
    line: int,
)
    requires
        one_author(recovered, other, line),
    ensures
        ({
            let after = recovered_entries(target, recovered, path, entries, mapping);
            &&& one_author(after, other, line)
            &&& covered_lines(recovered, other).contains(line) ==> covered_lines(
                after,
                other,
            ).contains(line)
            &&& covered_lines(after, other).contains(line) && !covered_lines(
                recovered,
                other,
            ).contains(line) ==> !covered_lines(target, other).contains(line)
            &&& forall|hash: Seq<char>| #[trigger]
                attested(after, other, hash).contains(line) && !attested(
                    recovered,
                    other,
                    hash,
                ).contains(line) ==> other == path && exists|source: u32| #[trigger]
                    mapping.contains_key(source) && mapping[source] == line && entries_attested(
                        entries,
                        hash,
                    ).contains(source as int)
            &&& forall|source: u32| #[trigger]
                mapping.contains_key(source) && mapping[source] == line && entries_lines(
                    entries,
                ).contains(source as int) && other == path ==> covered_lines(
                    target,
                    other,
                ).contains(line) || covered_lines(after, other).contains(line)
        }),
    decreases entries.len(),
{
    let after = recovered_entries(target, recovered, path, entries, mapping);
    if entries.len() == 0 {
        assert(entries_lines(entries) =~= Set::empty());
    } else {
        let rest = entries.drop_last();
        let entry = entries.last();
        let before = recovered_entries(target, recovered, path, rest, mapping);
        let missing = missing_lines(target, before, path, entry, mapping);
        lemma_recovered_entries(target, recovered, path, rest, mapping, other, line);
        assert(entries =~= rest.push(entry));
        lemma_entries_lines_push(rest, entry);
        law_covered_is_attested(before, other, line);
        law_covered_is_attested(after, other, line);
        law_covered_is_attested(recovered, other, line);
        lemma_recovered_entry(target, before, path, entry, mapping, other, entry.hash);
        assert forall|a: Seq<char>, b: Seq<char>|
            #[trigger] attested(after, other, a).contains(line) && #[trigger] attested(
                after,
                other,
                b,
            ).contains(line) implies a == b by {
            lemma_recovered_entry(target, before, path, entry, mapping, other, a);
            lemma_recovered_entry(target, before, path, entry, mapping, other, b);
            assert(attested(before, other, a).contains(line) ==> covered_lines(
                before,
                other,
            ).contains(line));
            assert(attested(before, other, b).contains(line) ==> covered_lines(
                before,
                other,
            ).contains(line));
        }
        assert forall|hash: Seq<char>| #[trigger] attested(after, other, hash).contains(line)
            && !attested(recovered, other, hash).contains(line) implies other == path && exists|
            source: u32,
        | #[trigger]
            mapping.contains_key(source) && mapping[source] == line && entries_attested(
                entries,
                hash,
            ).contains(source as int) by {
            lemma_recovered_entry(target, before, path, entry, mapping, other, hash);
            lemma_attested_push(rest, entry, hash);
            if attested(before, other, hash).contains(line) {
                let source = choose|source: u32| #[trigger]
                    mapping.contains_key(source) && mapping[source] == line && entries_attested(
                        rest,
                        hash,
                    ).contains(source as int);
                assert(mapping.contains_key(source));
            } else {
                assert(missing.contains(line));
                let source = choose|source: u32| #[trigger]
                    mapping.contains_key(source) && mapping[source] == line && lines_of(
                        entry.line_ranges,
                    ).contains(source as int);
                assert(mapping.contains_key(source));
            }
        }
        assert forall|source: u32| #[trigger]
            mapping.contains_key(source) && mapping[source] == line && entries_lines(
                entries,
            ).contains(source as int) && other == path implies covered_lines(
            target,
            other,
        ).contains(line) || covered_lines(after, other).contains(line) by {
            if lines_of(entry.line_ranges).contains(source as int) {
                assert(mapped_lines(entry, mapping).contains(line));
            }
        }
    }
}

/// What all files add: nothing that was covered, each line under one hash of an entry that carries
/// it over, and every carried line ends up covered.
pub proof fn lemma_recovered_files(
    target: Seq<FileView>,
    files: Seq<FileView>,
    diffs: Seq<Option<Seq<DiffOp>>>,
    path: Seq<char>,
    line: int,
)
    ensures
        ({
            let after = recovered_files(target, files, diffs);
            &&& one_author(after, path, line)
            &&& covered_lines(after, path).contains(line) ==> !covered_lines(target, path).contains(
                line,
            )
            &&& forall|hash: Seq<char>| #[trigger]
                attested(after, path, hash).contains(line) ==> exists|at: int, source: u32|
                    carries(files, diffs, at, source, path, hash, line)
            &&& forall|at: int, source: u32, hash: Seq<char>| #[trigger]
                carries(files, diffs, at, source, path, hash, line) ==> covered_lines(
                    target,
                    path,
                ).contains(line) || covered_lines(after, path).contains(line)
        }),
    decreases files.len(),
{
    let after = recovered_files(target, files, diffs);
    if files.len() == 0 {
        assert(covered_lines(after, path) =~= Set::empty());
        assert forall|hash: Seq<char>| !(#[trigger] attested(after, path, hash).contains(line)) by {
        }
    } else {
        let rest = files.drop_last();
        let file = files.last();
        let last = files.len() - 1;
        let before = recovered_files(target, rest, diffs);
        lemma_recovered_files(target, rest, diffs, path, line);
        assert forall|at: int, source: u32, hash: Seq<char>|
            0 <= at < last implies (#[trigger] carries(
            files,
            diffs,
            at,
            source,
            path,
            hash,
            line,
        ) <==> carries(rest, diffs, at, source, path, hash, line)) by {
            assert(rest[at] == files[at]);
        }
        match mapping_at(diffs, last) {
            Some(mapping) => {
                lemma_recovered_entries(
                    target,
                    before,
                    file.file_path,
                    file.entries,
                    mapping,
                    path,
                    line,
                );
                assert forall|hash: Seq<char>| #[trigger]
                    attested(after, path, hash).contains(line) implies exists|
                    at: int,
                    source: u32,
                | carries(files, diffs, at, source, path, hash, line) by {
                    if attested(before, path, hash).contains(line) {
                        let (at, source) = choose|at: int, source: u32|
                            carries(rest, diffs, at, source, path, hash, line);
                        assert(carries(files, diffs, at, source, path, hash, line));
                    } else {
                        let source = choose|source: u32| #[trigger]
                            mapping.contains_key(source) && mapping[source] == line
                                && entries_attested(file.entries, hash).contains(source as int);
                        assert(carries(files, diffs, last, source, path, hash, line));
                    }
                }
                assert forall|at: int, source: u32, hash: Seq<char>| #[trigger]
                    carries(files, diffs, at, source, path, hash, line) implies covered_lines(
                    target,
                    path,
                ).contains(line) || covered_lines(after, path).contains(line) by {
                    if at < last {
                        assert(carries(rest, diffs, at, source, path, hash, line));
                    } else {
                        let entries = file.entries;
                        let j = choose|j: int|
                            0 <= j < entries.len() && (#[trigger] entries[j]).hash == hash
                                && lines_of(entries[j].line_ranges).contains(source as int);
                        assert(lines_of(entries[j].line_ranges).contains(source as int));
                        assert(entries_lines(entries).contains(source as int));
                        assert(mapping.contains_key(source));
                    }
                }
            },
            None => {
                assert forall|hash: Seq<char>| #[trigger]
                    attested(after, path, hash).contains(line) implies exists|
                    at: int,
                    source: u32,
                | carries(files, diffs, at, source, path, hash, line) by {
                    let (at, source) = choose|at: int, source: u32|
                        carries(rest, diffs, at, source, path, hash, line);
                    assert(carries(files, diffs, at, source, path, hash, line));
                }
                assert forall|at: int, source: u32, hash: Seq<char>| #[trigger]
                    carries(files, diffs, at, source, path, hash, line) implies covered_lines(
                    target,
                    path,
                ).contains(line) || covered_lines(after, path).contains(line) by {
                    assert(carries(rest, diffs, at, source, path, hash, line));
                }
            },
        }
    }
}

/// Recovering from a source commit keeps every attestation. A line that is newly attested was not
/// covered before, and the source commit attests it, under the same hash, at the place from which
/// the difference moves it.
pub proof fn law_recovery_adds_carried_lines(
    target: LogView,
    source: LogView,
    diffs: Seq<Option<Seq<DiffOp>>>,
    path: Seq<char>,
    hash: Seq<char>,
    line: int,
)
    ensures
        ({
            let after = merged_log(target, recovered_log(target, source, diffs));
            &&& attested(target.files, path, hash).contains(line) ==> attested(
                after.files,
                path,
                hash,
            ).contains(line)
            &&& attested(after.files, path, hash).contains(line) && !attested(
                target.files,
                path,
                hash,
            ).contains(line) ==> !covered_lines(target.files, path).contains(line) && exists|
                at: int,
                from: u32,
            | carries(source.files, diffs, at, from, path, hash, line)
        }),
{
    let recovered = recovered_files(target.files, source.files, diffs);
    law_merge_joins_attestations(target.files, recovered, path, hash);
    lemma_recovered_files(target.files, source.files, diffs, path, line);
    law_covered_is_attested(recovered, path, line);
}

/// Every line that a source commit attests and that the difference keeps is covered after the
/// recovery.
pub proof fn law_recovery_covers_carried_lines(
    target: LogView,
    source: LogView,
    diffs: Seq<Option<Seq<DiffOp>>>,
    at: int,
    from: u32,
    path: Seq<char>,
    hash: Seq<char>,
    line: int,
)
    requires
        carries(source.files, diffs, at, from, path, hash, line),
    ensures
        covered_lines(
            merged_log(target, recovered_log(target, source, diffs)).files,
            path,
        ).contains(line),
{
    let recovered = recovered_files(target.files, source.files, diffs);
    lemma_recovered_files(target.files, source.files, diffs, path, line);
    law_merge_joins_coverage(target.files, recovered, path);
}

/// A line that was not covered is recovered under one hash at most.
pub proof fn law_recovery_attests_once(
    target: LogView,
    source: LogView,
    diffs: Seq<Option<Seq<DiffOp>>>,
    path: Seq<char>,
    line: int,
)
    requires
        !covered_lines(target.files, path).contains(line),
    ensures
        one_author(merged_log(target, recovered_log(target, source, diffs)).files, path, line),
{
    let recovered = recovered_files(target.files, source.files, diffs);
    let after = merged_files(target.files, recovered);
    lemma_recovered_files(target.files, source.files, diffs, path, line);
    law_covered_is_attested(target.files, path, line);
    assert forall|a: Seq<char>, b: Seq<char>|
        #[trigger] attested(after, path, a).contains(line) && #[trigger] attested(
            after,
            path,
            b,
        ).contains(line) implies a == b by {
        law_merge_joins_attestations(target.files, recovered, path, a);
        law_merge_joins_attestations(target.files, recovered, path, b);
        assert(!attested(target.files, path, a).contains(line));
        assert(!attested(target.files, path, b).contains(line));
        assert(attested(recovered, path, a).contains(line));
        assert(attested(recovered, path, b).contains(line));
    }
}

/// Whatever the shifted log attests, the commit's log attests under the same hash.
pub proof fn law_shifted_attestations_kept(
    shifted: LogView,
    resolution: LogView,
    sources: Seq<SourceCommit>,
    commit_sha: Seq<char>,
    path: Seq<char>,
    hash: Seq<char>,
    line: int,
)
    requires
        attested(shifted.files, path, hash).contains(line),
    ensures
        attested(with_recovered(shifted, sources).files, path, hash).contains(line),
        attested(
            resolved_log(shifted, resolution, sources, commit_sha).files,
            path,
            hash,
        ).contains(line),
    decreases sources.len(),
{
    if sources.len() > 0 {
        let rest = sources.drop_last();
        law_shifted_attestations_kept(shifted, resolution, rest, commit_sha, path, hash, line);
        let before = with_recovered(shifted, rest);
        if let Some(log) = sources.last().log {
            law_recovery_adds_carried_lines(
                before,
                log@,
                diff_views(sources.last().diffs@),
                path,
                hash,
                line,
            );
        }
    }
    law_resolution_adds_uncovered_lines(shifted, resolution, sources, commit_sha, path, hash);
}

/// A line that the shifted log covers stays attested under the same hashes, and under no others:
/// neither a source commit nor the resolution attests it again.
pub proof fn law_shifted_lines_keep_hashes(
    shifted: LogView,
    resolution: LogView,
    sources: Seq<SourceCommit>,
    commit_sha: Seq<char>,
    path: Seq<char>,
    hash: Seq<char>,
    line: int,
)
    requires
        covered_lines(shifted.files, path).contains(line),
    ensures
        covered_lines(with_recovered(shifted, sources).files, path).contains(line),
        attested(with_recovered(shifted, sources).files, path, hash).contains(line) <==> attested(
            shifted.files,
            path,
            hash,
        ).contains(line),
        attested(
            resolved_log(shifted, resolution, sources, commit_sha).files,
            path,
            hash,
        ).contains(line) <==> attested(shifted.files, path, hash).contains(line),
    decreases sources.len(),
{
    if sources.len() > 0 {
        let rest = sources.drop_last();
        law_shifted_lines_keep_hashes(shifted, resolution, rest, commit_sha, path, hash, line);
        let before = with_recovered(shifted, rest);
        if let Some(log) = sources.last().log {
            let diffs = diff_views(sources.last().diffs@);
            law_recovery_adds_carried_lines(before, log@, diffs, path, hash, line);
            law_merge_joins_coverage(
                before.files,
                recovered_files(before.files, log@.files, diffs),
                path,
            );
        }
    }
    law_resolution_adds_uncovered_lines(shifted, resolution, sources, commit_sha, path, hash);
}

/// A line that was carried over from a source commit, and is not covered by the shifted log, is
/// attested under one hash, and the resolution adds none.
pub proof fn law_carried_lines_have_one_author(
    shifted: LogView,
    resolution: LogView,
    sources: Seq<SourceCommit>,
    commit_sha: Seq<char>,
    path: Seq<char>,
    line: int,
)
    requires
        !covered_lines(shifted.files, path).contains(line),
    ensures
        one_author(with_recovered(shifted, sources).files, path, line),
        covered_lines(with_recovered(shifted, sources).files, path).contains(line) ==> one_author(
            resolved_log(shifted, resolution, sources, commit_sha).files,
            path,
            line,
        ),
    decreases sources.len(),
{
    let carried = with_recovered(shifted, sources).files;
    if sources.len() > 0 {
        let rest = sources.drop_last();
        law_carried_lines_have_one_author(shifted, resolution, rest, commit_sha, path, line);
        let before = with_recovered(shifted, rest);
        if let Some(log) = sources.last().log {
            let diffs = diff_views(sources.last().diffs@);
            if covered_lines(before.files, path).contains(line) {
                assert forall|a: Seq<char>, b: Seq<char>|
                    #[trigger] attested(carried, path, a).contains(line) && #[trigger] attested(
                        carried,
                        path,
                        b,
                    ).contains(line) implies a == b by {
                    law_recovery_adds_carried_lines(before, log@, diffs, path, a, line);
                    law_recovery_adds_carried_lines(before, log@, diffs, path, b, line);
                    assert(attested(before.files, path, a).contains(line));
                    assert(attested(before.files, path, b).contains(line));
                }
            } else {
                law_recovery_attests_once(before, log@, diffs, path, line);
            }
        }
    } else {
        assert forall|a: Seq<char>| !#[trigger] attested(carried, path, a).contains(line) by {
            law_covered_is_attested(carried, path, line);
        }
    }
    if covered_lines(carried, path).contains(line) {
        let resolved = resolved_log(shifted, resolution, sources, commit_sha).files;
        assert forall|a: Seq<char>, b: Seq<char>|
            #[trigger] attested(resolved, path, a).contains(line) && #[trigger] attested(
                resolved,
                path,
                b,
            ).contains(line) implies a == b by {
            law_resolution_adds_uncovered_lines(shifted, resolution, sources, commit_sha, path, a);
            law_resolution_adds_uncovered_lines(shifted, resolution, sources, commit_sha, path, b);
            assert(attested(carried, path, a).contains(line));
            assert(attested(carried, path, b).contains(line));
        }
    }
}

/// The records of a kind.
pub open spec fn records(metadata: MetadataView, kind: RecordKind) -> Map<Seq<char>, Seq<char>> {
    match kind {
        RecordKind::Prompt => metadata.prompts,
        RecordKind::Human => metadata.humans,
        RecordKind::Session => metadata.sessions,
    }
}

/// A record of the shifted log is never replaced.
pub proof fn law_shifted_records_kept(
    shifted: LogView,
    resolution: LogView,
    sources: Seq<SourceCommit>,
    commit_sha: Seq<char>,
    kind: RecordKind,
    key: Seq<char>,
)
    requires
        records(shifted.metadata, kind).contains_key(key),
    ensures
        ({
            let carried = with_recovered(shifted, sources).metadata;
            let resolved = resolved_log(shifted, resolution, sources, commit_sha).metadata;
            let record = records(shifted.metadata, kind)[key];
            &&& records(carried, kind).contains_pair(key, record)
            &&& records(resolved, kind).contains_pair(key, record)
        }),
    decreases sources.len(),
{
    if sources.len() > 0 {
        let rest = sources.drop_last();
        law_shifted_records_kept(shifted, resolution, rest, commit_sha, kind, key);
    }
}

/// Of the resolution's records exactly those are added that an uncovered attestation of it refers
/// to and whose keys were free; the log names the commit.
pub proof fn law_resolution_adds_referenced_records(
    shifted: LogView,
    resolution: LogView,
    sources: Seq<SourceCommit>,
    commit_sha: Seq<char>,
    kind: RecordKind,
    key: Seq<char>,
)
    ensures
        ({
            let carried = with_recovered(shifted, sources);
            let resolved = resolved_log(shifted, resolution, sources, commit_sha).metadata;
            let uncovered = uncovered_files(resolution.files, carried.files);
            let offered = records(resolution.metadata, kind);
            &&& resolved.base_commit_sha == commit_sha
            &&& records(carried.metadata, kind).contains_key(key) ==> records(
                resolved,
                kind,
            ).contains_pair(key, records(carried.metadata, kind)[key])
            &&& !records(carried.metadata, kind).contains_key(key) ==> (records(
                resolved,
                kind,
            ).contains_key(key) <==> offered.contains_key(key) && referenced_keys(
                uncovered,
                kind,
            ).contains(key))
            &&& !records(carried.metadata, kind).contains_key(key) && records(
                resolved,
                kind,
            ).contains_key(key) ==> records(resolved, kind)[key] == offered[key]
        }),
{
}

/// Normalizing ranges a second time changes nothing.
pub proof fn law_normalizing_is_stable(ranges: Seq<LineRange>)
    ensures
        canonical(canonical_ranges(lines_of(ranges))),
        canonical_ranges(lines_of(canonical_ranges(lines_of(ranges)))) == canonical_ranges(
            lines_of(ranges),
        ),
{
    lemma_lines_bounded(ranges);
    lemma_canonical_exists(lines_of(ranges));
}

} // verus!
