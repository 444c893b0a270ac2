//! Which records stand behind the attestations of a log, and what merging leaves as it was.

use crate::authorship::attestation_laws::{
    attested, carries, entries_attested, law_covered_is_attested, law_merge_joins_attestations,
    law_resolution_covers_all, lemma_first_entry, lemma_recovered_files, lemma_with_file, records,
};
use crate::authorship::authorship_log::{
    file_index, has_file, with_file, EntryView, FileView, LogView, MetadataView,
};
use crate::authorship::conflict_resolution::{
    diff_views, entry_kept, file_kept, mapped_lines, mapping_at, missing_lines, recovered_entries,
    recovered_entry, recovered_files, recovered_log, resolved_log, uncovered_files,
    uncovering_entry, uncovering_file, with_recovered, SourceCommit,
};
use crate::authorship::line_coverage::covered_lines;
use crate::authorship::line_mapping::DiffOp;
use crate::authorship::line_range::{canonical_ranges, lemma_canonical_exists, lines_of};
use crate::authorship::log_merge::{
    has_entry, merged_entries, merged_files, merged_log, merged_metadata,
};
use crate::authorship::metadata_references::{
    entry_keys, kind_of_key, metadata_key, referenced_keys, referenced_metadata, RecordKind,
};
use crate::authorship::repetition_laws::lemma_recovered_covers_source;
use crate::selection::lemma_filter_positions;
use crate::text::{contains_text, first_occurs_at, occurs_at};
use vstd::prelude::*;

verus! {

/// Whether a hash names a record: the key is the hash up to the first `::`, or all of it, and its
/// beginning tells the kind, `h_` a human, `s_` a session and anything else a prompt.
pub open spec fn names_record(hash: Seq<char>, kind: RecordKind, key: Seq<char>) -> bool {
    &&& (key == hash && !contains_text(hash, seq![':', ':'])) || first_occurs_at(
        hash,
        seq![':', ':'],
        key.len() as int,
    ) && key == hash.take(key.len() as int)
    &&& match kind {
        RecordKind::Human => key.len() >= 2 && key[0] == 'h' && key[1] == '_',
        RecordKind::Session => key.len() >= 2 && key[0] == 's' && key[1] == '_',
        RecordKind::Prompt => !(key.len() >= 2 && (key[0] == 'h' || key[0] == 's') && key[1]
            == '_'),
    }
}

proof fn lemma_first_place(text: Seq<char>, part: Seq<char>, some: int)
    requires
        occurs_at(text, part, some),
    ensures
        exists|at: int| first_occurs_at(text, part, at),
    decreases some,
{
    if exists|earlier: int| 0 <= earlier < some && occurs_at(text, part, earlier) {
        let earlier = choose|earlier: int|
            0 <= earlier < some && occurs_at(text, part, earlier);
        lemma_first_place(text, part, earlier);
    } else {
        assert(first_occurs_at(text, part, some));
    }
}

/// A hash names one record: the kind and the key that its text up to the first `::` tell.
pub proof fn law_hash_names_its_key(hash: Seq<char>, kind: RecordKind, key: Seq<char>)
    ensures
        names_record(hash, kind, key) <==> metadata_key(hash) == key
            && kind_of_key(key) == kind,
{
    reveal_strlit("::");
    let colons = seq![':', ':'];
    assert("::"@ =~= colons);
    if contains_text(hash, colons) {
        let some = choose|some: int| occurs_at(hash, colons, some);
        lemma_first_place(hash, colons, some);
        let at = choose|at: int| first_occurs_at(hash, colons, at);
        assert(metadata_key(hash) == hash.take(at));
        if first_occurs_at(hash, colons, key.len() as int) {
            assert(at == key.len());
        }
        assert(hash.take(at).len() == at);
    } else {
        if first_occurs_at(hash, colons, key.len() as int) {
            assert(occurs_at(hash, colons, key.len() as int));
        }
    }
}

/// Whether some entry of some file names a record.
pub open spec fn is_named(files: Seq<FileView>, kind: RecordKind, key: Seq<char>) -> bool {
    exists|i: int, j: int|
        0 <= i < files.len() && 0 <= j < files[i].entries.len() && names_record(
            (#[trigger] files[i].entries[j]).hash,
            kind,
            key,
        )
}

proof fn lemma_named_is_referenced(files: Seq<FileView>, kind: RecordKind, key: Seq<char>)
    ensures
        referenced_keys(files, kind).contains(key) <==> is_named(files, kind, key),
{
    if referenced_keys(files, kind).contains(key) {
        let i = choose|i: int|
            0 <= i < files.len() && entry_keys((#[trigger] files[i]).entries, kind).contains(key);
        let entries = files[i].entries;
        let j = choose|j: int|
            0 <= j < entries.len() && metadata_key((#[trigger] entries[j]).hash) == key;
        law_hash_names_its_key(entries[j].hash, kind, key);
        assert(names_record(files[i].entries[j].hash, kind, key));
    }
    if is_named(files, kind, key) {
        let (i, j) = choose|i: int, j: int|
            0 <= i < files.len() && 0 <= j < files[i].entries.len() && names_record(
                (#[trigger] files[i].entries[j]).hash,
                kind,
                key,
            );
        law_hash_names_its_key(files[i].entries[j].hash, kind, key);
        assert(metadata_key(files[i].entries[j].hash) == key);
        assert(entry_keys(files[i].entries, kind).contains(key));
    }
}

/// Of each kind exactly the records stay that some entry names, as they were.
pub proof fn law_named_records_stay(
    metadata: MetadataView,
    files: Seq<FileView>,
    kind: RecordKind,
    key: Seq<char>,
)
    ensures
        ({
            let kept = referenced_metadata(metadata, files);
            &&& records(kept, kind).contains_key(key) <==> records(metadata, kind).contains_key(key)
                && is_named(files, kind, key)
            &&& records(kept, kind).contains_key(key) ==> records(kept, kind)[key] == records(
                metadata,
                kind,
            )[key]
            &&& kept.base_commit_sha == metadata.base_commit_sha
        }),
{
    lemma_named_is_referenced(files, kind, key);
}

/// Merging records keeps every record of the target, and adds those of the source under keys that
/// the target does not hold, whatever their kind.
pub proof fn law_merge_adds_missing_records(
    target: MetadataView,
    source: MetadataView,
    kind: RecordKind,
    key: Seq<char>,
)
    ensures
        ({
            let merged = records(merged_metadata(target, source), kind);
            let kept = records(target, kind);
            let offered = records(source, kind);
            &&& kept.contains_key(key) ==> merged.contains_pair(key, kept[key])
            &&& !kept.contains_key(key) && offered.contains_key(key) ==> merged.contains_pair(
                key,
                offered[key],
            )
            &&& !kept.contains_key(key) && !offered.contains_key(key) ==> !merged.contains_key(key)
            &&& merged_metadata(target, source).base_commit_sha == target.base_commit_sha
        }),
{
}

spec fn holds_line(entry: EntryView) -> bool {
    exists|line: int| #[trigger] lines_of(entry.line_ranges).contains(line)
}

/// Whether every entry of the files holds a line.
spec fn all_hold_lines(files: Seq<FileView>) -> bool {
    forall|i: int, j: int|
        0 <= i < files.len() && 0 <= j < files[i].entries.len() ==> holds_line(
            #[trigger] files[i].entries[j],
        )
}

proof fn lemma_recovered_entry_holds(
    target: Seq<FileView>,
    recovered: Seq<FileView>,
    path: Seq<char>,
    entry: EntryView,
    mapping: Map<u32, u32>,
)
    requires
        all_hold_lines(recovered),
    ensures
        all_hold_lines(recovered_entry(target, recovered, path, entry, mapping)),
{
    let missing = missing_lines(target, recovered, path, entry, mapping);
    if missing != Set::<int>::empty() {
        let after = recovered_entry(target, recovered, path, entry, mapping);
        let added = EntryView { hash: entry.hash, line_ranges: canonical_ranges(missing) };
        assert forall|line: int| #[trigger] missing.contains(line) implies 0 <= line <= u32::MAX by {
            assert(mapped_lines(entry, mapping).contains(line));
        }
        lemma_canonical_exists(missing);
        assert(exists|line: int| missing.contains(line)) by {
            if forall|line: int| !missing.contains(line) {
                assert(missing =~= Set::<int>::empty());
            }
        }
        let some = choose|line: int| missing.contains(line);
        let present = with_file(recovered, path);
        lemma_with_file(recovered, path, path, Seq::empty());
        let at = file_index(present, path);
        assert forall|i: int, j: int|
            0 <= i < after.len() && 0 <= j < after[i].entries.len() implies holds_line(
            #[trigger] after[i].entries[j],
        ) by {
            if i == at && j == present[at].entries.len() {
                assert(after[i].entries[j] == added);
                assert(lines_of(added.line_ranges).contains(some));
            } else {
                assert(after[i].entries[j] == present[i].entries[j]);
                if i < recovered.len() {
                    assert(present[i] == recovered[i]);
                    assert(holds_line(recovered[i].entries[j]));
                }
            }
        }
    }
}

proof fn lemma_recovered_entries_hold(
    target: Seq<FileView>,
    recovered: Seq<FileView>,
    path: Seq<char>,
    entries: Seq<EntryView>,
    mapping: Map<u32, u32>,
)
    requires
        all_hold_lines(recovered),
    ensures
        all_hold_lines(recovered_entries(target, recovered, path, entries, mapping)),
    decreases entries.len(),
{
    if entries.len() > 0 {
        let rest = entries.drop_last();
        lemma_recovered_entries_hold(target, recovered, path, rest, mapping);
        lemma_recovered_entry_holds(
            target,
            recovered_entries(target, recovered, path, rest, mapping),
            path,
            entries.last(),
            mapping,
        );
    }
}

proof fn lemma_recovered_files_hold(
    target: Seq<FileView>,
    files: Seq<FileView>,
    diffs: Seq<Option<Seq<DiffOp>>>,
)
    ensures
        all_hold_lines(recovered_files(target, files, diffs)),
    decreases files.len(),
{
    if files.len() > 0 {
        let rest = files.drop_last();
        lemma_recovered_files_hold(target, rest, diffs);
        if let Some(mapping) = mapping_at(diffs, files.len() - 1) {
            lemma_recovered_entries_hold(
                target,
                recovered_files(target, rest, diffs),
                files.last().file_path,
                files.last().entries,
                mapping,
            );
        }
    }
}

/// Whether an attestation that was not there before names a record: of some line that was not
/// covered.
pub open spec fn is_newly_named(
    before: Seq<FileView>,
    after: Seq<FileView>,
    kind: RecordKind,
    key: Seq<char>,
) -> bool {
    exists|path: Seq<char>, hash: Seq<char>, line: int|
        #[trigger] attested(after, path, hash).contains(line) && !covered_lines(
            before,
            path,
        ).contains(line) && names_record(hash, kind, key)
}

proof fn lemma_recovered_is_newly_named(
    target: LogView,
    source: LogView,
    diffs: Seq<Option<Seq<DiffOp>>>,
    kind: RecordKind,
    key: Seq<char>,
)
    ensures
        is_named(recovered_files(target.files, source.files, diffs), kind, key)
            <==> is_newly_named(
            target.files,
            merged_log(target, recovered_log(target, source, diffs)).files,
            kind,
            key,
        ),
{
    let recovered = recovered_files(target.files, source.files, diffs);
    let after = merged_files(target.files, recovered);
    lemma_recovered_files_hold(target.files, source.files, diffs);
    if is_named(recovered, kind, key) {
        let (i, j) = choose|i: int, j: int|
            0 <= i < recovered.len() && 0 <= j < recovered[i].entries.len() && names_record(
                (#[trigger] recovered[i].entries[j]).hash,
                kind,
                key,
            );
        let entry = recovered[i].entries[j];
        let path = recovered[i].file_path;
        assert(holds_line(recovered[i].entries[j]));
        let line = choose|line: int| #[trigger] lines_of(entry.line_ranges).contains(line);
        let entries = recovered[i].entries;
        assert(entries[j].hash == entry.hash);
        assert(entries_attested(recovered[i].entries, entry.hash).contains(line));
        assert(attested(recovered, path, entry.hash).contains(line));
        law_merge_joins_attestations(target.files, recovered, path, entry.hash);
        law_covered_is_attested(recovered, path, line);
        lemma_recovered_files(target.files, source.files, diffs, path, line);
        assert(attested(after, path, entry.hash).contains(line));
    }
    if is_newly_named(target.files, after, kind, key) {
        let (path, hash, line) = choose|path: Seq<char>, hash: Seq<char>, line: int|
            #[trigger] attested(after, path, hash).contains(line) && !covered_lines(
                target.files,
                path,
            ).contains(line) && names_record(hash, kind, key);
        law_merge_joins_attestations(target.files, recovered, path, hash);
        law_covered_is_attested(target.files, path, line);
        assert(!attested(target.files, path, hash).contains(line));
        let i = choose|i: int|
            0 <= i < recovered.len() && (#[trigger] recovered[i]).file_path == path
                && entries_attested(recovered[i].entries, hash).contains(line);
        let entries = recovered[i].entries;
        let j = choose|j: int|
            0 <= j < entries.len() && (#[trigger] entries[j]).hash == hash && lines_of(
                entries[j].line_ranges,
            ).contains(line);
        assert(names_record(recovered[i].entries[j].hash, kind, key));
    }
}

/// Recovering from a source commit brings its records along. Whatever the kind: a record of the
/// target stays; under a key that the target does not hold there is a record afterwards exactly
/// when the source commit holds one and an attestation that was carried over names it, and then
/// it is the record of the source commit.
pub proof fn law_recovery_brings_records(
    target: LogView,
    source: LogView,
    diffs: Seq<Option<Seq<DiffOp>>>,
    kind: RecordKind,
    key: Seq<char>,
)
    ensures
        ({
            let after = merged_log(target, recovered_log(target, source, diffs));
            let kept = records(target.metadata, kind);
            let offered = records(source.metadata, kind);
            let held = records(after.metadata, kind);
            &&& kept.contains_key(key) ==> held.contains_pair(key, kept[key])
            &&& !kept.contains_key(key) ==> (held.contains_key(key) <==> offered.contains_key(key)
                && is_newly_named(target.files, after.files, kind, key))
            &&& !kept.contains_key(key) && held.contains_key(key) ==> held[key] == offered[key]
            &&& after.metadata.base_commit_sha == target.metadata.base_commit_sha
        }),
{
    let recovered = recovered_files(target.files, source.files, diffs);
    lemma_recovered_is_newly_named(target, source, diffs, kind, key);
    law_named_records_stay(source.metadata, recovered, kind, key);
    law_merge_adds_missing_records(
        target.metadata,
        recovered_log(target, source, diffs).metadata,
        kind,
        key,
    );
}

/// Records stay while more source commits follow, and in the commit's log.
proof fn lemma_records_stay(
    shifted: LogView,
    resolution: LogView,
    sources: Seq<SourceCommit>,
    commit_sha: Seq<char>,
    count: int,
    kind: RecordKind,
    key: Seq<char>,
)
    requires
        0 <= count <= sources.len(),
        records(with_recovered(shifted, sources.take(count)).metadata, kind).contains_key(key),
    ensures
        records(
            resolved_log(shifted, resolution, sources, commit_sha).metadata,
            kind,
        ).contains_pair(
            key,
            records(with_recovered(shifted, sources.take(count)).metadata, kind)[key],
        ),
    decreases sources.len() - count,
{
    if count < sources.len() {
        let longer = sources.take(count + 1);
        let before = with_recovered(shifted, sources.take(count));
        assert(longer.drop_last() =~= sources.take(count));
        assert(longer.last() == sources[count]);
        if let Some(log) = sources[count].log {
            law_recovery_brings_records(
                before,
                log@,
                diff_views(sources[count].diffs@),
                kind,
                key,
            );
        }
        lemma_records_stay(shifted, resolution, sources, commit_sha, count + 1, kind, key);
    } else {
        assert(sources.take(count) =~= sources);
    }
}

/// Every record of a source commit that an attestation carried over from it names, be it a prompt,
/// a human or a session, is in the commit's log: as the source commit holds it, unless a record
/// under its key was there before.
pub proof fn law_records_of_sources_are_kept(
    shifted: LogView,
    resolution: LogView,
    sources: Seq<SourceCommit>,
    commit_sha: Seq<char>,
    k: int,
    kind: RecordKind,
    key: Seq<char>,
)
    requires
        0 <= k < sources.len(),
        sources[k].log is Some,
        records(sources[k].log->0@.metadata, kind).contains_key(key),
        is_newly_named(
            with_recovered(shifted, sources.take(k)).files,
            with_recovered(shifted, sources.take(k + 1)).files,
            kind,
            key,
        ),
    ensures
        ({
            let before = records(with_recovered(shifted, sources.take(k)).metadata, kind);
            let resolved = records(
                resolved_log(shifted, resolution, sources, commit_sha).metadata,
                kind,
            );
            &&& resolved.contains_key(key)
            &&& before.contains_key(key) ==> resolved[key] == before[key]
            &&& !before.contains_key(key) ==> resolved[key] == records(
                sources[k].log->0@.metadata,
                kind,
            )[key]
        }),
{
    let longer = sources.take(k + 1);
    let before = with_recovered(shifted, sources.take(k));
    assert(longer.drop_last() =~= sources.take(k));
    assert(longer.last() == sources[k]);
    law_recovery_brings_records(
        before,
        sources[k].log->0@,
        diff_views(sources[k].diffs@),
        kind,
        key,
    );
    lemma_records_stay(shifted, resolution, sources, commit_sha, k + 1, kind, key);
}

/// Merging keeps the files of the target in their places, with their entries in their places, and
/// leaves an entry as it was whose hash no file of the source with its path names.
pub proof fn law_merge_keeps_places(target: Seq<FileView>, source: Seq<FileView>, i: int, j: int)
    requires
        0 <= i < target.len(),
        0 <= j < target[i].entries.len(),
    ensures
        ({
            let merged = merged_files(target, source);
            &&& merged.len() >= target.len()
            &&& merged[i].file_path == target[i].file_path
            &&& merged[i].entries.len() >= target[i].entries.len()
            &&& merged[i].entries[j].hash == target[i].entries[j].hash
            &&& (forall|k: int, l: int|
                0 <= k < source.len() && source[k].file_path == target[i].file_path && 0 <= l
                    < source[k].entries.len() ==> (#[trigger] source[k].entries[l]).hash
                    != target[i].entries[j].hash) ==> merged[i].entries[j] == target[i].entries[j]
        }),
    decreases source.len(),
{
    if source.len() > 0 {
        let rest = source.drop_last();
        let last = source[source.len() - 1];
        law_merge_keeps_places(target, rest, i, j);
        let before = merged_files(target, rest);
        let present = with_file(before, last.file_path);
        lemma_with_file(before, last.file_path, last.file_path, Seq::empty());
        let at = file_index(present, last.file_path);
        assert(present[i] == before[i]);
        if forall|k: int, l: int|
            0 <= k < source.len() && source[k].file_path == target[i].file_path && 0 <= l
                < source[k].entries.len() ==> (#[trigger] source[k].entries[l]).hash
                != target[i].entries[j].hash {
            assert forall|k: int, l: int|
                0 <= k < rest.len() && rest[k].file_path == target[i].file_path && 0 <= l
                    < rest[k].entries.len() implies (#[trigger] rest[k].entries[l]).hash
                != target[i].entries[j].hash by {
                assert(rest[k] == source[k]);
                assert(source[k].entries[l].hash != target[i].entries[j].hash);
            }
            assert(before[i].entries[j] == target[i].entries[j]);
            if at == i {
                assert forall|l: int| 0 <= l < last.entries.len() implies (
                #[trigger] last.entries[l]).hash != target[i].entries[j].hash by {
                    assert(source[source.len() - 1].entries[l].hash
                        != target[i].entries[j].hash);
                }
            }
        }
        if at == i {
            lemma_entries_keep_places(before[i].entries, last.entries, j);
        }
    }
}

proof fn lemma_entries_keep_places(entries: Seq<EntryView>, more: Seq<EntryView>, j: int)
    requires
        0 <= j < entries.len(),
    ensures
        ({
            let merged = merged_entries(entries, more);
            &&& merged.len() >= entries.len()
            &&& merged[j].hash == entries[j].hash
            &&& (forall|l: int|
                0 <= l < more.len() ==> (#[trigger] more[l]).hash != entries[j].hash)
                ==> merged[j] == entries[j]
        }),
    decreases more.len(),
{
    if more.len() > 0 {
        let rest = more.drop_last();
        let last = more[more.len() - 1];
        lemma_entries_keep_places(entries, rest, j);
        let before = merged_entries(entries, rest);
        if forall|l: int| 0 <= l < more.len() ==> (#[trigger] more[l]).hash != entries[j].hash {
            assert forall|l: int| 0 <= l < rest.len() implies (#[trigger] rest[l]).hash
                != entries[j].hash by {
                assert(rest[l] == more[l]);
            }
            assert(last.hash != entries[j].hash);
        }
        if has_entry(before, last.hash) {
            let some = choose|l: int|
                0 <= l < before.len() && (#[trigger] before[l]).hash == last.hash;
            lemma_first_entry(before, last.hash, some);
        }
    }
}

/// Every path of the source has a file after the merge.
pub proof fn law_merge_has_all_paths(target: Seq<FileView>, source: Seq<FileView>, path: Seq<char>)
    ensures
        has_file(merged_files(target, source), path) <==> has_file(target, path) || has_file(
            source,
            path,
        ),
    decreases source.len(),
{
    if source.len() > 0 {
        let rest = source.drop_last();
        let last = source[source.len() - 1];
        law_merge_has_all_paths(target, rest, path);
        let before = merged_files(target, rest);
        let after = merged_files(target, source);
        let present = with_file(before, last.file_path);
        lemma_with_file(before, last.file_path, last.file_path, Seq::empty());
        assert forall|i: int| 0 <= i < present.len() implies (#[trigger] present[i]).file_path
            == after[i].file_path by {}
        if has_file(before, path) {
            let i = choose|i: int| 0 <= i < before.len() && (#[trigger] before[i]).file_path == path;
            assert(present[i] == before[i]);
            assert(after[i].file_path == path);
        }
        if has_file(after, path) && path != last.file_path {
            let i = choose|i: int| 0 <= i < after.len() && (#[trigger] after[i]).file_path == path;
            assert(present[i].file_path == path);
            assert(before[i].file_path == path);
        }
        if path == last.file_path {
            let at = file_index(present, path);
            assert(after[at].file_path == path);
            assert(source[source.len() - 1].file_path == path);
        }
        if has_file(rest, path) {
            let i = choose|i: int| 0 <= i < rest.len() && (#[trigger] rest[i]).file_path == path;
            assert(source[i].file_path == path);
        }
        if has_file(source, path) && path != last.file_path {
            let i = choose|i: int| 0 <= i < source.len() && (#[trigger] source[i]).file_path == path;
            assert(rest[i].file_path == path);
        }
    }
}

/// Filtering leaves no file without an entry and no entry without a line.
pub proof fn law_filter_leaves_nothing_empty(files: Seq<FileView>, covering: Seq<FileView>, i: int)
    requires
        0 <= i < uncovered_files(files, covering).len(),
    ensures
        uncovered_files(files, covering)[i].entries.len() > 0,
        forall|j: int|
            0 <= j < uncovered_files(files, covering)[i].entries.len() ==> (
            #[trigger] uncovered_files(files, covering)[i].entries[j]).line_ranges.len() > 0,
{
    let mapped = files.map_values(uncovering_file(covering));
    let positions = lemma_filter_positions(mapped, file_kept());
    assert(positions.contains(positions[i]));
    let file = mapped[positions[i]];
    assert(uncovered_files(files, covering)[i] == file);
    let given = files[positions[i]];
    let covered = covered_lines(covering, given.file_path);
    let entries = given.entries.map_values(uncovering_entry(covered));
    let kept = lemma_filter_positions(entries, entry_kept());
    assert forall|j: int| 0 <= j < file.entries.len() implies (
    #[trigger] file.entries[j]).line_ranges.len() > 0 by {
        assert(kept.contains(kept[j]));
    }
}

/// Every line that a source commit carries over is covered in the commit's log.
pub proof fn law_source_lines_are_covered(
    shifted: LogView,
    resolution: LogView,
    sources: Seq<SourceCommit>,
    commit_sha: Seq<char>,
    k: int,
    at: int,
    from: u32,
    path: Seq<char>,
    hash: Seq<char>,
    line: int,
)
    requires
        0 <= k < sources.len(),
        sources[k].log is Some,
        carries(
            sources[k].log->0@.files,
            diff_views(sources[k].diffs@),
            at,
            from,
            path,
            hash,
            line,
        ),
    ensures
        covered_lines(
            resolved_log(shifted, resolution, sources, commit_sha).files,
            path,
        ).contains(line),
{
    lemma_recovered_covers_source(
        shifted,
        sources,
        k,
        at,
        from,
        path,
        hash,
        line,
    );
    law_resolution_covers_all(
        shifted,
        resolution,
        sources,
        commit_sha,
        path,
    );
}

} // verus!
