//! Merging the authorship of a commit that resolves conflicts: attestations carried over from the
//! source commits, and those of the resolution itself.

use crate::authorship::authorship_log::{
    empty_log, entry_views, file_at, file_index, file_views, has_file, with_file, AttestationEntry,
    AuthorshipLog, AuthorshipMetadata, EntryView, FileAttestation, FileView, LogView, MetadataView,
};
use crate::authorship::line_coverage::{
    copy_ranges, covered_lines, entries_lines, expand_ranges, is_coverage, lemma_covered_push,
    lemma_entries_lines_push, line_coverage_by_file, ranges_of_lines, subtract_line_ranges,
};
use crate::authorship::line_mapping::{
    equal_line_mapping_between_commits, line_mapping, DiffOp,
};
use crate::authorship::line_range::{
    canonical_ranges, lemma_canonical_empty, lemma_canonical_ranges, lemma_expand_all_lists_lines,
    lemma_lines_of_add, lines_of, LineRange,
};
use crate::authorship::log_merge::{
    merge_authorship_metadata, merge_file_attestations, merged_log,
};
use crate::authorship::metadata_references::{referenced_metadata, retain_referenced_metadata};
use crate::text_map::TextMap;
use std::collections::HashMap;
use vstd::prelude::*;

verus! {

broadcast use vstd::std_specs::hash::group_hash_axioms;

/// An entry without the covered lines.
pub open spec fn uncovered_entry(entry: EntryView, covered: Set<int>) -> EntryView {
    EntryView {
        hash: entry.hash,
        line_ranges: canonical_ranges(lines_of(entry.line_ranges).difference(covered)),
    }
}

/// Whether an entry holds any range.
pub open spec fn entry_kept() -> spec_fn(EntryView) -> bool {
    |entry: EntryView| entry.line_ranges.len() > 0
}

/// Whether a file holds any entry.
pub open spec fn file_kept() -> spec_fn(FileView) -> bool {
    |file: FileView| file.entries.len() > 0
}

/// Taking the covered lines out of an entry.
pub open spec fn uncovering_entry(covered: Set<int>) -> spec_fn(EntryView) -> EntryView {
    |entry: EntryView| uncovered_entry(entry, covered)
}

/// Taking the lines that `covering` covers out of a file.
pub open spec fn uncovering_file(covering: Seq<FileView>) -> spec_fn(FileView) -> FileView {
    |file: FileView| uncovered_file(file, covering)
}

/// The entries without the covered lines; those left without a line are dropped.
pub open spec fn uncovered_entries(entries: Seq<EntryView>, covered: Set<int>) -> Seq<EntryView> {
    entries.map_values(uncovering_entry(covered)).filter(entry_kept())
}

/// A file without the lines that `covering` covers.
pub open spec fn uncovered_file(file: FileView, covering: Seq<FileView>) -> FileView {
    FileView {
        file_path: file.file_path,
        entries: uncovered_entries(file.entries, covered_lines(covering, file.file_path)),
    }
}

/// The files without the lines that `covering` covers; those left without an entry are dropped.
pub open spec fn uncovered_files(files: Seq<FileView>, covering: Seq<FileView>) -> Seq<FileView> {
    files.map_values(uncovering_file(covering)).filter(file_kept())
}

/// A log without the lines that `covering` covers, and without the records that it then no longer
/// refers to.
pub open spec fn uncovered_log(log: LogView, covering: Seq<FileView>) -> LogView {
    LogView {
        files: uncovered_files(log.files, covering),
        metadata: referenced_metadata(log.metadata, uncovered_files(log.files, covering)),
    }
}

/// Filtering one element more.
proof fn lemma_filter_next<A>(items: Seq<A>, keep: spec_fn(A) -> bool, at: int)
    requires
        0 <= at < items.len(),
    ensures
        items.take(at + 1).filter(keep) == if keep(items[at]) {
            items.take(at).filter(keep).push(items[at])
        } else {
            items.take(at).filter(keep)
        },
{
    let longer = items.take(at + 1);
    assert(longer.drop_last() =~= items.take(at));
    assert(longer.last() == items[at]);
    reveal(Seq::filter);
}

/// The entries of a file without the covered lines.
fn uncover_entries(entries: Vec<AttestationEntry>, covered: &Vec<LineRange>) -> (kept: Vec<
    AttestationEntry,
>)
    ensures
        entry_views(kept@) == uncovered_entries(entry_views(entries@), lines_of(covered@)),
{
    let ghost all = entries@;
    let ghost mapped = entry_views(all).map_values(uncovering_entry(lines_of(covered@)));
    let mut kept: Vec<AttestationEntry> = Vec::new();
    assert(entry_views(kept@) =~= mapped.take(0).filter(entry_kept())) by {
        assert(mapped.take(0) =~= Seq::empty());
        reveal(Seq::filter);
    }
    for entry in iter: entries
        invariant
            iter.seq() == all,
            mapped == entry_views(all).map_values(uncovering_entry(lines_of(covered@))),
            entry_views(kept@) == mapped.take(iter.index()).filter(entry_kept()),
    {
        let ghost at = iter.index();
        let ghost before = kept@;
        assert(entry == all[at]);
        assert(entry_views(all)[at] == entry@);
        let line_ranges = subtract_line_ranges(entry.line_ranges.as_slice(), covered.as_slice());
        proof {
            assert(mapped[at] =~= (EntryView { hash: entry.hash@, line_ranges: line_ranges@ }));
            lemma_filter_next(mapped, entry_kept(), at);
        }
        if line_ranges.len() > 0 {
            kept.push(AttestationEntry { hash: entry.hash, line_ranges });
            assert(entry_views(kept@) =~= entry_views(before).push(mapped[at]));
        }
    }
    assert(mapped.take(mapped.len() as int) =~= mapped);
    kept
}

/// Drops from a conflict resolution's log the lines that the shifted log already covers.
pub fn filter_resolution_log_to_uncovered_lines(
    resolution_log: AuthorshipLog,
    shifted_log: &AuthorshipLog,
) -> (filtered: AuthorshipLog)
    ensures
        filtered@ == uncovered_log(resolution_log@, shifted_log@.files),
{
    let ghost covering = shifted_log@.files;
    let shifted_coverage = line_coverage_by_file(shifted_log);
    let attestations: Vec<FileAttestation> = resolution_log.attestations;
    let metadata: AuthorshipMetadata = resolution_log.metadata;
    let ghost all = attestations@;
    let ghost mapped = file_views(all).map_values(uncovering_file(covering));
    let mut kept: Vec<FileAttestation> = Vec::new();
    assert(file_views(kept@) =~= mapped.take(0).filter(file_kept())) by {
        assert(mapped.take(0) =~= Seq::empty());
        reveal(Seq::filter);
    }
    for attestation in iter: attestations
        invariant
            iter.seq() == all,
            is_coverage(shifted_coverage@, covering),
            mapped == file_views(all).map_values(uncovering_file(covering)),
            file_views(kept@) == mapped.take(iter.index()).filter(file_kept()),
    {
        let ghost at = iter.index();
        let ghost before = kept@;
        assert(attestation == all[at]);
        assert(file_views(all)[at] == attestation@);
        let none: Vec<LineRange> = Vec::new();
        let covered: &Vec<LineRange> = match shifted_coverage.get(&attestation.file_path) {
            Some(ranges) => ranges,
            None => &none,
        };
        proof {
            let path = attestation.file_path@;
            if !shifted_coverage@.contains_key(path) {
                assert(lines_of(covered@) =~= Set::empty());
                assert(!has_file(covering, path));
                assert(covered_lines(covering, path) =~= Set::empty());
            }
            assert(lines_of(covered@) == covered_lines(covering, path));
        }
        let entries = uncover_entries(attestation.entries, covered);
        proof {
            assert(mapped[at] =~= (FileView {
                file_path: attestation.file_path@,
                entries: entry_views(entries@),
            }));
            lemma_filter_next(mapped, file_kept(), at);
        }
        if entries.len() > 0 {
            kept.push(FileAttestation { file_path: attestation.file_path, entries });
            assert(file_views(kept@) =~= file_views(before).push(mapped[at]));
        }
    }
    assert(mapped.take(mapped.len() as int) =~= mapped);
    let mut filtered = AuthorshipLog { attestations: kept, metadata };
    retain_referenced_metadata(&mut filtered);
    filtered
}

/// The lines at which the lines of an entry stand under a mapping.
pub open spec fn mapped_lines(entry: EntryView, mapping: Map<u32, u32>) -> Set<int> {
    Set::new(
        |line: int|
            exists|source: u32| #[trigger]
                mapping.contains_key(source) && mapping[source] == line && lines_of(
                    entry.line_ranges,
                ).contains(source as int),
    )
}

/// The files with one more entry for a path, at the end of the first file with that path.
pub open spec fn with_entry(
    files: Seq<FileView>,
    path: Seq<char>,
    entry: EntryView,
) -> Seq<FileView> {
    let present = with_file(files, path);
    let at = file_index(present, path);
    present.update(
        at,
        FileView { file_path: path, entries: present[at].entries.push(entry) },
    )
}

/// The lines of a mapped entry that neither `target` nor `recovered` covers.
pub open spec fn missing_lines(
    target: Seq<FileView>,
    recovered: Seq<FileView>,
    path: Seq<char>,
    entry: EntryView,
    mapping: Map<u32, u32>,
) -> Set<int> {
    mapped_lines(entry, mapping).difference(
        covered_lines(target, path).union(covered_lines(recovered, path)),
    )
}

/// What has been recovered after one more entry: its missing lines, under its hash.
pub open spec fn recovered_entry(
    target: Seq<FileView>,
    recovered: Seq<FileView>,
    path: Seq<char>,
    entry: EntryView,
    mapping: Map<u32, u32>,
) -> Seq<FileView> {
    let missing = missing_lines(target, recovered, path, entry, mapping);
    if missing == Set::<int>::empty() {
        recovered
    } else {
        with_entry(
            recovered,
            path,
            EntryView { hash: entry.hash, line_ranges: canonical_ranges(missing) },
        )
    }
}

/// What has been recovered after the entries of one path, one after the other.
pub open spec fn recovered_entries(
    target: Seq<FileView>,
    recovered: Seq<FileView>,
    path: Seq<char>,
    entries: Seq<EntryView>,
    mapping: Map<u32, u32>,
) -> Seq<FileView>
    decreases entries.len(),
{
    if entries.len() == 0 {
        recovered
    } else {
        recovered_entry(
            target,
            recovered_entries(target, recovered, path, entries.drop_last(), mapping),
            path,
            entries.last(),
            mapping,
        )
    }
}

/// The mapping of the lines of the file at a position, where its versions could be compared.
pub open spec fn mapping_at(diffs: Seq<Option<Seq<DiffOp>>>, at: int) -> Option<Map<u32, u32>> {
    if 0 <= at < diffs.len() {
        match diffs[at] {
            Some(ops) => Some(line_mapping(ops)),
            None => None,
        }
    } else {
        None
    }
}

/// The entries of the files that are recovered for `target`, file after file. A file whose
/// versions could not be compared is passed over.
pub open spec fn recovered_files(
    target: Seq<FileView>,
    files: Seq<FileView>,
    diffs: Seq<Option<Seq<DiffOp>>>,
) -> Seq<FileView>
    decreases files.len(),
{
    if files.len() == 0 {
        Seq::empty()
    } else {
        let before = recovered_files(target, files.drop_last(), diffs);
        match mapping_at(diffs, files.len() - 1) {
            Some(mapping) => recovered_entries(
                target,
                before,
                files.last().file_path,
                files.last().entries,
                mapping,
            ),
            None => before,
        }
    }
}

/// What is recovered for `target` from the log of a source commit, with the records it refers to.
pub open spec fn recovered_log(
    target: LogView,
    source: LogView,
    diffs: Seq<Option<Seq<DiffOp>>>,
) -> LogView {
    let files = recovered_files(target.files, source.files, diffs);
    LogView { files, metadata: referenced_metadata(source.metadata, files) }
}

/// The contents of the differences of the files of a log.
pub open spec fn diff_views(diffs: Seq<Option<Vec<DiffOp>>>) -> Seq<Option<Seq<DiffOp>>> {
    diffs.map_values(
        |diff: Option<Vec<DiffOp>>|
            match diff {
                Some(ops) => Some(ops@),
                None => None,
            },
    )
}

/// Whether the positions of all differences fit in the machine's numbers.
pub open spec fn diffs_fit(diffs: Seq<Option<Vec<DiffOp>>>) -> bool {
    forall|i: int, k: int|
        0 <= i < diffs.len() && diffs[i] is Some && 0 <= k < diffs[i]->0@.len() ==> (
        #[trigger] diffs[i]->0@[k]).fits()
}

/// The lines covered after an entry was added.
pub proof fn lemma_covered_with_entry(
    files: Seq<FileView>,
    path: Seq<char>,
    entry: EntryView,
    other: Seq<char>,
)
    ensures
        covered_lines(with_entry(files, path, entry), other) == if other == path {
            covered_lines(files, other).union(lines_of(entry.line_ranges))
        } else {
            covered_lines(files, other)
        },
{
    let present = with_file(files, path);
    lemma_covered_with_file(files, path, other);
    lemma_file_index(present, path);
    let at = file_index(present, path);
    lemma_entries_lines_push(present[at].entries, entry);
    lemma_covered_update(
        present,
        at,
        present[at].entries.push(entry),
        lines_of(entry.line_ranges),
        other,
    );
}

/// A file that attests nothing covers nothing, and is there once it was added.
proof fn lemma_covered_with_file(files: Seq<FileView>, path: Seq<char>, other: Seq<char>)
    ensures
        covered_lines(with_file(files, path), other) == covered_lines(files, other),
        has_file(with_file(files, path), path),
{
    if !has_file(files, path) {
        let file = FileView { file_path: path, entries: Seq::<EntryView>::empty() };
        lemma_covered_push(files, file, other);
        lemma_covered_push(files, file, path);
        assert(entries_lines(file.entries) =~= Set::empty());
        assert(covered_lines(files, other).union(entries_lines(file.entries)) =~= covered_lines(
            files,
            other,
        ));
    }
}

/// Where some file has a path, there is a first one.
pub proof fn lemma_file_index(files: Seq<FileView>, path: Seq<char>)
    requires
        has_file(files, path),
    ensures
        file_at(files, path, file_index(files, path)),
    decreases files.len(),
{
    let i = choose|i: int| 0 <= i < files.len() && (#[trigger] files[i]).file_path == path;
    lemma_first_file(files, path, i);
}

/// There is a first file with a path no later than any file with it.
proof fn lemma_first_file(files: Seq<FileView>, path: Seq<char>, some: int)
    requires
        0 <= some < files.len(),
        files[some].file_path == path,
    ensures
        exists|at: int| file_at(files, path, at),
    decreases some,
{
    if exists|i: int| 0 <= i < some && (#[trigger] files[i]).file_path == path {
        let i = choose|i: int| 0 <= i < some && (#[trigger] files[i]).file_path == path;
        lemma_first_file(files, path, i);
    } else {
        assert(file_at(files, path, some));
    }
}

/// The lines covered after the entries of one file gained some lines.
proof fn lemma_covered_update(
    files: Seq<FileView>,
    at: int,
    entries: Seq<EntryView>,
    gained: Set<int>,
    path: Seq<char>,
)
    requires
        0 <= at < files.len(),
        entries_lines(entries) == entries_lines(files[at].entries).union(gained),
    ensures
        covered_lines(
            files.update(at, FileView { file_path: files[at].file_path, entries }),
            path,
        ) == if files[at].file_path == path {
            covered_lines(files, path).union(gained)
        } else {
            covered_lines(files, path)
        },
{
    let updated = files.update(at, FileView { file_path: files[at].file_path, entries });
    let expected = if files[at].file_path == path {
        covered_lines(files, path).union(gained)
    } else {
        covered_lines(files, path)
    };
    assert forall|line: int| covered_lines(updated, path).contains(line) <==> expected.contains(
        line,
    ) by {
        if covered_lines(updated, path).contains(line) {
            let i = choose|i: int|
                0 <= i < updated.len() && (#[trigger] updated[i]).file_path == path
                    && entries_lines(updated[i].entries).contains(line);
            if i != at {
                assert(files[i] == updated[i]);
            } else {
                assert(files[i].file_path == path);
            }
        }
        if covered_lines(files, path).contains(line) {
            let i = choose|i: int|
                0 <= i < files.len() && (#[trigger] files[i]).file_path == path && entries_lines(
                    files[i].entries,
                ).contains(line);
            assert(updated[i].file_path == path);
        }
        if files[at].file_path == path && gained.contains(line) {
            assert(updated[at].file_path == path);
        }
    }
    assert(covered_lines(updated, path) =~= expected);
}

/// Whether `coverage` lists for each path the lines that `target` or `recovered` covers.
spec fn tracks(
    coverage: Map<Seq<char>, Vec<LineRange>>,
    target: Seq<FileView>,
    recovered: Seq<FileView>,
) -> bool {
    forall|path: Seq<char>|
        covered_lines(target, path).union(#[trigger] covered_lines(recovered, path))
            == if coverage.contains_key(path) {
            lines_of(coverage[path]@)
        } else {
            Set::empty()
        }
}

/// Whether the mapping sends one of the lines of `sources` to `line`.
spec fn comes_from(sources: Seq<u32>, mapping: Map<u32, u32>, line: u32) -> bool {
    exists|i: int|
        0 <= i < sources.len() && #[trigger] mapping.contains_key(sources[i])
            && mapping[sources[i]] == line
}

/// Lists the lines at which the lines of an entry stand under a mapping.
fn map_entry_lines(entry: &AttestationEntry, mapping: &HashMap<u32, u32>) -> (lines: Vec<u32>)
    ensures
        forall|line: u32|
            lines@.contains(line) <==> mapped_lines(entry@, mapping@).contains(line as int),
{
    let source_lines = expand_ranges(entry.line_ranges.as_slice());
    let mut lines: Vec<u32> = Vec::new();
    let mut next: usize = 0;
    while next < source_lines.len()
        invariant
            next <= source_lines@.len(),
            forall|k: int|
                0 <= k < lines@.len() ==> comes_from(
                    source_lines@.take(next as int),
                    mapping@,
                    #[trigger] lines@[k],
                ),
            forall|i: int|
                0 <= i < next && #[trigger] mapping@.contains_key(source_lines@[i])
                    ==> lines@.contains(mapping@[source_lines@[i]]),
        decreases source_lines@.len() - next,
    {
        let source_line: u32 = source_lines[next];
        let ghost before = lines@;
        if let Some(destination_line) = mapping.get(&source_line) {
            lines.push(*destination_line);
            assert(lines@[before.len() as int] == mapping@[source_line]);
        }
        proof {
            assert forall|i: int|
                0 <= i < next + 1 && #[trigger] mapping@.contains_key(
                    source_lines@[i],
                ) implies lines@.contains(mapping@[source_lines@[i]]) by {
                if i < next {
                    let k = choose|k: int|
                        0 <= k < before.len() && before[k] == mapping@[source_lines@[i]];
                    assert(lines@[k] == mapping@[source_lines@[i]]);
                }
            }
            let longer = source_lines@.take(next + 1);
            assert forall|k: int| 0 <= k < lines@.len() implies comes_from(
                longer,
                mapping@,
                #[trigger] lines@[k],
            ) by {
                if k < before.len() {
                    assert(lines@[k] == before[k]);
                    let shorter = source_lines@.take(next as int);
                    let i = choose|i: int|
                        0 <= i < shorter.len() && #[trigger] mapping@.contains_key(shorter[i])
                            && mapping@[shorter[i]] == before[k];
                    assert(longer[i] == shorter[i]);
                    assert(mapping@.contains_key(longer[i]));
                } else {
                    assert(mapping@.contains_key(longer[next as int]));
                }
            }
        }
        next = next + 1;
    }
    proof {
        assert forall|line: u32|
            lines@.contains(line) <==> mapped_lines(entry@, mapping@).contains(line as int) by {
            if lines@.contains(line) {
                let k = choose|k: int| 0 <= k < lines@.len() && lines@[k] == line;
                assert(source_lines@.take(source_lines@.len() as int) =~= source_lines@);
                let i = choose|i: int|
                    0 <= i < source_lines@.len() && #[trigger] mapping@.contains_key(
                        source_lines@[i],
                    ) && mapping@[source_lines@[i]] == lines@[k];
                lemma_expand_all_lists_lines(entry@.line_ranges, source_lines@[i] as int);
                assert(mapping@.contains_key(source_lines@[i]));
            }
            if mapped_lines(entry@, mapping@).contains(line as int) {
                let source = choose|source: u32| #[trigger]
                    mapping@.contains_key(source) && mapping@[source] == line && lines_of(
                        entry@.line_ranges,
                    ).contains(source as int);
                lemma_expand_all_lists_lines(entry@.line_ranges, source as int);
                let i = choose|i: int| 0 <= i < source_lines@.len() && source_lines@[i] == source;
                assert(mapping@.contains_key(source_lines@[i]));
            }
        }
    }
    lines
}

/// Recovers one entry: what it still misses goes into `recovered` and into the coverage.
fn recover_entry(
    coverage: &mut TextMap<Vec<LineRange>>,
    recovered: &mut AuthorshipLog,
    path: &String,
    entry: &AttestationEntry,
    mapping: &HashMap<u32, u32>,
    target: Ghost<Seq<FileView>>,
)
    requires
        tracks(old(coverage)@, target@, old(recovered)@.files),
    ensures
        tracks(final(coverage)@, target@, final(recovered)@.files),
        final(recovered)@ == (LogView {
            files: recovered_entry(target@, old(recovered)@.files, path@, entry@, mapping@),
            metadata: old(recovered)@.metadata,
        }),
{
    let ghost files = recovered@.files;
    let ghost covered = covered_lines(target@, path@).union(covered_lines(files, path@));
    let ghost missing = missing_lines(target@, files, path@, entry@, mapping@);
    let mapped = map_entry_lines(entry, mapping);
    let mapped_ranges = ranges_of_lines(mapped);
    let none: Vec<LineRange> = Vec::new();
    let missing_ranges = {
        let current: &Vec<LineRange> = match coverage.get(path) {
            Some(ranges) => ranges,
            None => &none,
        };
        assert(lines_of(none@) =~= Set::empty());
        assert(lines_of(current@) == covered);
        subtract_line_ranges(mapped_ranges.as_slice(), current.as_slice())
    };
    proof {
        assert forall|line: int| lines_of(mapped_ranges@).contains(line) <==> mapped_lines(
            entry@,
            mapping@,
        ).contains(line) by {
            if mapped_lines(entry@, mapping@).contains(line) {
                assert(mapped@.contains(line as u32));
            }
        }
        assert(lines_of(missing_ranges@) =~= missing);
        lemma_canonical_ranges(missing_ranges@);
        lemma_canonical_empty(missing_ranges@);
    }
    if missing_ranges.len() == 0 {
        return;
    }
    let ghost before = coverage@;
    let mut extended: Vec<LineRange> = match coverage.remove(path) {
        Some(ranges) => ranges,
        None => Vec::new(),
    };
    assert(lines_of(extended@) == covered) by {
        if !before.contains_key(path@) {
            assert(lines_of(extended@) =~= Set::empty());
        }
    }
    let mut more = copy_ranges(&missing_ranges);
    proof {
        lemma_lines_of_add(extended@, more@);
    }
    extended.append(&mut more);
    let ghost grown = extended@;
    coverage.insert(path.clone(), extended);
    let ghost added = EntryView { hash: entry.hash@, line_ranges: missing_ranges@ };
    let at: usize = recovered.get_or_create_file(path);
    let ghost present = recovered@.files;
    let ghost held = recovered.attestations@;
    assert(file_index(present, path@) == at) by {
        assert(file_at(present, path@, at as int));
    }
    recovered.attestations[at].add_entry(AttestationEntry::new(entry.hash.clone(), missing_ranges));
    proof {
        let expected = with_entry(files, path@, added);
        assert(recovered.attestations@.len() == held.len());
        assert(present[at as int] == held[at as int]@);
        assert forall|i: int| 0 <= i < expected.len() implies recovered@.files[i]
            == expected[i] by {
            if i != at {
                assert(recovered.attestations@[i] == held[i]);
                assert(present[i] == held[i]@);
            }
        }
        assert(recovered@.files =~= expected);
        assert forall|other: Seq<char>|
            covered_lines(target@, other).union(
                #[trigger] covered_lines(recovered@.files, other),
            ) == if coverage@.contains_key(other) {
            lines_of(coverage@[other]@)
        } else {
            Set::empty()
        } by {
            lemma_covered_with_entry(files, path@, added, other);
            assert(covered_lines(target@, other).union(covered_lines(files, other))
                == if before.contains_key(other) {
                lines_of(before[other]@)
            } else {
                Set::empty()
            });
            if other == path@ {
                assert(covered_lines(target@, other).union(covered_lines(recovered@.files, other))
                    =~= covered.union(missing));
            }
        }
    }
}

/// Carries over to `target` the attestations of a source commit for the lines that the commit
/// keeps unchanged and that `target` does not cover yet.
pub fn recover_exact_source_lines_from_mapping(
    target: &mut AuthorshipLog,
    source_log: &AuthorshipLog,
    diffs: &Vec<Option<Vec<DiffOp>>>,
)
    requires
        diffs_fit(diffs@),
    ensures
        final(target)@ == merged_log(
            old(target)@,
            recovered_log(old(target)@, source_log@, diff_views(diffs@)),
        ),
{
    let ghost covering = target@.files;
    let ghost files = source_log@.files;
    let ghost views = diff_views(diffs@);
    let mut recovered = AuthorshipLog::new();
    recovered.metadata = source_log.metadata.duplicate();
    let mut coverage = line_coverage_by_file(target);
    proof {
        assert(files.take(0) =~= Seq::empty());
        assert(recovered@.files =~= Seq::empty());
        assert forall|path: Seq<char>|
            covered_lines(covering, path).union(#[trigger] covered_lines(recovered@.files, path))
                == if coverage@.contains_key(path) {
                lines_of(coverage@[path]@)
            } else {
                Set::empty()
            } by {
            assert(covered_lines(recovered@.files, path) =~= Set::empty());
            assert(covered_lines(covering, path).union(covered_lines(recovered@.files, path))
                =~= covered_lines(covering, path));
            if !coverage@.contains_key(path) {
                assert(!has_file(covering, path));
                assert(covered_lines(covering, path) =~= Set::empty());
            }
        }
    }
    let mut next: usize = 0;
    while next < source_log.attestations.len()
        invariant
            next <= source_log.attestations@.len(),
            *target == *old(target),
            covering == target@.files,
            files == source_log@.files,
            views == diff_views(diffs@),
            diffs_fit(diffs@),
            recovered@.metadata == source_log@.metadata,
            tracks(coverage@, covering, recovered@.files),
            recovered@.files == recovered_files(covering, files.take(next as int), views),
        decreases source_log.attestations@.len() - next,
    {
        let file = &source_log.attestations[next];
        let ghost view = files[next as int];
        let ghost before = recovered@.files;
        proof {
            assert(view == file@);
            let longer = files.take(next + 1);
            assert(longer.drop_last() =~= files.take(next as int));
            assert(longer.last() == view);
        }
        if next < diffs.len() {
            if let Some(ops) = &diffs[next] {
                assert(views[next as int] == Some(ops@));
                assert forall|k: int| 0 <= k < ops@.len() implies (#[trigger] ops@[k]).fits() by {
                    assert(diffs@[next as int]->0@[k].fits());
                }
                let mapping = equal_line_mapping_between_commits(ops);
                let mut at: usize = 0;
                assert(view.entries.take(0) =~= Seq::empty());
                while at < file.entries.len()
                    invariant
                        at <= file.entries@.len(),
                        view == file@,
                        recovered@.metadata == source_log@.metadata,
                        tracks(coverage@, covering, recovered@.files),
                        recovered@.files == recovered_entries(
                            covering,
                            before,
                            view.file_path,
                            view.entries.take(at as int),
                            mapping@,
                        ),
                    decreases file.entries@.len() - at,
                {
                    proof {
                        let longer = view.entries.take(at + 1);
                        assert(longer.drop_last() =~= view.entries.take(at as int));
                        assert(longer.last() == file.entries@[at as int]@);
                    }
                    recover_entry(
                        &mut coverage,
                        &mut recovered,
                        &file.file_path,
                        &file.entries[at],
                        &mapping,
                        Ghost(covering),
                    );
                    at = at + 1;
                }
                assert(view.entries.take(at as int) =~= view.entries);
            } else {
                assert(views[next as int] is None);
            }
        }
        next = next + 1;
    }
    assert(files.take(next as int) =~= files);
    retain_referenced_metadata(&mut recovered);
    merge_file_attestations(target, &recovered);
    merge_authorship_metadata(target, &recovered);
}

/// What a source commit contributes: its log, where it has one that can be read, and for each file
/// of the log the difference to the destination commit, where the versions could be compared.
#[derive(Debug)]
pub struct SourceCommit {
    pub log: Option<AuthorshipLog>,
    pub diffs: Vec<Option<Vec<DiffOp>>>,
}

/// A log with what is recovered from the source commits, one after the other.
pub open spec fn with_recovered(base: LogView, sources: Seq<SourceCommit>) -> LogView
    decreases sources.len(),
{
    if sources.len() == 0 {
        base
    } else {
        let before = with_recovered(base, sources.drop_last());
        match sources.last().log {
            Some(log) => merged_log(
                before,
                recovered_log(before, log@, diff_views(sources.last().diffs@)),
            ),
            None => before,
        }
    }
}

/// The contents of the log to start from.
pub open spec fn log_or_empty(log: Option<AuthorshipLog>) -> LogView {
    match log {
        Some(log) => log@,
        None => empty_log(),
    }
}

/// The authorship of the commit: the shifted log with what is recovered from the source commits,
/// and of the resolution what that leaves uncovered.
pub open spec fn resolved_log(
    shifted: LogView,
    resolution: LogView,
    sources: Seq<SourceCommit>,
    commit_sha: Seq<char>,
) -> LogView {
    let carried = with_recovered(shifted, sources);
    let merged = merged_log(carried, uncovered_log(resolution, carried.files));
    LogView {
        files: merged.files,
        metadata: MetadataView { base_commit_sha: commit_sha, ..merged.metadata },
    }
}

/// Merges the authorship of a commit that resolves conflicts.
pub fn merge_conflict_resolution_authorship(
    existing_shifted_log: Option<AuthorshipLog>,
    resolution_log: AuthorshipLog,
    sources: &Vec<SourceCommit>,
    commit_sha: &str,
) -> (merged: AuthorshipLog)
    requires
        forall|i: int| 0 <= i < sources@.len() ==> diffs_fit((#[trigger] sources@[i]).diffs@),
    ensures
        merged@ == resolved_log(
            log_or_empty(existing_shifted_log),
            resolution_log@,
            sources@,
            commit_sha@,
        ),
{
    let ghost base = log_or_empty(existing_shifted_log);
    let mut merged = match existing_shifted_log {
        Some(log) => log,
        None => AuthorshipLog::new(),
    };
    let mut next: usize = 0;
    assert(sources@.take(0) =~= Seq::empty());
    while next < sources.len()
        invariant
            next <= sources@.len(),
            forall|i: int| 0 <= i < sources@.len() ==> diffs_fit((#[trigger] sources@[i]).diffs@),
            merged@ == with_recovered(base, sources@.take(next as int)),
        decreases sources@.len() - next,
    {
        proof {
            let longer = sources@.take(next + 1);
            assert(longer.drop_last() =~= sources@.take(next as int));
            assert(longer.last() == sources@[next as int]);
        }
        let source = &sources[next];
        if let Some(log) = &source.log {
            recover_exact_source_lines_from_mapping(&mut merged, log, &source.diffs);
        }
        next = next + 1;
    }
    assert(sources@.take(next as int) =~= sources@);
    let uncovered = filter_resolution_log_to_uncovered_lines(resolution_log, &merged);
    merge_file_attestations(&mut merged, &uncovered);
    merge_authorship_metadata(&mut merged, &uncovered);
    merged.metadata.base_commit_sha = commit_sha.to_owned();
    merged
}

} // verus!
