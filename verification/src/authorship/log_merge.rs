//! Merging the attestations and the metadata of one log into another.

use crate::authorship::authorship_log::{
    entry_views, file_at, file_index, record_texts, with_file, AttestationEntry, AuthorshipLog,
    EntryView, FileView, LogView, MetadataView,
};
use crate::authorship::line_coverage::{copy_ranges, normalize_line_ranges};
use crate::authorship::line_range::{canonical_ranges, lemma_lines_of_add, lines_of};
use crate::text_map::{lists, TextMap};
use vstd::prelude::*;

verus! {

/// Whether `at` is the position of the first entry with a hash.
pub open spec fn entry_at(entries: Seq<EntryView>, hash: Seq<char>, at: int) -> bool {
    &&& 0 <= at < entries.len()
    &&& entries[at].hash == hash
    &&& forall|j: int| 0 <= j < at ==> (#[trigger] entries[j]).hash != hash
}

/// Whether some entry has the hash.
pub open spec fn has_entry(entries: Seq<EntryView>, hash: Seq<char>) -> bool {
    exists|j: int| 0 <= j < entries.len() && (#[trigger] entries[j]).hash == hash
}

/// The entries with the lines of one more: they join the first entry with its hash, or stand in a
/// new one at the end.
pub open spec fn merged_entry(entries: Seq<EntryView>, entry: EntryView) -> Seq<EntryView> {
    if has_entry(entries, entry.hash) {
        let at = choose|at: int| entry_at(entries, entry.hash, at);
        entries.update(
            at,
            EntryView {
                hash: entry.hash,
                line_ranges: canonical_ranges(
                    lines_of(entries[at].line_ranges).union(lines_of(entry.line_ranges)),
                ),
            },
        )
    } else {
        entries.push(
            EntryView {
                hash: entry.hash,
                line_ranges: canonical_ranges(lines_of(entry.line_ranges)),
            },
        )
    }
}

/// The entries with those of `more`, merged one after the other.
pub open spec fn merged_entries(entries: Seq<EntryView>, more: Seq<EntryView>) -> Seq<EntryView>
    decreases more.len(),
{
    if more.len() == 0 {
        entries
    } else {
        merged_entry(merged_entries(entries, more.drop_last()), more.last())
    }
}

/// The files with the entries of one more: they join the first file with its path, or stand in a
/// new one at the end.
pub open spec fn merged_file(files: Seq<FileView>, file: FileView) -> Seq<FileView> {
    let present = with_file(files, file.file_path);
    let at = file_index(present, file.file_path);
    present.update(
        at,
        FileView {
            file_path: file.file_path,
            entries: merged_entries(present[at].entries, file.entries),
        },
    )
}

/// The files with those of `more`, merged one after the other.
pub open spec fn merged_files(files: Seq<FileView>, more: Seq<FileView>) -> Seq<FileView>
    decreases more.len(),
{
    if more.len() == 0 {
        files
    } else {
        merged_file(merged_files(files, more.drop_last()), more.last())
    }
}

/// Merges one entry into a list.
fn merge_entry(entries: &mut Vec<AttestationEntry>, entry: &AttestationEntry)
    ensures
        entry_views(final(entries)@) == merged_entry(entry_views(old(entries)@), entry@),
{
    let ghost before = entry_views(entries@);
    let mut at: usize = 0;
    while at < entries.len()
        invariant
            *entries == *old(entries),
            before == entry_views(entries@),
            at <= entries@.len(),
            forall|j: int| 0 <= j < at ==> (#[trigger] before[j]).hash != entry.hash@,
        decreases entries@.len() - at,
    {
        assert(before[at as int] == entries@[at as int]@);
        if entries[at].hash == entry.hash {
            let mut joined = copy_ranges(&entries[at].line_ranges);
            let mut more = copy_ranges(&entry.line_ranges);
            proof {
                lemma_lines_of_add(joined@, more@);
                assert(entry_at(before, entry.hash@, at as int));
                let first = choose|first: int| entry_at(before, entry.hash@, first);
                assert(first == at);
            }
            joined.append(&mut more);
            let line_ranges = normalize_line_ranges(joined.as_slice());
            let replacement = AttestationEntry { hash: entry.hash.clone(), line_ranges };
            entries.set(at, replacement);
            assert(entry_views(entries@) =~= merged_entry(before, entry@));
            return;
        }
        at = at + 1;
    }
    let line_ranges = normalize_line_ranges(entry.line_ranges.as_slice());
    entries.push(AttestationEntry { hash: entry.hash.clone(), line_ranges });
    proof {
        assert(!has_entry(before, entry.hash@));
        assert(entry_views(entries@) =~= merged_entry(before, entry@));
    }
}

/// Merges the attestations of `source` into those of `target`.
pub fn merge_file_attestations(target: &mut AuthorshipLog, source: &AuthorshipLog)
    ensures
        final(target)@ == (LogView {
            files: merged_files(old(target)@.files, source@.files),
            metadata: old(target)@.metadata,
        }),
        final(target).metadata == old(target).metadata,
{
    let ghost before = target@.files;
    let ghost more = source@.files;
    let ghost metadata = target.metadata;
    let mut next: usize = 0;
    assert(more.take(0) =~= Seq::empty());
    while next < source.attestations.len()
        invariant
            next <= source.attestations@.len(),
            more == source@.files,
            target.metadata == metadata,
            target@.files == merged_files(before, more.take(next as int)),
        decreases source.attestations@.len() - next,
    {
        let file = &source.attestations[next];
        let ghost view = more[next as int];
        let ghost merged = target@.files;
        assert(view == file@);
        let at: usize = target.get_or_create_file(&file.file_path);
        let ghost present = target@.files;
        let ghost opened = present[at as int].entries;
        assert(file_index(present, view.file_path) == at) by {
            assert(file_at(present, view.file_path, at as int));
        }
        assert(opened == entry_views(target.attestations@[at as int].entries@));
        let mut position: usize = 0;
        assert(view.entries.take(0) =~= Seq::empty());
        assert(present =~= present.update(
            at as int,
            FileView { file_path: view.file_path, entries: opened },
        ));
        while position < file.entries.len()
            invariant
                position <= file.entries@.len(),
                view == file@,
                target.metadata == metadata,
                at < target.attestations@.len(),
                at < present.len(),
                target@.files == present.update(
                    at as int,
                    FileView {
                        file_path: view.file_path,
                        entries: merged_entries(opened, view.entries.take(position as int)),
                    },
                ),
            decreases file.entries@.len() - position,
        {
            let ghost taken = view.entries.take(position as int);
            let ghost files = target@.files;
            let ghost held = target.attestations@;
            assert(files[at as int] == held[at as int]@);
            merge_entry(&mut target.attestations[at].entries, &file.entries[position]);
            proof {
                let longer = view.entries.take(position + 1);
                assert(longer.drop_last() =~= taken);
                assert(longer.last() == file.entries@[position as int]@);
                assert(merged_entries(opened, longer) == entry_views(
                    target.attestations@[at as int].entries@,
                ));
                assert(target@.files[at as int] == (FileView {
                    file_path: view.file_path,
                    entries: merged_entries(opened, longer),
                }));
                let expected = present.update(
                    at as int,
                    FileView {
                        file_path: view.file_path,
                        entries: merged_entries(opened, longer),
                    },
                );
                assert(target.attestations@.len() == held.len());
                assert(files.len() == held.len());
                assert(files.len() == expected.len());
                assert forall|i: int| 0 <= i < expected.len() implies target@.files[i]
                    == expected[i] by {
                    if i != at {
                        assert(target.attestations@[i] == held[i]);
                        assert(files[i] == held[i]@);
                        assert(files[i] == present[i]);
                    }
                }
                assert(target@.files =~= expected);
            }
            position = position + 1;
        }
        proof {
            assert(view.entries.take(position as int) =~= view.entries);
            let longer = more.take(next + 1);
            assert(longer.drop_last() =~= more.take(next as int));
            assert(longer.last() == view);
        }
        next = next + 1;
    }
    assert(more.take(next as int) =~= more);
}

/// Metadata with the records of `source` under the keys that `target` does not hold.
pub open spec fn merged_metadata(target: MetadataView, source: MetadataView) -> MetadataView {
    MetadataView {
        base_commit_sha: target.base_commit_sha,
        prompts: source.prompts.union_prefer_right(target.prompts),
        humans: source.humans.union_prefer_right(target.humans),
        sessions: source.sessions.union_prefer_right(target.sessions),
    }
}

/// A log with the attestations and the metadata records of another.
pub open spec fn merged_log(target: LogView, source: LogView) -> LogView {
    LogView {
        files: merged_files(target.files, source.files),
        metadata: merged_metadata(target.metadata, source.metadata),
    }
}

/// Adds the records of `source` under the keys that `target` does not hold.
fn merge_records(target: &mut TextMap<String>, source: &TextMap<String>)
    ensures
        final(target)@ == source@.union_prefer_right(old(target)@),
        record_texts(final(target)@) == record_texts(source@).union_prefer_right(
            record_texts(old(target)@),
        ),
{
    let ghost before = target@;
    let count: usize = source.len();
    let mut position: usize = 0;
    while position < count
        invariant
            position <= count,
            count == source.pairs().len(),
            lists(source.pairs(), source@),
            forall|key: Seq<char>| #[trigger]
                target@.contains_key(key) <==> before.contains_key(key) || exists|i: int|
                    0 <= i < position && (#[trigger] source.pairs()[i]).0 == key,
            forall|key: Seq<char>| #[trigger]
                target@.contains_key(key) ==> target@[key] == if before.contains_key(key) {
                    before[key]
                } else {
                    source@[key]
                },
        decreases count - position,
    {
        let ghost so_far = target@;
        let ghost pair = source.pairs()[position as int];
        target.insert_if_absent(
            source.key_at(position).clone(),
            source.value_at(position).clone(),
        );
        position = position + 1;
        proof {
            assert forall|key: Seq<char>| #[trigger] target@.contains_key(key)
                <==> before.contains_key(key) || exists|i: int|
                0 <= i < position && (#[trigger] source.pairs()[i]).0 == key by {
                if so_far.contains_key(key) && !before.contains_key(key) {
                    let i = choose|i: int|
                        0 <= i < position - 1 && (#[trigger] source.pairs()[i]).0 == key;
                    assert(source.pairs()[i].0 == key);
                }
                if key == pair.0 {
                    assert(source.pairs()[position - 1].0 == key);
                }
                if exists|i: int| 0 <= i < position && (#[trigger] source.pairs()[i]).0 == key {
                    let i = choose|i: int|
                        0 <= i < position && (#[trigger] source.pairs()[i]).0 == key;
                    if i < position - 1 {
                        assert(so_far.contains_key(key));
                    }
                }
            }
            assert forall|key: Seq<char>| #[trigger] target@.contains_key(key) implies target@[key]
                == if before.contains_key(key) {
                before[key]
            } else {
                source@[key]
            } by {
                if so_far.contains_key(key) {
                    assert(target@[key] == so_far[key]);
                }
            }
        }
    }
    assert(target@ =~= source@.union_prefer_right(before));
    assert(record_texts(target@) =~= record_texts(source@).union_prefer_right(
        record_texts(before),
    ));
}

/// Adds the metadata records of `source` under the keys that `target` does not hold.
pub fn merge_authorship_metadata(target: &mut AuthorshipLog, source: &AuthorshipLog)
    ensures
        final(target)@ == (LogView {
            files: old(target)@.files,
            metadata: merged_metadata(old(target)@.metadata, source@.metadata),
        }),
        final(target).attestations == old(target).attestations,
{
    merge_records(&mut target.metadata.prompts, &source.metadata.prompts);
    merge_records(&mut target.metadata.humans, &source.metadata.humans);
    merge_records(&mut target.metadata.sessions, &source.metadata.sessions);
}

} // verus!
