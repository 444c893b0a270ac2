//! The metadata records that attestations refer to.

use crate::authorship::authorship_log::{
    file_views, AuthorshipLog, EntryView, FileAttestation, FileView, LogView, MetadataView,
};
use crate::text::{before_first, head_before, starts_with_pair};
use crate::text_map::{lemma_text_set_push, text_set};
use vstd::prelude::*;

verus! {

/// The kind of record that a metadata key names.
#[derive(Debug, Clone, Copy, PartialEq, Eq, Structural)]
pub enum RecordKind {
    Prompt,
    Human,
    Session,
}

/// The key of the metadata record behind an attestation hash: what stands before the first `::`.
pub open spec fn metadata_key(hash: Seq<char>) -> Seq<char> {
    before_first(hash, "::"@)
}

/// The kind of record that a key names, which its prefix tells: `h_` for a human, `s_` for a
/// session, anything else for a prompt.
pub open spec fn kind_of_key(key: Seq<char>) -> RecordKind {
    if key.len() >= 2 && key[0] == 'h' && key[1] == '_' {
        RecordKind::Human
    } else if key.len() >= 2 && key[0] == 's' && key[1] == '_' {
        RecordKind::Session
    } else {
        RecordKind::Prompt
    }
}

/// The keys of a kind that some entry names.
pub open spec fn entry_keys(entries: Seq<EntryView>, kind: RecordKind) -> Set<Seq<char>> {
    Set::new(
        |key: Seq<char>|
            kind_of_key(key) == kind && exists|j: int|
                0 <= j < entries.len() && metadata_key((#[trigger] entries[j]).hash) == key,
    )
}

/// The keys of a kind that some entry of some file names.
pub open spec fn referenced_keys(files: Seq<FileView>, kind: RecordKind) -> Set<Seq<char>> {
    Set::new(
        |key: Seq<char>|
            exists|i: int|
                0 <= i < files.len() && entry_keys((#[trigger] files[i]).entries, kind).contains(
                    key,
                ),
    )
}

/// The metadata without the records that no entry of the files names.
pub open spec fn referenced_metadata(
    metadata: MetadataView,
    files: Seq<FileView>,
) -> MetadataView {
    MetadataView {
        base_commit_sha: metadata.base_commit_sha,
        prompts: metadata.prompts.restrict(referenced_keys(files, RecordKind::Prompt)),
        humans: metadata.humans.restrict(referenced_keys(files, RecordKind::Human)),
        sessions: metadata.sessions.restrict(referenced_keys(files, RecordKind::Session)),
    }
}

proof fn lemma_entry_keys_push(entries: Seq<EntryView>, entry: EntryView, kind: RecordKind)
    ensures
        entry_keys(entries.push(entry), kind) == if kind_of_key(metadata_key(entry.hash)) == kind {
            entry_keys(entries, kind).insert(metadata_key(entry.hash))
        } else {
            entry_keys(entries, kind)
        },
{
    let longer = entries.push(entry);
    let named = metadata_key(entry.hash);
    let expected = if kind_of_key(named) == kind {
        entry_keys(entries, kind).insert(named)
    } else {
        entry_keys(entries, kind)
    };
    assert forall|key: Seq<char>| entry_keys(longer, kind).contains(key) <==> expected.contains(
        key,
    ) by {
        if entry_keys(longer, kind).contains(key) {
            let j = choose|j: int|
                0 <= j < longer.len() && metadata_key((#[trigger] longer[j]).hash) == key;
            if j < entries.len() {
                assert(entries[j] == longer[j]);
            }
        }
        if entry_keys(entries, kind).contains(key) {
            let j = choose|j: int|
                0 <= j < entries.len() && metadata_key((#[trigger] entries[j]).hash) == key;
            assert(longer[j] == entries[j]);
        }
        assert(longer[entries.len() as int] == entry);
    }
    assert(entry_keys(longer, kind) =~= expected);
}

proof fn lemma_referenced_keys_push(files: Seq<FileView>, file: FileView, kind: RecordKind)
    ensures
        referenced_keys(files.push(file), kind) == referenced_keys(files, kind).union(
            entry_keys(file.entries, kind),
        ),
{
    let longer = files.push(file);
    let expected = referenced_keys(files, kind).union(entry_keys(file.entries, kind));
    assert forall|key: Seq<char>| referenced_keys(longer, kind).contains(key)
        <==> expected.contains(key) by {
        if referenced_keys(longer, kind).contains(key) {
            let i = choose|i: int|
                0 <= i < longer.len() && entry_keys((#[trigger] longer[i]).entries, kind).contains(
                    key,
                );
            if i < files.len() {
                assert(files[i] == longer[i]);
            }
        }
        if referenced_keys(files, kind).contains(key) {
            let i = choose|i: int|
                0 <= i < files.len() && entry_keys((#[trigger] files[i]).entries, kind).contains(
                    key,
                );
            assert(longer[i] == files[i]);
        }
        assert(longer[files.len() as int] == file);
    }
    assert(referenced_keys(longer, kind) =~= expected);
}

/// The key of the metadata record behind an attestation hash.
pub fn attestation_metadata_key(hash: &str) -> (key: &str)
    ensures
        key@ == metadata_key(hash@),
{
    head_before(hash, "::")
}

/// The keys of a kind that the entries of the files name.
fn collect_keys(files: &Vec<FileAttestation>, kind: RecordKind) -> (keys: Vec<String>)
    ensures
        text_set(keys@) == referenced_keys(file_views(files@), kind),
{
    let ghost views = file_views(files@);
    let mut keys: Vec<String> = Vec::new();
    let mut next: usize = 0;
    assert(text_set(keys@) =~= Set::empty());
    assert(referenced_keys(views.take(0), kind) =~= Set::empty());
    while next < files.len()
        invariant
            next <= files@.len(),
            views == file_views(files@),
            text_set(keys@) == referenced_keys(views.take(next as int), kind),
        decreases files@.len() - next,
    {
        let file = &files[next];
        let ghost known = text_set(keys@);
        let ghost view = views[next as int];
        assert(view == file@);
        let mut at: usize = 0;
        assert(entry_keys(view.entries.take(0), kind) =~= Set::empty());
        assert(known.union(entry_keys(view.entries.take(0), kind)) =~= known);
        while at < file.entries.len()
            invariant
                at <= file.entries@.len(),
                view == file@,
                text_set(keys@) == known.union(entry_keys(view.entries.take(at as int), kind)),
            decreases file.entries@.len() - at,
        {
            let ghost entry = view.entries[at as int];
            let ghost before = keys@;
            assert(entry == file.entries@[at as int]@);
            let key: String = attestation_metadata_key(file.entries[at].hash.as_str()).to_owned();
            let ghost named = key;
            let found: RecordKind = if starts_with_pair(key.as_str(), 'h', '_') {
                RecordKind::Human
            } else if starts_with_pair(key.as_str(), 's', '_') {
                RecordKind::Session
            } else {
                RecordKind::Prompt
            };
            if found == kind {
                keys.push(key);
            }
            proof {
                lemma_text_set_push(before, named);
                lemma_entry_keys_push(view.entries.take(at as int), entry, kind);
                assert(view.entries.take(at + 1) =~= view.entries.take(at as int).push(entry));
                assert(text_set(keys@) =~= known.union(
                    entry_keys(view.entries.take(at + 1), kind),
                ));
            }
            at = at + 1;
        }
        proof {
            assert(view.entries.take(at as int) =~= view.entries);
            lemma_referenced_keys_push(views.take(next as int), view, kind);
            assert(views.take(next + 1) =~= views.take(next as int).push(view));
        }
        next = next + 1;
    }
    assert(views.take(next as int) =~= views);
    keys
}

/// Drops the metadata records that no attestation of the log refers to.
pub fn retain_referenced_metadata(log: &mut AuthorshipLog)
    ensures
        final(log)@ == (LogView {
            files: old(log)@.files,
            metadata: referenced_metadata(old(log)@.metadata, old(log)@.files),
        }),
        final(log).attestations == old(log).attestations,
{
    let prompt_keys = collect_keys(&log.attestations, RecordKind::Prompt);
    let human_keys = collect_keys(&log.attestations, RecordKind::Human);
    let session_keys = collect_keys(&log.attestations, RecordKind::Session);
    log.metadata.prompts.retain(&prompt_keys);
    log.metadata.humans.retain(&human_keys);
    log.metadata.sessions.retain(&session_keys);
    assert(log@.metadata =~= referenced_metadata(old(log)@.metadata, old(log)@.files));
}

} // verus!
