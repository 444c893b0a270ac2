//! Authorship logs: which lines of which files are attested to whom, and the records behind the
//! attestations.

use crate::authorship::line_range::LineRange;
use crate::text_map::TextMap;
use vstd::prelude::*;

verus! {

/// The lines of a file that are attested under one hash.
#[derive(Debug)]
pub struct AttestationEntry {
    pub hash: String,
    pub line_ranges: Vec<LineRange>,
}

/// The attestations of one file.
#[derive(Debug)]
pub struct FileAttestation {
    pub file_path: String,
    pub entries: Vec<AttestationEntry>,
}

/// The records that attestations refer to. Each record is held as its JSON text.
#[derive(Debug)]
pub struct AuthorshipMetadata {
    pub base_commit_sha: String,
    pub prompts: TextMap<String>,
    pub humans: TextMap<String>,
    pub sessions: TextMap<String>,
}

/// The authorship of one commit.
#[derive(Debug)]
pub struct AuthorshipLog {
    pub attestations: Vec<FileAttestation>,
    pub metadata: AuthorshipMetadata,
}

/// The contents of an [`AttestationEntry`].
#[verifier::ext_equal]
pub struct EntryView {
    pub hash: Seq<char>,
    pub line_ranges: Seq<LineRange>,
}

/// The contents of a [`FileAttestation`].
#[verifier::ext_equal]
pub struct FileView {
    pub file_path: Seq<char>,
    pub entries: Seq<EntryView>,
}

/// The contents of an [`AuthorshipMetadata`].
#[verifier::ext_equal]
pub struct MetadataView {
    pub base_commit_sha: Seq<char>,
    pub prompts: Map<Seq<char>, Seq<char>>,
    pub humans: Map<Seq<char>, Seq<char>>,
    pub sessions: Map<Seq<char>, Seq<char>>,
}

/// The contents of an [`AuthorshipLog`].
#[verifier::ext_equal]
pub struct LogView {
    pub files: Seq<FileView>,
    pub metadata: MetadataView,
}

impl View for AttestationEntry {
    type V = EntryView;

    open spec fn view(&self) -> EntryView {
        EntryView { hash: self.hash@, line_ranges: self.line_ranges@ }
    }
}

/// The contents of a list of entries.
pub open spec fn entry_views(entries: Seq<AttestationEntry>) -> Seq<EntryView> {
    entries.map_values(|entry: AttestationEntry| entry@)
}

impl View for FileAttestation {
    type V = FileView;

    open spec fn view(&self) -> FileView {
        FileView { file_path: self.file_path@, entries: entry_views(self.entries@) }
    }
}

/// The contents of a list of files.
pub open spec fn file_views(files: Seq<FileAttestation>) -> Seq<FileView> {
    files.map_values(|file: FileAttestation| file@)
}

/// The texts of the records of a map.
pub open spec fn record_texts(records: Map<Seq<char>, String>) -> Map<Seq<char>, Seq<char>> {
    records.map_values(|record: String| record@)
}

impl View for AuthorshipMetadata {
    type V = MetadataView;

    open spec fn view(&self) -> MetadataView {
        MetadataView {
            base_commit_sha: self.base_commit_sha@,
            prompts: record_texts(self.prompts@),
            humans: record_texts(self.humans@),
            sessions: record_texts(self.sessions@),
        }
    }
}

impl View for AuthorshipLog {
    type V = LogView;

    open spec fn view(&self) -> LogView {
        LogView { files: file_views(self.attestations@), metadata: self.metadata@ }
    }
}

/// The contents of a log that attests nothing.
pub open spec fn empty_log() -> LogView {
    LogView {
        files: Seq::empty(),
        metadata: MetadataView {
            base_commit_sha: Seq::empty(),
            prompts: Map::empty(),
            humans: Map::empty(),
            sessions: Map::empty(),
        },
    }
}

/// Whether `at` is the position of the first file with a path.
pub open spec fn file_at(files: Seq<FileView>, path: Seq<char>, at: int) -> bool {
    &&& 0 <= at < files.len()
    &&& files[at].file_path == path
    &&& forall|i: int| 0 <= i < at ==> (#[trigger] files[i]).file_path != path
}

/// Whether some file has the path.
pub open spec fn has_file(files: Seq<FileView>, path: Seq<char>) -> bool {
    exists|i: int| 0 <= i < files.len() && (#[trigger] files[i]).file_path == path
}

/// The files, with one that attests nothing at the end where none has the path.
pub open spec fn with_file(files: Seq<FileView>, path: Seq<char>) -> Seq<FileView> {
    if has_file(files, path) {
        files
    } else {
        files.push(FileView { file_path: path, entries: Seq::empty() })
    }
}

/// The position of the first file with a path.
pub open spec fn file_index(files: Seq<FileView>, path: Seq<char>) -> int {
    choose|at: int| file_at(files, path, at)
}

impl AttestationEntry {
    /// An entry for lines attested under a hash.
    pub fn new(hash: String, line_ranges: Vec<LineRange>) -> (entry: AttestationEntry)
        ensures
            entry@ == (EntryView { hash: hash@, line_ranges: line_ranges@ }),
    {
        AttestationEntry { hash, line_ranges }
    }
}

impl FileAttestation {
    /// A file that attests nothing.
    pub fn new(file_path: String) -> (file: FileAttestation)
        ensures
            file@ == (FileView { file_path: file_path@, entries: Seq::empty() }),
    {
        let file = FileAttestation { file_path, entries: Vec::new() };
        assert(file@.entries =~= Seq::empty());
        file
    }

    /// Adds an entry at the end.
    pub fn add_entry(&mut self, entry: AttestationEntry)
        ensures
            final(self)@ == (FileView {
                file_path: old(self)@.file_path,
                entries: old(self)@.entries.push(entry@),
            }),
    {
        let ghost before = *self;
        self.entries.push(entry);
        assert(self@.entries =~= before@.entries.push(entry@));
    }
}

impl AuthorshipMetadata {
    /// Metadata without records.
    pub fn new() -> (metadata: AuthorshipMetadata)
        ensures
            metadata@ == empty_log().metadata,
    {
        let metadata = AuthorshipMetadata {
            base_commit_sha: String::new(),
            prompts: TextMap::new(),
            humans: TextMap::new(),
            sessions: TextMap::new(),
        };
        assert(metadata@ =~= empty_log().metadata);
        metadata
    }

    /// A copy of the metadata.
    pub fn duplicate(&self) -> (copy: AuthorshipMetadata)
        ensures
            copy@ == self@,
    {
        AuthorshipMetadata {
            base_commit_sha: self.base_commit_sha.clone(),
            prompts: self.prompts.duplicate(),
            humans: self.humans.duplicate(),
            sessions: self.sessions.duplicate(),
        }
    }
}

impl AuthorshipLog {
    /// A log that attests nothing.
    pub fn new() -> (log: AuthorshipLog)
        ensures
            log@ == empty_log(),
    {
        let log = AuthorshipLog { attestations: Vec::new(), metadata: AuthorshipMetadata::new() };
        assert(log@.files =~= Seq::empty());
        log
    }

    /// Finds the first file with a path, adding one at the end where there is none, and returns
    /// its position.
    pub fn get_or_create_file(&mut self, path: &String) -> (at: usize)
        ensures
            final(self)@ == (LogView { files: with_file(old(self)@.files, path@), ..old(self)@ }),
            final(self).metadata == old(self).metadata,
            at < final(self).attestations@.len(),
            file_at(final(self)@.files, path@, at as int),
    {
        let ghost before = *self;
        let mut at: usize = 0;
        while at < self.attestations.len()
            invariant
                *self == before,
                at <= self.attestations@.len(),
                forall|i: int| 0 <= i < at ==> (#[trigger] self@.files[i]).file_path != path@,
            decreases self.attestations@.len() - at,
        {
            assert(self@.files[at as int].file_path == self.attestations@[at as int].file_path@);
            if self.attestations[at].file_path == *path {
                return at;
            }
            at = at + 1;
        }
        self.attestations.push(FileAttestation::new(path.clone()));
        proof {
            assert(!has_file(before@.files, path@));
            assert(self@.files =~= with_file(before@.files, path@));
        }
        at
    }
}

impl Default for AuthorshipLog {
    /// A log that attests nothing.
    fn default() -> (log: AuthorshipLog)
        ensures
            log@ == empty_log(),
    {
        AuthorshipLog::new()
    }
}

} // verus!
