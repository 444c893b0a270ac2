use git_ai::authorship::authorship_log::{
    AttestationEntry, AuthorshipLog, AuthorshipMetadata, FileAttestation,
};
use git_ai::authorship::conflict_resolution::{
    filter_resolution_log_to_uncovered_lines, merge_conflict_resolution_authorship,
    recover_exact_source_lines_from_mapping, SourceCommit,
};
use git_ai::authorship::line_coverage::{
    line_coverage_by_file, normalize_line_ranges, subtract_line_ranges,
};
use git_ai::authorship::line_mapping::{
    comparable_lines, equal_line_mapping_between_commits, DiffOp,
};
use git_ai::authorship::line_range::LineRange;
use git_ai::authorship::log_merge::{merge_authorship_metadata, merge_file_attestations};
use git_ai::authorship::metadata_references::{
    attestation_metadata_key, retain_referenced_metadata,
};
use git_ai::text_map::TextMap;

fn entry(hash: &str, ranges: &[LineRange]) -> AttestationEntry {
    AttestationEntry::new(hash.to_string(), ranges.to_vec())
}

fn file(path: &str, entries: Vec<AttestationEntry>) -> FileAttestation {
    let mut file = FileAttestation::new(path.to_string());
    for entry in entries {
        file.add_entry(entry);
    }
    file
}

fn map(records: &[(&str, &str)]) -> TextMap<String> {
    let mut map = TextMap::new();
    for (key, record) in records {
        map.insert(key.to_string(), record.to_string());
    }
    map
}

fn log(files: Vec<FileAttestation>) -> AuthorshipLog {
    AuthorshipLog {
        attestations: files,
        metadata: AuthorshipMetadata::new(),
    }
}

fn record<'a>(map: &'a TextMap<String>, key: &str) -> Option<&'a str> {
    map.get(&key.to_string()).map(String::as_str)
}

/// The attestations as plain values.
fn shape(log: &AuthorshipLog) -> Vec<(String, Vec<(String, Vec<LineRange>)>)> {
    log.attestations
        .iter()
        .map(|file| {
            (
                file.file_path.clone(),
                file.entries
                    .iter()
                    .map(|entry| (entry.hash.clone(), entry.line_ranges.clone()))
                    .collect(),
            )
        })
        .collect()
}

fn expected(files: &[(&str, &[(&str, &[LineRange])])]) -> Vec<(String, Vec<(String, Vec<LineRange>)>)> {
    files
        .iter()
        .map(|(path, entries)| {
            (
                path.to_string(),
                entries
                    .iter()
                    .map(|(hash, ranges)| (hash.to_string(), ranges.to_vec()))
                    .collect(),
            )
        })
        .collect()
}

const fn one(line: u32) -> LineRange {
    LineRange::Single(line)
}

const fn to(first: u32, last: u32) -> LineRange {
    LineRange::Range(first, last)
}

#[test]
fn normal_form_joins_and_sorts() {
    let ranges = [to(5, 7), one(1), one(8), to(2, 2)];
    assert_eq!(normalize_line_ranges(&ranges), vec![to(1, 2), to(5, 8)]);
}

#[test]
fn normal_form_of_unsorted_and_repeated_lines() {
    let ranges = [one(9), one(3), one(9), to(1, 3), to(7, 6)];
    let normal = normalize_line_ranges(&ranges);
    assert_eq!(normal, vec![to(1, 3), one(9)]);
    assert_eq!(normalize_line_ranges(&normal), normal);
    assert!(normalize_line_ranges(&[]).is_empty());
    assert_eq!(
        normalize_line_ranges(&[one(u32::MAX), one(0), one(u32::MAX - 1)]),
        vec![one(0), to(u32::MAX - 1, u32::MAX)]
    );
}

#[test]
fn ranges_expand_and_compress() {
    assert_eq!(to(3, 5).expand(), vec![3, 4, 5]);
    assert_eq!(one(7).expand(), vec![7]);
    assert!(to(5, 3).expand().is_empty());
    assert_eq!(
        LineRange::compress_lines(&[1, 2, 3, 7, 9, 10]),
        vec![to(1, 3), one(7), to(9, 10)]
    );
}

#[test]
fn removing_a_range_leaves_both_sides() {
    assert_eq!(to(1, 9).remove(&to(4, 6)), vec![to(1, 3), to(7, 9)]);
    assert_eq!(to(1, 3).remove(&one(2)), vec![one(1), one(3)]);
    assert_eq!(to(1, 3).remove(&to(5, 8)), vec![to(1, 3)]);
    assert!(to(2, 3).remove(&to(1, 9)).is_empty());
}

#[test]
fn subtraction_takes_out_covered_lines() {
    assert_eq!(
        subtract_line_ranges(&[to(1, 10), one(20)], &[to(3, 4), one(20), to(9, 15)]),
        vec![to(1, 2), to(5, 8)]
    );
    assert_eq!(
        subtract_line_ranges(&[one(2), one(1)], &[]),
        vec![to(1, 2)]
    );
    assert!(subtract_line_ranges(&[to(1, 2)], &[to(1, 2), one(5)]).is_empty());
}

#[test]
fn coverage_joins_the_attestations_of_a_file() {
    let log = log(vec![
        file("a", vec![entry("x", &[to(1, 2)]), entry("y", &[one(3)])]),
        file("b", vec![]),
        file("a", vec![entry("z", &[one(10)])]),
    ]);
    let coverage = line_coverage_by_file(&log);
    assert_eq!(coverage.get(&"a".to_string()), Some(&vec![to(1, 3), one(10)]));
    assert_eq!(coverage.get(&"b".to_string()), Some(&vec![]));
    assert_eq!(coverage.get(&"c".to_string()), None);
}

#[test]
fn metadata_key_ends_before_the_colons() {
    assert_eq!(attestation_metadata_key("s_1::t_2::x"), "s_1");
    assert_eq!(attestation_metadata_key("plain"), "plain");
    assert_eq!(attestation_metadata_key("one:colon"), "one:colon");
    assert_eq!(attestation_metadata_key("::rest"), "");
    assert_eq!(attestation_metadata_key(""), "");
}

#[test]
fn unreferenced_records_are_dropped() {
    let mut log = log(vec![file(
        "a",
        vec![
            entry("h_1", &[one(1)]),
            entry("s_1::t_1", &[one(2)]),
            entry("p1", &[one(3)]),
        ],
    )]);
    log.metadata.humans = map(&[("h_1", "human"), ("h_2", "other")]);
    log.metadata.sessions = map(&[("s_1", "session"), ("s_1::t_1", "other"), ("p1", "other")]);
    log.metadata.prompts = map(&[("p1", "prompt"), ("h_1", "other")]);
    retain_referenced_metadata(&mut log);
    assert_eq!(record(&log.metadata.humans, "h_1"), Some("human"));
    assert_eq!(record(&log.metadata.humans, "h_2"), None);
    assert_eq!(record(&log.metadata.sessions, "s_1"), Some("session"));
    assert_eq!(log.metadata.sessions.len(), 1);
    assert_eq!(record(&log.metadata.prompts, "p1"), Some("prompt"));
    assert_eq!(log.metadata.prompts.len(), 1);
}

#[test]
fn filter_keeps_what_is_not_covered() {
    let shifted = log(vec![file("a", vec![entry("x", &[to(1, 5)])])]);
    let mut resolution = log(vec![
        file("a", vec![entry("h_1", &[to(4, 7)]), entry("p1", &[to(2, 3)])]),
        file("b", vec![entry("p2", &[one(1)])]),
        file("c", vec![]),
    ]);
    resolution.metadata.prompts = map(&[("p1", "covered"), ("p2", "kept")]);
    let filtered = filter_resolution_log_to_uncovered_lines(resolution, &shifted);
    assert_eq!(
        shape(&filtered),
        expected(&[
            ("a", &[("h_1", &[to(6, 7)])]),
            ("b", &[("p2", &[one(1)])]),
        ])
    );
    assert_eq!(record(&filtered.metadata.prompts, "p1"), None);
    assert_eq!(record(&filtered.metadata.prompts, "p2"), Some("kept"));
}

#[test]
fn merge_joins_entries_of_one_hash() {
    let mut target = log(vec![file("a", vec![entry("x", &[one(5)])])]);
    let source = log(vec![
        file("a", vec![entry("x", &[to(3, 4)]), entry("y", &[one(9), one(8)])]),
        file("b", vec![entry("x", &[one(1)])]),
        file("c", vec![]),
    ]);
    merge_file_attestations(&mut target, &source);
    assert_eq!(
        shape(&target),
        expected(&[
            ("a", &[("x", &[to(3, 5)]), ("y", &[to(8, 9)])]),
            ("b", &[("x", &[one(1)])]),
            ("c", &[]),
        ])
    );
}

#[test]
fn merge_keeps_the_records_of_the_target() {
    let mut target = log(vec![]);
    target.metadata.prompts = map(&[("p1", "old")]);
    let mut source = log(vec![]);
    source.metadata.prompts = map(&[("p1", "new"), ("p2", "new")]);
    source.metadata.humans = map(&[("h_1", "human")]);
    source.metadata.sessions = map(&[("s_1", "session")]);
    merge_authorship_metadata(&mut target, &source);
    assert_eq!(record(&target.metadata.prompts, "p1"), Some("old"));
    assert_eq!(record(&target.metadata.prompts, "p2"), Some("new"));
    assert_eq!(record(&target.metadata.humans, "h_1"), Some("human"));
    assert_eq!(record(&target.metadata.sessions, "s_1"), Some("session"));
}

#[test]
fn lines_are_compared_where_both_versions_are_text() {
    let text = |text: &str| Some(text.as_bytes().to_vec());
    let (source, destination) =
        comparable_lines(text("a\r\nä\n\nend"), text("one\n")).unwrap();
    assert_eq!(source, vec!["a", "ä", "", "end"]);
    assert_eq!(destination, vec!["one"]);
    assert!(comparable_lines(None, text("x")).is_none());
    assert!(comparable_lines(text("x"), None).is_none());
    assert!(comparable_lines(Some(vec![0xff, 0xfe]), text("x")).is_none());
    assert!(comparable_lines(text("x"), Some(vec![0xc3])).is_none());
}

#[test]
fn equal_lines_are_mapped() {
    let ops = vec![
        DiffOp::Equal {
            old_index: 0,
            new_index: 0,
            len: 2,
        },
        DiffOp::Insert {
            old_index: 2,
            new_index: 2,
            new_len: 3,
        },
        DiffOp::Delete {
            old_index: 2,
            old_len: 1,
            new_index: 5,
        },
        DiffOp::Replace {
            old_index: 3,
            old_len: 1,
            new_index: 5,
            new_len: 1,
        },
        DiffOp::Equal {
            old_index: 4,
            new_index: 6,
            len: 1,
        },
    ];
    let mapping = equal_line_mapping_between_commits(&ops);
    let mut pairs: Vec<(u32, u32)> = mapping.into_iter().collect();
    pairs.sort();
    assert_eq!(pairs, vec![(1, 1), (2, 2), (5, 7)]);
    assert!(equal_line_mapping_between_commits(&vec![]).is_empty());
}

fn moved_down(lines: usize, by: usize) -> Option<Vec<DiffOp>> {
    Some(vec![DiffOp::Equal {
        old_index: 0,
        new_index: by,
        len: lines,
    }])
}

#[test]
fn recovery_carries_over_uncovered_lines() {
    let mut target = log(vec![file("a", vec![entry("x", &[one(12)])])]);
    let mut source = log(vec![
        file("a", vec![entry("p1", &[to(1, 3)]), entry("p2", &[to(3, 4)])]),
        file("b", vec![entry("p3", &[one(1)])]),
    ]);
    source.metadata.prompts = map(&[("p1", "one"), ("p2", "two"), ("p3", "three")]);
    recover_exact_source_lines_from_mapping(
        &mut target,
        &source,
        &vec![moved_down(5, 10), None],
    );
    // Line 12 was covered; line 13 goes to the first entry that carries it.
    assert_eq!(
        shape(&target),
        expected(&[(
            "a",
            &[
                ("x", &[one(12)]),
                ("p1", &[one(11), one(13)]),
                ("p2", &[one(14)]),
            ]
        )])
    );
    assert_eq!(record(&target.metadata.prompts, "p1"), Some("one"));
    assert_eq!(record(&target.metadata.prompts, "p2"), Some("two"));
    assert_eq!(record(&target.metadata.prompts, "p3"), None);
}

#[test]
fn resolution_comes_after_shifted_and_source_lines() {
    let mut shifted = log(vec![file("a", vec![entry("p1", &[one(1)])])]);
    shifted.metadata.prompts = map(&[("p1", "shifted")]);
    shifted.metadata.base_commit_sha = "old".to_string();
    let mut source = log(vec![file("a", vec![entry("p2", &[to(1, 2)])])]);
    source.metadata.prompts = map(&[("p1", "source"), ("p2", "source")]);
    let second = log(vec![file("a", vec![entry("p4", &[to(1, 3)])])]);
    let mut resolution = log(vec![file(
        "a",
        vec![entry("h_1", &[to(1, 4)]), entry("p2", &[one(2)])],
    )]);
    resolution.metadata.humans = map(&[("h_1", "human")]);
    resolution.metadata.prompts = map(&[("p2", "resolution")]);
    let sources = vec![
        SourceCommit {
            log: Some(source),
            diffs: vec![moved_down(2, 0)],
        },
        SourceCommit {
            log: None,
            diffs: vec![],
        },
        SourceCommit {
            log: Some(second),
            diffs: vec![moved_down(3, 0)],
        },
    ];
    let merged =
        merge_conflict_resolution_authorship(Some(shifted), resolution, &sources, "commit");
    assert_eq!(
        shape(&merged),
        expected(&[(
            "a",
            &[
                ("p1", &[one(1)]),
                ("p2", &[one(2)]),
                ("p4", &[one(3)]),
                ("h_1", &[one(4)]),
            ]
        )])
    );
    assert_eq!(merged.metadata.base_commit_sha, "commit");
    assert_eq!(record(&merged.metadata.prompts, "p1"), Some("shifted"));
    assert_eq!(record(&merged.metadata.prompts, "p2"), Some("source"));
    assert_eq!(record(&merged.metadata.humans, "h_1"), Some("human"));
}

#[test]
fn repeating_changes_nothing() {
    let source = || {
        log(vec![
            file("a", vec![entry("x", &[one(4), one(3)]), entry("x", &[one(9)])]),
            file("b", vec![]),
        ])
    };
    let mut target = log(vec![file("a", vec![entry("x", &[one(5)])])]);
    merge_file_attestations(&mut target, &source());
    let once = shape(&target);
    merge_file_attestations(&mut target, &source());
    assert_eq!(shape(&target), once);

    let mut target = log(vec![file("a", vec![entry("x", &[one(12)])])]);
    let diffs = vec![moved_down(10, 10), None];
    recover_exact_source_lines_from_mapping(&mut target, &source(), &diffs);
    let once = shape(&target);
    recover_exact_source_lines_from_mapping(&mut target, &source(), &diffs);
    assert_eq!(shape(&target), once);

    let sources = || {
        vec![SourceCommit {
            log: Some(source()),
            diffs: vec![moved_down(10, 10), None],
        }]
    };
    let resolution = || log(vec![file("a", vec![entry("h_1", &[to(1, 15)])])]);
    let merged = merge_conflict_resolution_authorship(None, resolution(), &sources(), "commit");
    let once = shape(&merged);
    let again =
        merge_conflict_resolution_authorship(Some(merged), resolution(), &sources(), "commit");
    assert_eq!(shape(&again), once);
}

#[test]
fn first_entry_of_the_earliest_source_gets_a_line() {
    let source = |entries| SourceCommit {
        log: Some(log(vec![file("a", entries)])),
        diffs: vec![moved_down(5, 0)],
    };
    let sources = vec![
        source(vec![entry("p1", &[one(1)])]),
        source(vec![entry("p2", &[to(1, 2)]), entry("p3", &[to(1, 2)])]),
        source(vec![entry("p4", &[to(1, 3)])]),
    ];
    let merged = merge_conflict_resolution_authorship(None, log(vec![]), &sources, "commit");
    assert_eq!(
        shape(&merged),
        expected(&[(
            "a",
            &[("p1", &[one(1)]), ("p2", &[one(2)]), ("p4", &[one(3)])]
        )])
    );
}

#[test]
fn resolution_alone_is_normalized() {
    let resolution = log(vec![file("a", vec![entry("h_1", &[one(2), one(1)])])]);
    let merged = merge_conflict_resolution_authorship(None, resolution, &vec![], "commit");
    assert_eq!(shape(&merged), expected(&[("a", &[("h_1", &[to(1, 2)])])]));
    assert_eq!(merged.metadata.base_commit_sha, "commit");
}
