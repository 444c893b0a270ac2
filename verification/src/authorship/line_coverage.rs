//! Ranges in normal form, and the lines that a log covers.

use crate::authorship::authorship_log::{has_file, AuthorshipLog, EntryView, FileView};
use crate::authorship::line_range::{
    canonical, canonical_ranges, expand_all, lemma_ascending_runs_canonical,
    lemma_canonical_ranges, lemma_expand_all_lists_lines, lemma_lines_of_add, lemma_lines_of_push,
    lines_of, strictly_ascending, LineRange,
};
use crate::text_map::{lists, TextMap};
use vstd::prelude::*;

verus! {

/// Calls `slice::sort_unstable`, which puts the numbers in ascending order and keeps each as often
/// as it occurs.
#[verifier::external_body]
fn sort_unstable(lines: &mut Vec<u32>)
    ensures
        final(lines)@.to_multiset() == old(lines)@.to_multiset(),
        forall|i: int, j: int|
            0 <= i <= j < final(lines)@.len() ==> final(lines)@[i] <= final(lines)@[j],
{
    lines.sort_unstable();
}

/// Keeps the first of each run of equal numbers.
fn dedup(lines: &Vec<u32>) -> (distinct: Vec<u32>)
    requires
        forall|i: int, j: int| 0 <= i <= j < lines@.len() ==> lines@[i] <= lines@[j],
    ensures
        strictly_ascending(distinct@),
        forall|line: u32| distinct@.contains(line) <==> lines@.contains(line),
{
    let mut distinct: Vec<u32> = Vec::new();
    let mut next: usize = 0;
    while next < lines.len()
        invariant
            next <= lines@.len(),
            forall|i: int, j: int| 0 <= i <= j < lines@.len() ==> lines@[i] <= lines@[j],
            strictly_ascending(distinct@),
            next == 0 <==> distinct@.len() == 0,
            next > 0 ==> distinct@.last() == lines@[next - 1],
            forall|i: int| 0 <= i < distinct@.len() ==> lines@.contains(#[trigger] distinct@[i]),
            forall|i: int| 0 <= i < next ==> distinct@.contains(#[trigger] lines@[i]),
        decreases lines@.len() - next,
    {
        let line: u32 = lines[next];
        let ghost before = distinct@;
        if next == 0 || lines[next - 1] != line {
            distinct.push(line);
            proof {
                assert(distinct@[before.len() as int] == line);
                assert forall|i: int| 0 <= i < next implies distinct@.contains(
                    #[trigger] lines@[i],
                ) by {
                    let k = choose|k: int| 0 <= k < before.len() && before[k] == lines@[i];
                    assert(distinct@[k] == lines@[i]);
                }
                assert forall|i: int, j: int| 0 <= i < j < distinct@.len() implies distinct@[i]
                    < distinct@[j] by {
                    if j == before.len() {
                        assert(before[i] <= before.last());
                    }
                }
            }
        } else {
            assert(distinct@[distinct@.len() - 1] == line);
        }
        next = next + 1;
    }
    distinct
}

/// Writes lines as ranges in normal form.
pub(crate) fn ranges_of_lines(lines: Vec<u32>) -> (ranges: Vec<LineRange>)
    ensures
        canonical(ranges@),
        forall|line: int|
            lines_of(ranges@).contains(line) <==> 0 <= line <= u32::MAX && lines@.contains(
                line as u32,
            ),
{
    let ghost given = lines@;
    let mut lines: Vec<u32> = lines;
    sort_unstable(&mut lines);
    let distinct = dedup(&lines);
    let ranges = LineRange::compress_lines(distinct.as_slice());
    proof {
        lemma_ascending_runs_canonical(ranges@);
        assert forall|line: int|
            lines_of(ranges@).contains(line) <==> 0 <= line <= u32::MAX && given.contains(
                line as u32,
            ) by {
            lemma_expand_all_lists_lines(ranges@, line);
            given.to_multiset_ensures();
            lines@.to_multiset_ensures();
            assert(given.to_multiset().contains(line as u32) <==> given.contains(line as u32));
            assert(lines@.to_multiset().contains(line as u32) <==> lines@.contains(line as u32));
        }
    }
    ranges
}

/// Lists the lines of all ranges.
pub(crate) fn expand_ranges(ranges: &[LineRange]) -> (lines: Vec<u32>)
    ensures
        lines@ == expand_all(ranges@),
{
    let mut lines: Vec<u32> = Vec::new();
    let mut next: usize = 0;
    while next < ranges.len()
        invariant
            next <= ranges@.len(),
            lines@ == expand_all(ranges@.take(next as int)),
        decreases ranges@.len() - next,
    {
        let mut more = ranges[next].expand();
        lines.append(&mut more);
        proof {
            let longer = ranges@.take(next + 1);
            assert(longer.drop_last() =~= ranges@.take(next as int));
            assert(longer.last() == ranges@[next as int]);
        }
        next = next + 1;
    }
    assert(ranges@.take(next as int) =~= ranges@);
    lines
}

/// Writes ranges in normal form.
pub fn normalize_line_ranges(ranges: &[LineRange]) -> (normal: Vec<LineRange>)
    ensures
        canonical(normal@),
        lines_of(normal@) == lines_of(ranges@),
        normal@ == canonical_ranges(lines_of(ranges@)),
{
    let lines = expand_ranges(ranges);
    let normal = ranges_of_lines(lines);
    proof {
        assert forall|line: int| lines_of(normal@).contains(line) <==> lines_of(ranges@).contains(
            line,
        ) by {
            lemma_expand_all_lists_lines(ranges@, line);
        }
        assert(lines_of(normal@) =~= lines_of(ranges@));
        lemma_canonical_ranges(normal@);
    }
    normal
}

/// Takes the lines of one range out of each of the ranges.
fn remove_from_all(ranges: &Vec<LineRange>, covered: &LineRange) -> (remaining: Vec<LineRange>)
    ensures
        forall|line: int| #[trigger]
            lines_of(remaining@).contains(line) <==> lines_of(ranges@).contains(line)
                && !covered.holds(line),
{
    let mut remaining: Vec<LineRange> = Vec::new();
    let mut next: usize = 0;
    assert(lines_of(ranges@.take(0)) =~= Set::empty());
    assert(lines_of(remaining@) =~= Set::empty());
    while next < ranges.len()
        invariant
            next <= ranges@.len(),
            forall|line: int| #[trigger]
                lines_of(remaining@).contains(line) <==> lines_of(
                    ranges@.take(next as int),
                ).contains(line) && !covered.holds(line),
        decreases ranges@.len() - next,
    {
        let ghost before = remaining@;
        let mut parts = ranges[next].remove(covered);
        let ghost added = parts@;
        remaining.append(&mut parts);
        proof {
            let range = ranges@[next as int];
            lemma_lines_of_add(before, added);
            lemma_lines_of_push(ranges@.take(next as int), range);
            assert(ranges@.take(next + 1) =~= ranges@.take(next as int).push(range));
            assert(remaining@ == before + added);
            assert forall|line: int| #[trigger] lines_of(remaining@).contains(line) <==> lines_of(
                ranges@.take(next + 1),
            ).contains(line) && !covered.holds(line) by {
                assert(lines_of(ranges@.take(next as int).push(range)).contains(line) <==> lines_of(
                    ranges@.take(next as int),
                ).contains(line) || range.holds(line));
                assert(lines_of(before).contains(line) <==> lines_of(
                    ranges@.take(next as int),
                ).contains(line) && !covered.holds(line));
            }
        }
        next = next + 1;
    }
    assert(ranges@.take(next as int) =~= ranges@);
    remaining
}

/// Takes the covered lines out of ranges and writes what remains in normal form.
pub fn subtract_line_ranges(ranges: &[LineRange], covered: &[LineRange]) -> (remaining: Vec<
    LineRange,
>)
    ensures
        canonical(remaining@),
        lines_of(remaining@) == lines_of(ranges@).difference(lines_of(covered@)),
        remaining@ == canonical_ranges(lines_of(ranges@).difference(lines_of(covered@))),
{
    let mut remaining: Vec<LineRange> = Vec::new();
    let mut copied: usize = 0;
    while copied < ranges.len()
        invariant
            copied <= ranges@.len(),
            remaining@ =~= ranges@.take(copied as int),
        decreases ranges@.len() - copied,
    {
        remaining.push(ranges[copied]);
        copied = copied + 1;
    }
    assert(remaining@ =~= ranges@);
    let mut next: usize = 0;
    while next < covered.len()
        invariant
            next <= covered@.len(),
            forall|line: int| #[trigger]
                lines_of(remaining@).contains(line) <==> lines_of(ranges@).contains(line)
                    && !lines_of(covered@.take(next as int)).contains(line),
        decreases covered@.len() - next,
    {
        let ghost range = covered@[next as int];
        let ghost before = remaining@;
        remaining = remove_from_all(&remaining, &covered[next]);
        proof {
            lemma_lines_of_push(covered@.take(next as int), range);
            assert(covered@.take(next + 1) =~= covered@.take(next as int).push(range));
            assert forall|line: int| #[trigger] lines_of(remaining@).contains(line) <==> lines_of(
                ranges@,
            ).contains(line) && !lines_of(covered@.take(next + 1)).contains(line) by {
                assert(lines_of(before).contains(line) <==> lines_of(ranges@).contains(line)
                    && !lines_of(covered@.take(next as int)).contains(line));
                assert(lines_of(covered@.take(next as int).push(range)).contains(line)
                    <==> lines_of(covered@.take(next as int)).contains(line) || range.holds(line));
            }
        }
        next = next + 1;
    }
    assert(covered@.take(next as int) =~= covered@);
    assert(lines_of(remaining@) =~= lines_of(ranges@).difference(lines_of(covered@)));
    normalize_line_ranges(remaining.as_slice())
}

/// The lines that some entry holds.
pub open spec fn entries_lines(entries: Seq<EntryView>) -> Set<int> {
    Set::new(
        |line: int|
            exists|j: int|
                0 <= j < entries.len() && lines_of((#[trigger] entries[j]).line_ranges).contains(
                    line,
                ),
    )
}

/// The lines of a path that some file attests.
pub open spec fn covered_lines(files: Seq<FileView>, path: Seq<char>) -> Set<int> {
    Set::new(
        |line: int|
            exists|i: int|
                0 <= i < files.len() && (#[trigger] files[i]).file_path == path && entries_lines(
                    files[i].entries,
                ).contains(line),
    )
}

/// The lines of one more entry.
pub proof fn lemma_entries_lines_push(entries: Seq<EntryView>, entry: EntryView)
    ensures
        entries_lines(entries.push(entry)) == entries_lines(entries).union(
            lines_of(entry.line_ranges),
        ),
{
    let longer = entries.push(entry);
    let expected = entries_lines(entries).union(lines_of(entry.line_ranges));
    assert forall|line: int| entries_lines(longer).contains(line) <==> expected.contains(line) by {
        if entries_lines(longer).contains(line) {
            let j = choose|j: int|
                0 <= j < longer.len() && lines_of((#[trigger] longer[j]).line_ranges).contains(
                    line,
                );
            if j < entries.len() {
                assert(entries[j] == longer[j]);
            }
        }
        if entries_lines(entries).contains(line) {
            let j = choose|j: int|
                0 <= j < entries.len() && lines_of((#[trigger] entries[j]).line_ranges).contains(
                    line,
                );
            assert(longer[j] == entries[j]);
        }
        if lines_of(entry.line_ranges).contains(line) {
            assert(longer[entries.len() as int] == entry);
        }
    }
    assert(entries_lines(longer) =~= expected);
}

/// The lines that one more file covers.
pub proof fn lemma_covered_push(files: Seq<FileView>, file: FileView, path: Seq<char>)
    ensures
        covered_lines(files.push(file), path) == if file.file_path == path {
            covered_lines(files, path).union(entries_lines(file.entries))
        } else {
            covered_lines(files, path)
        },
        has_file(files.push(file), path) <==> has_file(files, path) || file.file_path == path,
{
    let longer = files.push(file);
    let expected = if file.file_path == path {
        covered_lines(files, path).union(entries_lines(file.entries))
    } else {
        covered_lines(files, path)
    };
    assert forall|line: int| covered_lines(longer, path).contains(line) <==> expected.contains(
        line,
    ) by {
        if covered_lines(longer, path).contains(line) {
            let i = choose|i: int|
                0 <= i < longer.len() && (#[trigger] longer[i]).file_path == path && entries_lines(
                    longer[i].entries,
                ).contains(line);
            if i < files.len() {
                assert(files[i] == longer[i]);
            }
        }
        if covered_lines(files, path).contains(line) {
            let i = choose|i: int|
                0 <= i < files.len() && (#[trigger] files[i]).file_path == path && entries_lines(
                    files[i].entries,
                ).contains(line);
            assert(longer[i] == files[i]);
        }
        if file.file_path == path && entries_lines(file.entries).contains(line) {
            assert(longer[files.len() as int] == file);
        }
    }
    assert(covered_lines(longer, path) =~= expected);
    if has_file(files, path) {
        let i = choose|i: int| 0 <= i < files.len() && (#[trigger] files[i]).file_path == path;
        assert(longer[i].file_path == path);
    }
    if file.file_path == path {
        assert(longer[files.len() as int].file_path == path);
    }
    if has_file(longer, path) {
        let i = choose|i: int| 0 <= i < longer.len() && (#[trigger] longer[i]).file_path == path;
        if i < files.len() {
            assert(files[i].file_path == path);
        }
    }
}

/// A copy of a list of ranges.
pub(crate) fn copy_ranges(ranges: &Vec<LineRange>) -> (copy: Vec<LineRange>)
    ensures
        copy@ == ranges@,
{
    let mut copy: Vec<LineRange> = Vec::new();
    let mut next: usize = 0;
    while next < ranges.len()
        invariant
            next <= ranges@.len(),
            copy@ =~= ranges@.take(next as int),
        decreases ranges@.len() - next,
    {
        copy.push(ranges[next]);
        next = next + 1;
    }
    assert(copy@ =~= ranges@);
    copy
}

/// Whether `coverage` lists, for each path of the files, the covered lines in normal form.
pub open spec fn is_coverage(
    coverage: Map<Seq<char>, Vec<LineRange>>,
    files: Seq<FileView>,
) -> bool {
    &&& forall|path: Seq<char>| #[trigger] coverage.contains_key(path) <==> has_file(files, path)
    &&& forall|path: Seq<char>| #[trigger]
        coverage.contains_key(path) ==> canonical(coverage[path]@) && coverage[path]@
            == canonical_ranges(covered_lines(files, path)) && lines_of(coverage[path]@)
            == covered_lines(files, path)
}

/// Lists the covered lines of each file of a log.
pub fn line_coverage_by_file(log: &AuthorshipLog) -> (coverage: TextMap<Vec<LineRange>>)
    ensures
        is_coverage(coverage@, log@.files),
{
    let ghost files = log@.files;
    let mut listed: TextMap<Vec<LineRange>> = TextMap::new();
    let mut next: usize = 0;
    assert forall|path: Seq<char>| !#[trigger] has_file(files.take(0), path) by {}
    while next < log.attestations.len()
        invariant
            files == log@.files,
            next <= log.attestations@.len(),
            forall|path: Seq<char>| #[trigger]
                listed@.contains_key(path) <==> has_file(files.take(next as int), path),
            forall|path: Seq<char>| #[trigger]
                listed@.contains_key(path) ==> lines_of(listed@[path]@) == covered_lines(
                    files.take(next as int),
                    path,
                ),
        decreases log.attestations@.len() - next,
    {
        let attestation = &log.attestations[next];
        let ghost file = files[next as int];
        let ghost seen = files.take(next as int);
        let ghost before = listed@;
        assert(file == attestation@);
        let mut ranges: Vec<LineRange> = match listed.remove(&attestation.file_path) {
            Some(ranges) => ranges,
            None => Vec::new(),
        };
        let ghost known = covered_lines(seen, file.file_path);
        proof {
            if !before.contains_key(file.file_path) {
                assert(lines_of(ranges@) =~= Set::empty());
                assert(known =~= Set::empty()) by {
                    assert(!has_file(seen, file.file_path));
                }
            }
            assert(entries_lines(file.entries.take(0)) =~= Set::empty());
            assert(known.union(entries_lines(file.entries.take(0))) =~= known);
        }
        let mut at: usize = 0;
        while at < attestation.entries.len()
            invariant
                file == attestation@,
                at <= attestation.entries@.len(),
                lines_of(ranges@) == known.union(entries_lines(file.entries.take(at as int))),
            decreases attestation.entries@.len() - at,
        {
            let ghost entry = file.entries[at as int];
            let ghost so_far = ranges@;
            let mut more = copy_ranges(&attestation.entries[at].line_ranges);
            let ghost added = more@;
            ranges.append(&mut more);
            proof {
                assert(entry == attestation.entries@[at as int]@);
                lemma_lines_of_add(so_far, added);
                lemma_entries_lines_push(file.entries.take(at as int), entry);
                assert(file.entries.take(at + 1) =~= file.entries.take(at as int).push(entry));
                assert(lines_of(ranges@) =~= known.union(
                    entries_lines(file.entries.take(at + 1)),
                ));
            }
            at = at + 1;
        }
        assert(file.entries.take(at as int) =~= file.entries);
        let ghost collected = ranges;
        listed.insert(attestation.file_path.clone(), ranges);
        proof {
            assert(files.take(next + 1) =~= seen.push(file));
            assert forall|path: Seq<char>| #[trigger] listed@.contains_key(path) <==> has_file(
                files.take(next + 1),
                path,
            ) by {
                lemma_covered_push(seen, file, path);
                assert(before.contains_key(path) <==> has_file(seen, path));
            }
            assert forall|path: Seq<char>| #[trigger] listed@.contains_key(path) implies lines_of(
                listed@[path]@,
            ) == covered_lines(files.take(next + 1), path) by {
                lemma_covered_push(seen, file, path);
                if path != file.file_path {
                    assert(before.contains_key(path));
                }
            }
        }
        next = next + 1;
    }
    assert(files.take(next as int) =~= files);
    let mut coverage: TextMap<Vec<LineRange>> = TextMap::new();
    let count: usize = listed.len();
    let mut position: usize = 0;
    while position < count
        invariant
            position <= count,
            count == listed.pairs().len(),
            lists(listed.pairs(), listed@),
            forall|path: Seq<char>| #[trigger]
                listed@.contains_key(path) <==> has_file(files, path),
            forall|path: Seq<char>| #[trigger]
                listed@.contains_key(path) ==> lines_of(listed@[path]@) == covered_lines(
                    files,
                    path,
                ),
            forall|path: Seq<char>| #[trigger]
                coverage@.contains_key(path) <==> exists|i: int|
                    0 <= i < position && (#[trigger] listed.pairs()[i]).0 == path,
            forall|path: Seq<char>| #[trigger]
                coverage@.contains_key(path) ==> canonical(coverage@[path]@) && coverage@[path]@
                    == canonical_ranges(covered_lines(files, path)) && lines_of(coverage@[path]@)
                    == covered_lines(files, path),
        decreases count - position,
    {
        let ghost before = coverage@;
        let ghost pair = listed.pairs()[position as int];
        assert(listed@.contains_key(pair.0));
        let normal = normalize_line_ranges(listed.value_at(position).as_slice());
        coverage.insert(listed.key_at(position).clone(), normal);
        position = position + 1;
        proof {
            assert forall|path: Seq<char>| #[trigger] coverage@.contains_key(path) <==> exists|
                i: int,
            | 0 <= i < position && (#[trigger] listed.pairs()[i]).0 == path by {
                if before.contains_key(path) {
                    let i = choose|i: int|
                        0 <= i < position - 1 && (#[trigger] listed.pairs()[i]).0 == path;
                    assert(listed.pairs()[i].0 == path);
                }
                if path == pair.0 {
                    assert(listed.pairs()[position - 1].0 == path);
                }
                if exists|i: int| 0 <= i < position && (#[trigger] listed.pairs()[i]).0 == path {
                    let i = choose|i: int|
                        0 <= i < position && (#[trigger] listed.pairs()[i]).0 == path;
                    if i < position - 1 {
                        assert(before.contains_key(path));
                    }
                }
            }
            assert forall|path: Seq<char>| #[trigger] coverage@.contains_key(path) implies canonical(
                coverage@[path]@,
            ) && coverage@[path]@ == canonical_ranges(covered_lines(files, path)) && lines_of(
                coverage@[path]@,
            ) == covered_lines(files, path) by {
                if path != pair.0 {
                    assert(before.contains_key(path));
                }
            }
        }
    }
    proof {
        assert forall|path: Seq<char>| #[trigger] coverage@.contains_key(path) <==> has_file(
            files,
            path,
        ) by {
            assert(listed@.contains_key(path) <==> has_file(files, path));
        }
    }
    coverage
}

} // verus!
