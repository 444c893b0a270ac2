//! Following the unchanged lines of a file from one commit to another.

use crate::text::{split_lines, text_lines};
use std::collections::HashMap;
use vstd::prelude::*;
use vstd::utf8::{decode_utf8, valid_utf8};

verus! {

broadcast use vstd::std_specs::hash::group_hash_axioms;

/// One step of the difference between two lists of lines. Positions count from zero.
#[derive(Debug, Clone, Copy, PartialEq, Eq, Structural)]
pub enum DiffOp {
    Equal { old_index: usize, new_index: usize, len: usize },
    Delete { old_index: usize, old_len: usize, new_index: usize },
    Insert { old_index: usize, new_index: usize, new_len: usize },
    Replace { old_index: usize, old_len: usize, new_index: usize, new_len: usize },
}

impl DiffOp {
    /// Whether the positions of equal lines fit in the machine's numbers.
    pub open spec fn fits(self) -> bool {
        self matches DiffOp::Equal { old_index, new_index, len } ==> old_index + len <= usize::MAX
            && new_index + len <= usize::MAX
    }
}

/// A mapping extended by a run of `len` equal lines.
pub open spec fn map_run(
    mapping: Map<u32, u32>,
    old_index: usize,
    new_index: usize,
    len: nat,
) -> Map<u32, u32>
    decreases len,
{
    if len == 0 {
        mapping
    } else {
        map_run(mapping, old_index, new_index, (len - 1) as nat).insert(
            (old_index + len) as u32,
            (new_index + len) as u32,
        )
    }
}

/// Where the equal lines of a difference stand: from the line number in the old list to that in
/// the new one. Line numbers count from one. A later step prevails over an earlier one.
pub open spec fn line_mapping(ops: Seq<DiffOp>) -> Map<u32, u32>
    decreases ops.len(),
{
    if ops.len() == 0 {
        Map::empty()
    } else {
        match ops.last() {
            DiffOp::Equal { old_index, new_index, len } => map_run(
                line_mapping(ops.drop_last()),
                old_index,
                new_index,
                len as nat,
            ),
            _ => line_mapping(ops.drop_last()),
        }
    }
}

/// Calls `String::from_utf8`. Bytes that are no UTF-8 have no text.
#[verifier::external_body]
fn from_utf8(bytes: Vec<u8>) -> (text: Option<String>)
    ensures
        text is Some <==> valid_utf8(bytes@),
        text matches Some(decoded) ==> decoded@ == decode_utf8(bytes@),
{
    String::from_utf8(bytes).ok()
}

/// The lines of a file's content, where it could be read and is text.
pub open spec fn content_lines(content: Option<Seq<u8>>) -> Option<Seq<Seq<char>>> {
    match content {
        Some(bytes) => if valid_utf8(bytes) {
            Some(text_lines(decode_utf8(bytes)))
        } else {
            None
        },
        None => None,
    }
}

/// The contents of an optional list of bytes.
pub open spec fn bytes_view(content: Option<Vec<u8>>) -> Option<Seq<u8>> {
    match content {
        Some(bytes) => Some(bytes@),
        None => None,
    }
}

/// The lines of the two versions of a file that are to be compared. There is nothing to compare
/// unless both could be read and are text.
pub fn comparable_lines(
    source_content: Option<Vec<u8>>,
    destination_content: Option<Vec<u8>>,
) -> (lines: Option<(Vec<String>, Vec<String>)>)
    ensures
        match lines {
            Some((source, destination)) => content_lines(bytes_view(source_content)) == Some(
                source@.map_values(|line: String| line@),
            ) && content_lines(bytes_view(destination_content)) == Some(
                destination@.map_values(|line: String| line@),
            ),
            None => content_lines(bytes_view(source_content)) is None || content_lines(
                bytes_view(destination_content),
            ) is None,
        },
{
    let source = match source_content {
        Some(bytes) => match from_utf8(bytes) {
            Some(text) => text,
            None => {
                return None;
            },
        },
        None => {
            return None;
        },
    };
    let destination = match destination_content {
        Some(bytes) => match from_utf8(bytes) {
            Some(text) => text,
            None => {
                return None;
            },
        },
        None => {
            return None;
        },
    };
    Some((split_lines(source.as_str()), split_lines(destination.as_str())))
}

/// Maps each line of the source version that the difference keeps to its line in the destination.
pub fn equal_line_mapping_between_commits(diff_ops: &Vec<DiffOp>) -> (mapping: HashMap<u32, u32>)
    requires
        forall|i: int| 0 <= i < diff_ops@.len() ==> (#[trigger] diff_ops@[i]).fits(),
    ensures
        mapping@ == line_mapping(diff_ops@),
{
    let mut mapping: HashMap<u32, u32> = HashMap::new();
    let mut next: usize = 0;
    assert(mapping@ =~= line_mapping(diff_ops@.take(0)));
    while next < diff_ops.len()
        invariant
            next <= diff_ops@.len(),
            forall|i: int| 0 <= i < diff_ops@.len() ==> (#[trigger] diff_ops@[i]).fits(),
            mapping@ == line_mapping(diff_ops@.take(next as int)),
        decreases diff_ops@.len() - next,
    {
        let op: DiffOp = diff_ops[next];
        let ghost before = mapping@;
        proof {
            assert(diff_ops@[next as int].fits());
            let longer = diff_ops@.take(next + 1);
            assert(longer.drop_last() =~= diff_ops@.take(next as int));
            assert(longer.last() == op);
        }
        if let DiffOp::Equal { old_index, new_index, len } = op {
            let mut offset: usize = 0;
            while offset < len
                invariant
                    offset <= len,
                    old_index + len <= usize::MAX,
                    new_index + len <= usize::MAX,
                    mapping@ == map_run(before, old_index, new_index, offset as nat),
                decreases len - offset,
            {
                mapping.insert(
                    #[verifier::truncate] ((old_index + offset + 1) as u32),
                    #[verifier::truncate] ((new_index + offset + 1) as u32),
                );
                offset = offset + 1;
            }
        }
        next = next + 1;
    }
    assert(diff_ops@.take(next as int) =~= diff_ops@);
    mapping
}

/// Whether a step keeps the line `from` of the old list as the line `to` of the new one.
pub open spec fn keeps_line(op: DiffOp, offset: int, from: u32, to: u32) -> bool {
    op matches DiffOp::Equal { old_index, new_index, len } && 0 <= offset < len && from == (
    old_index + offset + 1) as u32 && to == (new_index + offset + 1) as u32
}

/// Whether some step keeps the line `from` as the line `to`.
pub open spec fn some_step_keeps(ops: Seq<DiffOp>, from: u32, to: u32) -> bool {
    exists|k: int, offset: int|
        0 <= k < ops.len() && #[trigger] keeps_line(ops[k], offset, from, to)
}

proof fn lemma_run(
    mapping: Map<u32, u32>,
    old_index: usize,
    new_index: usize,
    len: nat,
    from: u32,
)
    ensures
        ({
            let extended = map_run(mapping, old_index, new_index, len);
            &&& extended.contains_key(from) <==> mapping.contains_key(from) || exists|offset: int|
                0 <= offset < len && from == #[trigger] ((old_index + offset + 1) as u32)
            &&& extended.contains_key(from) ==> (mapping.contains_key(from) && extended[from]
                == mapping[from]) || exists|offset: int|
                0 <= offset < len && from == #[trigger] ((old_index + offset + 1) as u32)
                    && extended[from] == (new_index + offset + 1) as u32
        }),
    decreases len,
{
    if len > 0 {
        lemma_run(mapping, old_index, new_index, (len - 1) as nat, from);
        assert((old_index + (len - 1) + 1) as u32 == (old_index + len) as u32);
        assert((new_index + (len - 1) + 1) as u32 == (new_index + len) as u32);
    }
}

/// A line is mapped exactly when some step keeps it, and then to where a step keeps it.
pub proof fn law_mapping_follows_kept_lines(ops: Seq<DiffOp>, from: u32)
    ensures
        line_mapping(ops).contains_key(from) <==> exists|to: u32| #[trigger]
            some_step_keeps(ops, from, to),
        line_mapping(ops).contains_key(from) ==> some_step_keeps(
            ops,
            from,
            line_mapping(ops)[from],
        ),
    decreases ops.len(),
{
    if ops.len() > 0 {
        let rest = ops.drop_last();
        let last = ops.len() - 1;
        law_mapping_follows_kept_lines(rest, from);
        let mapping = line_mapping(ops);
        assert forall|to: u32| #[trigger] some_step_keeps(rest, from, to) implies some_step_keeps(
            ops,
            from,
            to,
        ) by {
            let (k, offset) = choose|k: int, offset: int|
                0 <= k < rest.len() && #[trigger] keeps_line(rest[k], offset, from, to);
            assert(keeps_line(ops[k], offset, from, to));
        }
        if let DiffOp::Equal { old_index, new_index, len } = ops[last] {
            lemma_run(line_mapping(rest), old_index, new_index, len as nat, from);
            if exists|offset: int|
                0 <= offset < len && from == #[trigger] ((old_index + offset + 1) as u32)
                    && mapping[from] == (new_index + offset + 1) as u32 {
                let offset = choose|offset: int|
                    0 <= offset < len && from == #[trigger] ((old_index + offset + 1) as u32)
                        && mapping[from] == (new_index + offset + 1) as u32;
                assert(keeps_line(ops[last], offset, from, mapping[from]));
                assert(some_step_keeps(ops, from, mapping[from]));
            }
        }
        assert(mapping.contains_key(from) ==> some_step_keeps(ops, from, mapping[from]));
        if exists|to: u32| #[trigger] some_step_keeps(ops, from, to) {
            let to = choose|to: u32| #[trigger] some_step_keeps(ops, from, to);
            let (k, offset) = choose|k: int, offset: int|
                0 <= k < ops.len() && #[trigger] keeps_line(ops[k], offset, from, to);
            if k < last {
                assert(keeps_line(rest[k], offset, from, to));
                assert(some_step_keeps(rest, from, to));
            }
            assert(mapping.contains_key(from));
        }
    }
}

} // verus!
