//! Line ranges: line numbers of a file, written as single lines and inclusive ranges.

use vstd::prelude::*;

verus! {

/// A single line or an inclusive range of lines.
#[derive(Debug, Clone, Copy, PartialEq, Eq, Structural)]
pub enum LineRange {
    Single(u32),
    /// First and last line, both included. It holds no line when the first exceeds the last.
    Range(u32, u32),
}

/// The lines that some range of `ranges` holds.
pub open spec fn lines_of(ranges: Seq<LineRange>) -> Set<int> {
    Set::new(|line: int| exists|i: int| 0 <= i < ranges.len() && #[trigger] ranges[i].holds(line))
}

/// The lines of all ranges one after the other, in the order in which they are written.
pub open spec fn expand_all(ranges: Seq<LineRange>) -> Seq<u32>
    decreases ranges.len(),
{
    if ranges.len() == 0 {
        Seq::empty()
    } else {
        expand_all(ranges.drop_last()) + ranges.last().expansion()
    }
}

/// Whether the ranges are written in their one normal form: ascending, with at least one line
/// left out between neighbours, and a range of one line written as a single line.
pub open spec fn canonical(ranges: Seq<LineRange>) -> bool {
    &&& forall|i: int| 0 <= i < ranges.len() ==> (#[trigger] ranges[i]).proper()
    &&& forall|i: int, j: int|
        0 <= i < j < ranges.len() ==> (#[trigger] ranges[i]).last() + 1 < (
        #[trigger] ranges[j]).first()
}

/// The normal form of a set of lines.
pub open spec fn canonical_ranges(lines: Set<int>) -> Seq<LineRange> {
    choose|ranges: Seq<LineRange>| canonical(ranges) && #[trigger] lines_of(ranges) == lines
}

/// Whether each number is greater than those before it.
pub open spec fn strictly_ascending(lines: Seq<u32>) -> bool {
    forall|i: int, j: int| 0 <= i < j < lines.len() ==> lines[i] < lines[j]
}

/// Whether no two neighbours of `ranges` could be written as one range.
pub open spec fn maximal_runs(ranges: Seq<LineRange>) -> bool {
    forall|i: int|
        0 < i < ranges.len() ==> ranges[i - 1].last() + 1 != (#[trigger] ranges[i]).first()
}

impl LineRange {
    /// The first line of the range.
    pub open spec fn first(self) -> int {
        match self {
            LineRange::Single(line) => line as int,
            LineRange::Range(first, _) => first as int,
        }
    }

    /// The last line of the range.
    pub open spec fn last(self) -> int {
        match self {
            LineRange::Single(line) => line as int,
            LineRange::Range(_, last) => last as int,
        }
    }

    /// Whether `line` lies in the range.
    pub open spec fn holds(self, line: int) -> bool {
        self.first() <= line <= self.last()
    }

    /// Whether the range is a single line, or holds two lines or more.
    pub open spec fn proper(self) -> bool {
        self is Range ==> self.first() < self.last()
    }

    /// The lines of the range in ascending order.
    pub open spec fn expansion(self) -> Seq<u32> {
        if self.first() <= self.last() {
            Seq::new(
                (self.last() - self.first() + 1) as nat,
                |i: int| (self.first() + i) as u32,
            )
        } else {
            Seq::empty()
        }
    }

    /// The range from `first` to `last`.
    fn between(first: u32, last: u32) -> (range: LineRange)
        requires
            first <= last,
        ensures
            range.proper(),
            range.first() == first,
            range.last() == last,
    {
        if first == last {
            LineRange::Single(first)
        } else {
            LineRange::Range(first, last)
        }
    }

    /// The first and the last line.
    fn bounds(&self) -> (bounds: (u32, u32))
        ensures
            bounds.0 == self.first(),
            bounds.1 == self.last(),
    {
        match self {
            LineRange::Single(line) => (*line, *line),
            LineRange::Range(first, last) => (*first, *last),
        }
    }

    /// Lists the lines of the range in ascending order.
    pub fn expand(&self) -> (lines: Vec<u32>)
        ensures
            lines@ == self.expansion(),
    {
        let (first, last) = self.bounds();
        let mut lines: Vec<u32> = Vec::new();
        if first > last {
            return lines;
        }
        let mut line: u32 = first;
        lines.push(line);
        while line < last
            invariant
                first <= line <= last,
                first == self.first(),
                last == self.last(),
                lines@ =~= self.expansion().take(line - first + 1),
            decreases last - line,
        {
            line = line + 1;
            lines.push(line);
        }
        assert(lines@ =~= self.expansion());
        lines
    }

    /// Takes the lines of `covered` out of this range and returns the parts that remain.
    pub fn remove(&self, covered: &LineRange) -> (parts: Vec<LineRange>)
        ensures
            canonical(parts@),
            forall|line: int|
                lines_of(parts@).contains(line) <==> self.holds(line) && !covered.holds(line),
            parts@ == canonical_ranges(lines_of(seq![*self]).difference(lines_of(seq![*covered]))),
    {
        let (first, last) = self.bounds();
        let (covered_first, covered_last) = covered.bounds();
        let mut parts: Vec<LineRange> = Vec::new();
        if first <= last {
            if covered_first > covered_last || covered_last < first || last < covered_first {
                parts.push(LineRange::between(first, last));
                assert(parts@[0].first() == first);
            } else {
                if first < covered_first {
                    parts.push(LineRange::between(first, covered_first - 1));
                }
                if covered_last < last {
                    parts.push(LineRange::between(covered_last + 1, last));
                }
            }
        }
        proof {
            assert forall|line: int|
                lines_of(parts@).contains(line) <==> self.holds(line) && !covered.holds(line) by {
                if self.holds(line) && !covered.holds(line) {
                    if parts@.len() == 1 {
                        assert(parts@[0].holds(line));
                    } else {
                        assert(parts@[0].holds(line) || parts@[1].holds(line));
                    }
                }
            }
            let lines = lines_of(seq![*self]).difference(lines_of(seq![*covered]));
            assert(lines_of(parts@) =~= lines) by {
                assert(seq![*self][0] == *self);
                assert(seq![*covered][0] == *covered);
                assert forall|line: int| self.holds(line) implies #[trigger] lines_of(
                    seq![*self],
                ).contains(line) by {
                    assert(seq![*self][0].holds(line));
                }
                assert forall|line: int| covered.holds(line) implies #[trigger] lines_of(
                    seq![*covered],
                ).contains(line) by {
                    assert(seq![*covered][0].holds(line));
                }
            }
            lemma_canonical_ranges(parts@);
        }
        parts
    }

    /// Writes lines as ranges: each longest run of consecutive numbers becomes one range.
    pub fn compress_lines(lines: &[u32]) -> (ranges: Vec<LineRange>)
        ensures
            expand_all(ranges@) == lines@,
            forall|i: int| 0 <= i < ranges@.len() ==> (#[trigger] ranges@[i]).proper(),
            maximal_runs(ranges@),
    {
        let mut ranges: Vec<LineRange> = Vec::new();
        if lines.len() == 0 {
            assert(lines@ =~= expand_all(ranges@));
            return ranges;
        }
        let mut first: u32 = lines[0];
        let mut last: u32 = first;
        let mut next: usize = 1;
        proof {
            assert(expand_all(ranges@) =~= Seq::empty());
            assert(LineRange::Single(first).expansion() =~= lines@.take(1));
        }
        while next < lines.len()
            invariant
                1 <= next <= lines@.len(),
                first <= last,
                forall|i: int| 0 <= i < ranges@.len() ==> (#[trigger] ranges@[i]).proper(),
                maximal_runs(ranges@),
                ranges@.len() > 0 ==> ranges@.last().last() + 1 != first,
                expand_all(ranges@) + LineRange::Range(first, last).expansion() =~= lines@.take(
                    next as int,
                ),
            decreases lines@.len() - next,
        {
            let line: u32 = lines[next];
            let ghost before = ranges@;
            let ghost open_run = LineRange::Range(first, last);
            if last < line && line - last == 1 {
                last = line;
                proof {
                    assert(LineRange::Range(first, last).expansion()
                        =~= open_run.expansion().push(line));
                }
            } else {
                let range = LineRange::between(first, last);
                ranges.push(range);
                first = line;
                last = line;
                proof {
                    assert(range.expansion() =~= open_run.expansion());
                    assert(ranges@.drop_last() =~= before);
                    assert(LineRange::Range(line, line).expansion() =~= seq![line]);
                }
            }
            assert(lines@.take(next + 1) =~= lines@.take(next as int).push(line));
            next = next + 1;
        }
        let ghost before = ranges@;
        let range = LineRange::between(first, last);
        ranges.push(range);
        proof {
            assert(range.expansion() =~= LineRange::Range(first, last).expansion());
            assert(ranges@.drop_last() =~= before);
            assert(lines@.take(next as int) =~= lines@);
        }
        ranges
    }
}

/// A line is held by some range exactly when it is listed in the expansion of all ranges.
pub proof fn lemma_expand_all_lists_lines(ranges: Seq<LineRange>, line: int)
    ensures
        lines_of(ranges).contains(line) <==> (0 <= line <= u32::MAX && expand_all(ranges).contains(
            line as u32,
        )),
    decreases ranges.len(),
{
    if ranges.len() > 0 {
        let rest = ranges.drop_last();
        let tail = ranges.last().expansion();
        lemma_expand_all_lists_lines(rest, line);
        let all = expand_all(rest) + tail;
        if lines_of(ranges).contains(line) {
            let i = choose|i: int| 0 <= i < ranges.len() && #[trigger] ranges[i].holds(line);
            if i < rest.len() {
                assert(rest[i].holds(line));
                let k = choose|k: int|
                    0 <= k < expand_all(rest).len() && expand_all(rest)[k] == line as u32;
                assert(all[k] == line as u32);
            } else {
                let k = line - ranges.last().first();
                assert(tail[k] == line as u32);
                assert(all[expand_all(rest).len() + k] == line as u32);
            }
        }
        if 0 <= line <= u32::MAX && all.contains(line as u32) {
            let k = choose|k: int| 0 <= k < all.len() && all[k] == line as u32;
            if k < expand_all(rest).len() {
                assert(expand_all(rest)[k] == line as u32);
                let i = choose|i: int| 0 <= i < rest.len() && #[trigger] rest[i].holds(line);
                assert(ranges[i].holds(line));
            } else {
                assert(tail[k - expand_all(rest).len()] == line as u32);
                assert(ranges[ranges.len() - 1].holds(line));
            }
        }
    }
}

/// The runs of strictly ascending lines are in normal form.
pub proof fn lemma_ascending_runs_canonical(ranges: Seq<LineRange>)
    requires
        forall|i: int| 0 <= i < ranges.len() ==> (#[trigger] ranges[i]).proper(),
        maximal_runs(ranges),
        strictly_ascending(expand_all(ranges)),
    ensures
        canonical(ranges),
    decreases ranges.len(),
{
    if ranges.len() > 0 {
        let rest = ranges.drop_last();
        let head = expand_all(rest);
        let tail = ranges.last().expansion();
        let all = expand_all(ranges);
        assert(all == head + tail);
        assert forall|i: int| 0 <= i < rest.len() implies (#[trigger] rest[i]).proper() by {
            assert(rest[i] == ranges[i]);
        }
        assert forall|i: int| 0 < i < rest.len() implies rest[i - 1].last() + 1 != (
        #[trigger] rest[i]).first() by {
            assert(rest[i] == ranges[i]);
        }
        assert forall|i: int, j: int| 0 <= i < j < head.len() implies head[i] < head[j] by {
            assert(all[i] == head[i] && all[j] == head[j]);
        }
        lemma_ascending_runs_canonical(rest);
        let end = ranges.len() - 1;
        if rest.len() > 0 {
            let before = rest.last();
            let inner = before.expansion();
            assert(before.proper());
            assert(head == expand_all(rest.drop_last()) + inner);
            assert(head.last() == before.last());
            assert(ranges[end].proper());
            assert(all[head.len() - 1] == head.last());
            assert(all[head.len() as int] == tail[0]);
            assert(before.last() < ranges[end].first());
            assert(ranges[end - 1].last() + 1 != ranges[end].first());
        }
        assert forall|i: int, j: int| 0 <= i < j < ranges.len() implies (
        #[trigger] ranges[i]).last() + 1 < (#[trigger] ranges[j]).first() by {
            assert(rest[i] == ranges[i]);
            if j < end {
                assert(rest[j] == ranges[j]);
            } else if i < end - 1 {
                assert(rest[end - 1] == ranges[end - 1]);
                assert(rest[i].last() + 1 < rest[end - 1].first());
                assert(rest[end - 1].proper());
            }
        }
    }
}

/// Two sets of ranges in normal form that hold the same lines are written the same.
pub proof fn lemma_canonical_unique(a: Seq<LineRange>, b: Seq<LineRange>)
    requires
        canonical(a),
        canonical(b),
        lines_of(a) == lines_of(b),
    ensures
        a == b,
    decreases a.len(),
{
    if a.len() == 0 || b.len() == 0 {
        if a.len() > 0 {
            assert(a[0].holds(a[0].first()));
            assert(lines_of(a).contains(a[0].first()));
        }
        if b.len() > 0 {
            assert(b[0].holds(b[0].first()));
            assert(lines_of(b).contains(b[0].first()));
        }
        assert(a =~= b);
    } else {
        lemma_first_range_bounds(a, b);
        lemma_first_range_bounds(b, a);
        assert(a[0] == b[0]);
        let a_rest = a.drop_first();
        let b_rest = b.drop_first();
        lemma_lines_after_first(a);
        lemma_lines_after_first(b);
        assert(lines_of(a_rest) =~= lines_of(b_rest));
        assert(canonical(a_rest)) by {
            assert forall|i: int| 0 <= i < a_rest.len() implies (#[trigger] a_rest[i]).proper() by {
                assert(a_rest[i] == a[i + 1]);
            }
            assert forall|i: int, j: int| 0 <= i < j < a_rest.len() implies (
            #[trigger] a_rest[i]).last() + 1 < (#[trigger] a_rest[j]).first() by {
                assert(a_rest[i] == a[i + 1] && a_rest[j] == a[j + 1]);
            }
        }
        assert(canonical(b_rest)) by {
            assert forall|i: int| 0 <= i < b_rest.len() implies (#[trigger] b_rest[i]).proper() by {
                assert(b_rest[i] == b[i + 1]);
            }
            assert forall|i: int, j: int| 0 <= i < j < b_rest.len() implies (
            #[trigger] b_rest[i]).last() + 1 < (#[trigger] b_rest[j]).first() by {
                assert(b_rest[i] == b[i + 1] && b_rest[j] == b[j + 1]);
            }
        }
        lemma_canonical_unique(a_rest, b_rest);
        assert(a =~= seq![a[0]] + a_rest);
        assert(b =~= seq![b[0]] + b_rest);
    }
}

/// Where two normal forms hold the same lines, the first range of `b` starts no earlier and ends
/// no later than that of `a`.
proof fn lemma_first_range_bounds(a: Seq<LineRange>, b: Seq<LineRange>)
    requires
        canonical(a),
        canonical(b),
        lines_of(a) == lines_of(b),
        a.len() > 0,
        b.len() > 0,
    ensures
        a[0].first() <= b[0].first(),
        a[0].first() == b[0].first() ==> b[0].last() <= a[0].last(),
{
    assert(b[0].holds(b[0].first()));
    assert(lines_of(b).contains(b[0].first()));
    let i = choose|i: int| 0 <= i < a.len() && #[trigger] a[i].holds(b[0].first());
    if i > 0 {
        assert(a[0].last() + 1 < a[i].first());
    }
    if a[0].first() == b[0].first() && a[0].last() < b[0].last() {
        let line = a[0].last() + 1;
        assert(b[0].holds(line));
        assert(lines_of(b).contains(line));
        let k = choose|k: int| 0 <= k < a.len() && #[trigger] a[k].holds(line);
        if k > 0 {
            assert(a[0].last() + 1 < a[k].first());
        }
    }
}

/// The ranges after the first of a normal form hold exactly the lines after its last line.
proof fn lemma_lines_after_first(ranges: Seq<LineRange>)
    requires
        canonical(ranges),
        ranges.len() > 0,
    ensures
        forall|line: int| #[trigger]
            lines_of(ranges.drop_first()).contains(line) <==> lines_of(ranges).contains(line)
                && line > ranges[0].last(),
{
    let rest = ranges.drop_first();
    assert forall|line: int| #[trigger]
        lines_of(rest).contains(line) <==> lines_of(ranges).contains(line) && line
            > ranges[0].last() by {
        if lines_of(rest).contains(line) {
            let i = choose|i: int| 0 <= i < rest.len() && #[trigger] rest[i].holds(line);
            assert(ranges[i + 1].holds(line));
            assert(ranges[0].last() + 1 < ranges[i + 1].first());
        }
        if lines_of(ranges).contains(line) && line > ranges[0].last() {
            let i = choose|i: int| 0 <= i < ranges.len() && #[trigger] ranges[i].holds(line);
            assert(rest[i - 1].holds(line));
        }
    }
}

/// No ranges are written for a set of lines exactly when it is empty.
pub proof fn lemma_canonical_empty(ranges: Seq<LineRange>)
    requires
        canonical(ranges),
    ensures
        ranges.len() == 0 <==> lines_of(ranges) == Set::<int>::empty(),
{
    if ranges.len() > 0 {
        assert(ranges[0].proper());
        assert(ranges[0].holds(ranges[0].first()));
        assert(lines_of(ranges).contains(ranges[0].first()));
    } else {
        assert(lines_of(ranges) =~= Set::<int>::empty());
    }
}

/// The lines of one more range.
pub proof fn lemma_lines_of_push(ranges: Seq<LineRange>, range: LineRange)
    ensures
        forall|line: int| #[trigger]
            lines_of(ranges.push(range)).contains(line) <==> lines_of(ranges).contains(line)
                || range.holds(line),
{
    let longer = ranges.push(range);
    assert forall|line: int| #[trigger] lines_of(longer).contains(line) <==> lines_of(
        ranges,
    ).contains(line) || range.holds(line) by {
        if lines_of(longer).contains(line) {
            let i = choose|i: int| 0 <= i < longer.len() && #[trigger] longer[i].holds(line);
            if i < ranges.len() {
                assert(ranges[i].holds(line));
            }
        }
        if lines_of(ranges).contains(line) {
            let i = choose|i: int| 0 <= i < ranges.len() && #[trigger] ranges[i].holds(line);
            assert(longer[i].holds(line));
        }
        if range.holds(line) {
            assert(longer[ranges.len() as int].holds(line));
        }
    }
}

/// The lines of two lists of ranges taken together.
pub proof fn lemma_lines_of_add(a: Seq<LineRange>, b: Seq<LineRange>)
    ensures
        lines_of(a + b) == lines_of(a).union(lines_of(b)),
{
    let both = a + b;
    assert forall|line: int| lines_of(both).contains(line) <==> lines_of(a).union(
        lines_of(b),
    ).contains(line) by {
        if lines_of(both).contains(line) {
            let i = choose|i: int| 0 <= i < both.len() && #[trigger] both[i].holds(line);
            if i < a.len() {
                assert(a[i].holds(line));
            } else {
                assert(b[i - a.len()].holds(line));
            }
        }
        if lines_of(a).contains(line) {
            let i = choose|i: int| 0 <= i < a.len() && #[trigger] a[i].holds(line);
            assert(both[i].holds(line));
        }
        if lines_of(b).contains(line) {
            let i = choose|i: int| 0 <= i < b.len() && #[trigger] b[i].holds(line);
            assert(both[a.len() + i].holds(line));
        }
    }
    assert(lines_of(both) =~= lines_of(a).union(lines_of(b)));
}

/// The part of a set of lines below a bound has a normal form.
proof fn lemma_canonical_below(lines: Set<int>, bound: int) -> (ranges: Seq<LineRange>)
    requires
        0 <= bound <= u32::MAX + 1,
    ensures
        canonical(ranges),
        forall|line: int| #[trigger]
            lines_of(ranges).contains(line) <==> lines.contains(line) && 0 <= line < bound,
    decreases bound,
{
    if bound == 0 {
        Seq::empty()
    } else {
        let shorter = lemma_canonical_below(lines, bound - 1);
        let line = bound - 1;
        if !lines.contains(line) {
            shorter
        } else {
            if shorter.len() > 0 {
                assert(shorter.last().proper());
                assert(shorter[shorter.len() - 1].holds(shorter.last().last()));
                assert(lines_of(shorter).contains(shorter.last().last()));
            }
            if shorter.len() > 0 && shorter.last().last() == line - 1 {
                let head = shorter.drop_last();
                let run = LineRange::Range(shorter.last().first() as u32, line as u32);
                let ranges = head.push(run);
                assert(shorter =~= head.push(shorter.last()));
                lemma_lines_of_push(head, shorter.last());
                lemma_lines_of_push(head, run);
                assert forall|i: int, j: int| 0 <= i < j < ranges.len() implies (
                #[trigger] ranges[i]).last() + 1 < (#[trigger] ranges[j]).first() by {
                    assert(ranges[i] == shorter[i]);
                    assert(ranges[j].first() == shorter[j].first());
                }
                assert forall|i: int| 0 <= i < ranges.len() implies (
                #[trigger] ranges[i]).proper() by {
                    if i < head.len() {
                        assert(ranges[i] == shorter[i]);
                    }
                }
                assert forall|l: int| #[trigger] lines_of(ranges).contains(l) <==> lines.contains(
                    l,
                ) && 0 <= l < bound by {
                    assert(lines_of(shorter).contains(l) <==> lines.contains(l) && 0 <= l < bound
                        - 1);
                    assert(lines_of(head.push(shorter.last())).contains(l) <==> lines_of(
                        head,
                    ).contains(l) || shorter.last().holds(l));
                }
                ranges
            } else {
                let ranges = shorter.push(LineRange::Single(line as u32));
                lemma_lines_of_push(shorter, LineRange::Single(line as u32));
                assert forall|i: int, j: int| 0 <= i < j < ranges.len() implies (
                #[trigger] ranges[i]).last() + 1 < (#[trigger] ranges[j]).first() by {
                    assert(ranges[i] == shorter[i]);
                    if j == shorter.len() && i < shorter.len() - 1 {
                        assert(shorter[i].last() + 1 < shorter[shorter.len() - 1].first());
                    }
                }
                assert forall|i: int| 0 <= i < ranges.len() implies (
                #[trigger] ranges[i]).proper() by {
                    if i < shorter.len() {
                        assert(ranges[i] == shorter[i]);
                    }
                }
                assert forall|l: int| #[trigger] lines_of(ranges).contains(l) <==> lines.contains(
                    l,
                ) && 0 <= l < bound by {
                    assert(lines_of(shorter).contains(l) <==> lines.contains(l) && 0 <= l < bound
                        - 1);
                }
                ranges
            }
        }
    }
}

/// Every set of line numbers has a normal form, and it holds exactly those lines.
pub proof fn lemma_canonical_exists(lines: Set<int>)
    requires
        forall|line: int| #[trigger] lines.contains(line) ==> 0 <= line <= u32::MAX,
    ensures
        canonical(canonical_ranges(lines)),
        lines_of(canonical_ranges(lines)) == lines,
{
    let ranges = lemma_canonical_below(lines, u32::MAX + 1);
    assert(lines_of(ranges) =~= lines);
}

/// The lines of ranges are line numbers.
pub proof fn lemma_lines_bounded(ranges: Seq<LineRange>)
    ensures
        forall|line: int| #[trigger] lines_of(ranges).contains(line) ==> 0 <= line <= u32::MAX,
{
    assert forall|line: int| #[trigger] lines_of(ranges).contains(line) implies 0 <= line
        <= u32::MAX by {
        let i = choose|i: int| 0 <= i < ranges.len() && #[trigger] ranges[i].holds(line);
        assert(ranges[i].holds(line));
    }
}

/// Ranges in normal form are the normal form of the lines they hold.
pub proof fn lemma_canonical_ranges(ranges: Seq<LineRange>)
    requires
        canonical(ranges),
    ensures
        ranges == canonical_ranges(lines_of(ranges)),
{
    lemma_canonical_unique(ranges, canonical_ranges(lines_of(ranges)));
}

} // verus!
