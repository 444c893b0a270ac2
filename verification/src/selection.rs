//! Which elements of a list are selected from it, and in which order.

use vstd::prelude::*;

verus! {

/// Whether positions are ascending and within a list of some length.
pub open spec fn positions_within(positions: Seq<int>, length: nat) -> bool {
    &&& forall|i: int| 0 <= i < positions.len() ==> 0 <= #[trigger] positions[i] < length
    &&& forall|i: int, j: int|
        0 <= i < j < positions.len() ==> #[trigger] positions[i] < #[trigger] positions[j]
}

/// Positions with one more at the end.
pub proof fn lemma_one_more_position(positions: Seq<int>, length: nat)
    requires
        positions_within(positions, length),
    ensures
        positions_within(positions, length + 1),
        positions_within(positions.push(length as int), length + 1),
        forall|k: int|
            positions.push(length as int).contains(k) <==> positions.contains(k) || k == length,
{
    let longer = positions.push(length as int);
    assert(longer[positions.len() as int] == length);
    assert forall|k: int| longer.contains(k) <==> positions.contains(k) || k == length by {
        if positions.contains(k) {
            let i = choose|i: int| 0 <= i < positions.len() && positions[i] == k;
            assert(longer[i] == k);
        }
        if longer.contains(k) && k != length {
            let i = choose|i: int| 0 <= i < longer.len() && longer[i] == k;
            assert(positions[i] == k);
        }
    }
}

/// A filter selects the elements that pass it, in their order.
pub proof fn lemma_filter_positions<A>(items: Seq<A>, passes: spec_fn(A) -> bool) -> (positions:
    Seq<int>)
    ensures
        positions_within(positions, items.len()),
        forall|k: int| #[trigger]
            positions.contains(k) <==> 0 <= k < items.len() && passes(items[k]),
        items.filter(passes).len() == positions.len(),
        forall|i: int|
            0 <= i < positions.len() ==> items.filter(passes)[i] == items[#[trigger] positions[i]],
    decreases items.len(),
{
    reveal(Seq::filter);
    if items.len() == 0 {
        Seq::empty()
    } else {
        let rest = items.drop_last();
        let last = items.len() - 1;
        let before = lemma_filter_positions(rest, passes);
        lemma_one_more_position(before, rest.len());
        let positions = if passes(items[last]) {
            before.push(last)
        } else {
            before
        };
        assert forall|k: int| #[trigger]
            positions.contains(k) <==> 0 <= k < items.len() && passes(items[k]) by {
            if before.contains(k) {
                assert(rest[k] == items[k]);
            }
            if 0 <= k < last {
                assert(rest[k] == items[k]);
                assert(before.contains(k) <==> passes(rest[k]));
            }
        }
        assert forall|i: int| 0 <= i < positions.len() implies items.filter(passes)[i]
            == items[#[trigger] positions[i]] by {
            if i < before.len() {
                assert(rest.filter(passes)[i] == rest[before[i]]);
            }
        }
        positions
    }
}

} // verus!
