//! Putting keyed rows into ascending order without disturbing ties.

use itertools::Itertools;
use vstd::prelude::*;

verus! {

/// `output` holds the rows of `input` in ascending order of their keys, rows
/// with equal keys in the order in which `input` has them. `from[i]` is the
/// place in `input` of the row that `output` has at place `i`.
pub open spec fn sorted_from(
    input: Seq<(i128, usize)>,
    output: Seq<(i128, usize)>,
    from: Seq<int>,
) -> bool {
    &&& output.len() == input.len()
    &&& from.len() == input.len()
    &&& forall|i: int| 0 <= i < from.len() ==> 0 <= #[trigger] from[i] < input.len()
    &&& forall|i: int, j: int| 0 <= i < j < from.len() ==> #[trigger] from[i] != #[trigger] from[j]
    &&& forall|k: int| 0 <= k < input.len() ==> #[trigger] from.contains(k)
    &&& forall|i: int| 0 <= i < from.len() ==> #[trigger] output[i] == input[from[i]]
    &&& forall|i: int, j: int|
        0 <= i < j < output.len() ==> (#[trigger] output[i]).0 <= (#[trigger] output[j]).0
    &&& forall|i: int, j: int|
        0 <= i < j < from.len() && output[i].0 == output[j].0 ==> #[trigger] from[i]
            < #[trigger] from[j]
}

/// `output` is `input` sorted by key, ascending and stable.
pub open spec fn stably_sorted(input: Seq<(i128, usize)>, output: Seq<(i128, usize)>) -> bool {
    exists|from: Seq<int>| sorted_from(input, output, from)
}

/// `itertools::Itertools::sorted_by`, comparing rows by their first
/// component: the result holds the same rows, each as often as the input,
/// in ascending order of the first component; rows that compare equal keep
/// the order they came in.
#[verifier::external_body]
fn sorted_by_key(rows: Vec<(i128, usize)>) -> (sorted: Vec<(i128, usize)>)
    ensures
        stably_sorted(rows@, sorted@),
{
    rows.into_iter().sorted_by(|a, b| a.0.cmp(&b.0)).collect()
}

/// `order` lists the places of `keys` by ascending key, places with equal
/// keys in ascending order: every place once.
pub open spec fn is_stable_order(keys: Seq<i128>, order: Seq<usize>) -> bool {
    &&& order.len() == keys.len()
    &&& forall|i: int| 0 <= i < order.len() ==> (#[trigger] order[i]) < keys.len()
    &&& forall|i: int, j: int|
        0 <= i < j < order.len() ==> #[trigger] order[i] != #[trigger] order[j]
    &&& forall|k: usize| k < keys.len() ==> #[trigger] order.contains(k)
    &&& forall|i: int, j: int|
        0 <= i < j < order.len() ==> keys[#[trigger] order[i] as int] <= keys[#[trigger] order[j] as int]
    &&& forall|i: int, j: int|
        0 <= i < j < order.len() && keys[order[i] as int] == keys[order[j] as int]
            ==> #[trigger] order[i] < #[trigger] order[j]
}

/// The places of `keys` in ascending order of key; places with equal keys
/// stay in ascending order.
pub fn stable_order(keys: &Vec<i128>) -> (order: Vec<usize>)
    ensures
        is_stable_order(keys@, order@),
{
    let mut rows: Vec<(i128, usize)> = Vec::new();
    let mut i: usize = 0;
    while i < keys.len()
        invariant
            i <= keys.len(),
            rows.len() == i,
            forall|k: int| 0 <= k < i ==> #[trigger] rows[k] == (keys[k], k as usize),
        decreases keys.len() - i,
    {
        rows.push((keys[i], i));
        i += 1;
    }
    let sorted = sorted_by_key(rows);
    let ghost from = choose|from: Seq<int>| sorted_from(rows@, sorted@, from);
    let mut order: Vec<usize> = Vec::new();
    let mut j: usize = 0;
    while j < sorted.len()
        invariant
            j <= sorted.len(),
            order.len() == j,
            sorted_from(rows@, sorted@, from),
            rows.len() == keys.len(),
            forall|k: int| 0 <= k < rows.len() ==> #[trigger] rows[k] == (keys[k], k as usize),
            forall|k: int| 0 <= k < j ==> #[trigger] order[k] == from[k],
        decreases sorted.len() - j,
    {
        assert(sorted[j as int] == rows[from[j as int]]);
        order.push(sorted[j].1);
        j += 1;
    }
    proof {
        assert forall|k: usize| k < keys.len() implies #[trigger] order@.contains(k) by {
            assert(from.contains(k as int));
            let i = choose|i: int| 0 <= i < from.len() && from[i] == k;
            assert(order[i] == k);
        }
        assert forall|a: int, b: int| 0 <= a < b < order.len() implies keys[#[trigger] order[a] as int]
            <= keys[#[trigger] order[b] as int] by {
            assert(sorted[a] == rows[from[a]]);
            assert(sorted[b] == rows[from[b]]);
            assert(sorted[a].0 <= sorted[b].0);
        }
        assert forall|a: int, b: int|
            0 <= a < b < order.len() && keys[order[a] as int] == keys[order[b] as int]
            implies #[trigger] order[a] < #[trigger] order[b] by {
            assert(sorted[a] == rows[from[a]]);
            assert(sorted[b] == rows[from[b]]);
            assert(from[a] < from[b]);
        }
        assert forall|a: int, b: int| 0 <= a < b < order.len() implies #[trigger] order[a]
            != #[trigger] order[b] by {
            assert(from[a] != from[b]);
        }
    }
    order
}

} // verus!
