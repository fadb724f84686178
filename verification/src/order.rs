//! Stable sorting, stated once for every kind of key.
use vstd::prelude::*;

verus! {

/// `order` lists the numbers below `n`, each once.
pub open spec fn is_arrangement(order: Seq<int>, n: nat) -> bool {
    &&& order.len() == n
    &&& forall|k: int| 0 <= k < n ==> 0 <= #[trigger] order[k] < n
    &&& forall|a: int, b: int| 0 <= a < b < n ==> order[a] != order[b]
}

/// `output` is `input` rearranged by `order` so that nothing stands after what it is
/// strictly before, and what is neither before nor after keeps the order it came in.
pub open spec fn sorts_by<T>(
    input: Seq<T>,
    output: Seq<T>,
    order: Seq<int>,
    before: spec_fn(T, T) -> bool,
) -> bool {
    &&& is_arrangement(order, input.len())
    &&& output.len() == input.len()
    &&& forall|k: int| 0 <= k < output.len() ==> #[trigger] output[k] == input[order[k]]
    &&& forall|a: int, b: int|
        #![trigger output[a], output[b]]
        0 <= a < b < output.len() ==> !before(output[b], output[a]) && (before(output[a], output[b])
            || order[a] < order[b])
}

/// `output` is the stable sort of `input`.
pub open spec fn is_stable_sort<T>(
    input: Seq<T>,
    output: Seq<T>,
    before: spec_fn(T, T) -> bool,
) -> bool {
    exists|order: Seq<int>| sorts_by(input, output, order, before)
}

/// Inserting the next item behind everything that it is not before keeps a stable sort.
pub(crate) proof fn lemma_insert_sorted<T>(
    input: Seq<T>,
    output: Seq<T>,
    item: T,
    position: int,
    before: spec_fn(T, T) -> bool,
)
    requires
        is_stable_sort(input, output, before),
        0 <= position <= output.len(),
        forall|k: int| 0 <= k < position ==> !before(item, #[trigger] output[k]),
        forall|k: int| position <= k < output.len() ==> before(item, #[trigger] output[k]),
        forall|x: T, y: T| #[trigger] before(x, y) ==> !before(y, x),
    ensures
        is_stable_sort(input.push(item), output.insert(position, item), before),
{
    let order = choose|order: Seq<int>| sorts_by(input, output, order, before);
    let n = input.len() as int;
    let new_order = order.insert(position, n);
    let new_output = output.insert(position, item);
    let new_input = input.push(item);
    assert forall|a: int, b: int| 0 <= a < b < new_order.len() implies new_order[a]
        != new_order[b] by {
        let a0 = if a < position { a } else { a - 1 };
    }
    assert forall|k: int| 0 <= k < new_output.len() implies #[trigger] new_output[k]
        == new_input[new_order[k]] by {
        if k < position {
            assert(output[k] == input[order[k]]);
        } else if k > position {
            assert(output[k - 1] == input[order[k - 1]]);
        }
    }
    assert forall|a: int, b: int| 0 <= a < b < new_output.len() implies !before(
        new_output[b],
        new_output[a],
    ) && (before(new_output[a], new_output[b]) || new_order[a] < new_order[b]) by {
        if b < position {
            assert(new_output[a] == output[a] && new_output[b] == output[b]);
        } else if b == position {
            assert(new_output[a] == output[a]);
        } else if a == position {
            assert(new_output[b] == output[b - 1]);
        } else {
            let a0 = if a < position { a } else { a - 1 };
            assert(new_output[a] == output[a0] && new_output[b] == output[b - 1]);
        }
    }
    assert(sorts_by(new_input, new_output, new_order, before));
}

pub(crate) proof fn lemma_empty_is_sorted<T>(before: spec_fn(T, T) -> bool)
    ensures
        is_stable_sort(Seq::<T>::empty(), Seq::<T>::empty(), before),
{
    assert(sorts_by(Seq::<T>::empty(), Seq::<T>::empty(), Seq::<int>::empty(), before));
}

/// Each item stands before all behind it.
pub open spec fn is_ascending<T>(items: Seq<T>, before: spec_fn(T, T) -> bool) -> bool {
    forall|a: int, b: int|
        #![trigger items[a], items[b]]
        0 <= a < b < items.len() ==> before(items[a], items[b])
}

/// There is one way to put given items in ascending order.
pub proof fn lemma_ascending_is_unique<T>(left: Seq<T>, right: Seq<T>, before: spec_fn(T, T) -> bool)
    requires
        is_ascending(left, before),
        is_ascending(right, before),
        forall|x: T| left.contains(x) <==> right.contains(x),
        forall|x: T, y: T| #[trigger] before(x, y) ==> !before(y, x),
    ensures
        left == right,
    decreases left.len(),
{
    if left.len() == 0 {
        if right.len() > 0 {
            assert(right.contains(right[0]));
        }
        assert(left =~= right);
    } else {
        assert(left.contains(left[0]));
        let j = choose|j: int| 0 <= j < right.len() && right[j] == left[0];
        assert(right.contains(right[0]));
        let i = choose|i: int| 0 <= i < left.len() && left[i] == right[0];
        if i > 0 && j > 0 {
            assert(before(left[0], left[i]));
            assert(before(right[0], right[j]));
        }
        assert(left[0] == right[0]);
        let left_rest = left.drop_first();
        let right_rest = right.drop_first();
        assert forall|x: T| left_rest.contains(x) <==> right_rest.contains(x) by {
            if left_rest.contains(x) {
                let k = choose|k: int| 0 <= k < left_rest.len() && left_rest[k] == x;
                assert(left[k + 1] == x);
                assert(left.contains(x));
                let l = choose|l: int| 0 <= l < right.len() && right[l] == x;
                assert(before(left[0], left[k + 1]));
                assert(l != 0);
                assert(right_rest[l - 1] == x);
            }
            if right_rest.contains(x) {
                let k = choose|k: int| 0 <= k < right_rest.len() && right_rest[k] == x;
                assert(right[k + 1] == x);
                assert(right.contains(x));
                let l = choose|l: int| 0 <= l < left.len() && left[l] == x;
                assert(before(right[0], right[k + 1]));
                assert(l != 0);
                assert(left_rest[l - 1] == x);
            }
        }
        assert(is_ascending(left_rest, before)) by {
            assert forall|a: int, b: int|
                #![trigger left_rest[a], left_rest[b]]
                0 <= a < b < left_rest.len() implies before(left_rest[a], left_rest[b]) by {
                assert(before(left[a + 1], left[b + 1]));
            }
        }
        assert(is_ascending(right_rest, before)) by {
            assert forall|a: int, b: int|
                #![trigger right_rest[a], right_rest[b]]
                0 <= a < b < right_rest.len() implies before(right_rest[a], right_rest[b]) by {
                assert(before(right[a + 1], right[b + 1]));
            }
        }
        lemma_ascending_is_unique(left_rest, right_rest, before);
        assert(left =~= seq![left[0]] + left_rest);
        assert(right =~= seq![right[0]] + right_rest);
    }
}

/// An arrangement lists every number below its length.
pub(crate) proof fn lemma_arrangement_is_onto(order: Seq<int>, n: nat, k: int)
    requires
        is_arrangement(order, n),
        0 <= k < n,
    ensures
        exists|at: int| 0 <= at < order.len() && order[at] == k,
{
    if !order.contains(k) {
        let rest = vstd::set_lib::set_int_range(0, n as int).remove(k);
        vstd::set_lib::lemma_int_range(0, n as int);
        assert(order.no_duplicates());
        order.unique_seq_to_set();
        assert forall|x: int| order.to_set().contains(x) implies rest.contains(x) by {
            let at = choose|at: int| 0 <= at < order.len() && order[at] == x;
        }
        vstd::set_lib::lemma_len_subset(order.to_set(), rest);
    }
}

} // verus!
