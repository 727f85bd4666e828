//! Stable sorting, and sets of texts kept as sorted lists.

use crate::text;
use crate::text::Rank;
use vstd::prelude::*;

verus! {

/// A value with a place in a total order.
pub trait Ranked: Sized {
    /// Whether `self` may stand before `other`.
    spec fn precedes(&self, other: &Self) -> bool;

    proof fn precedes_totally(a: &Self, b: &Self)
        ensures
            a.precedes(b) || b.precedes(a),
    ;

    proof fn precedes_chains(a: &Self, b: &Self, c: &Self)
        requires
            a.precedes(b),
            b.precedes(c),
        ensures
            a.precedes(c),
    ;

    fn may_precede(&self, other: &Self) -> (b: bool)
        ensures
            b == self.precedes(other),
    ;
}

/// `output` holds the elements of `input`, `output[i]` the one that stood at
/// `from[i]`, in order, and equal ones as they stood.
pub open spec fn sorted_from<T: Ranked>(input: Seq<T>, output: Seq<T>, from: Seq<int>) -> bool {
    &&& output.len() == input.len()
    &&& from.len() == input.len()
    &&& from.no_duplicates()
    &&& forall|i: int| 0 <= i < from.len() ==> 0 <= #[trigger] from[i] < input.len()
    &&& forall|i: int| 0 <= i < from.len() ==> #[trigger] output[i] == input[from[i]]
    &&& forall|i: int, j: int|
        #![trigger output[i], output[j]]
        0 <= i < j < output.len() ==> {
            &&& output[i].precedes(&output[j])
            &&& output[j].precedes(&output[i]) ==> from[i] < from[j]
        }
}

/// `output` is `input` in order, with equal elements as they stood.
pub open spec fn sorted_stably<T: Ranked>(input: Seq<T>, output: Seq<T>) -> bool {
    exists|from: Seq<int>| sorted_from(input, output, from)
}

/// Sorts a list; equal elements keep their order.
pub fn sort<T: Ranked>(items: Vec<T>) -> (result: Vec<T>)
    ensures
        sorted_stably(items@, result@),
{
    let ghost input = items@;
    let mut items = items;
    let mut result: Vec<T> = Vec::new();
    let ghost mut from: Seq<int> = Seq::empty();
    let ghost mut n: int = 0;
    assert(input.take(0) =~= result@);
    assert(input.skip(0) =~= items@);
    while items.len() > 0
        invariant
            0 <= n <= input.len(),
            items@ == input.skip(n),
            sorted_from(input.take(n), result@, from),
        decreases items.len(),
    {
        let item = items.remove(0);
        assert(item == input[n]);
        assert(items@ =~= input.skip(n + 1));
        let mut at: usize = result.len();
        while at > 0 && !result[at - 1].may_precede(&item)
            invariant
                at <= result.len(),
                forall|k: int| at <= k < result.len() ==> !(#[trigger] result@[k]).precedes(&item),
            decreases at,
        {
            at -= 1;
        }
        let ghost before = result@;
        let ghost old_from = from;
        result.insert(at, item);
        proof {
            from = old_from.insert(at as int, n);
            let input_now = input.take(n + 1);
            assert forall|i: int| 0 <= i < from.len() implies 0 <= #[trigger] from[i]
                < input_now.len() by {
                if i < at {
                    assert(from[i] == old_from[i]);
                } else if i > at {
                    assert(from[i] == old_from[i - 1]);
                }
            }
            assert(from.no_duplicates()) by {
                assert forall|i: int, j: int|
                    0 <= i < from.len() && 0 <= j < from.len() && i != j implies from[i]
                    != from[j] by {
                    let a = if i < at { i } else { i - 1 };
                    let b = if j < at { j } else { j - 1 };
                    if i != at && j != at {
                        assert(old_from[a] != old_from[b]);
                    } else if i == at {
                        assert(old_from[b] < n);
                    } else {
                        assert(old_from[a] < n);
                    }
                }
            }
            assert forall|i: int| 0 <= i < from.len() implies #[trigger] result@[i]
                == input_now[from[i]] by {
                if i < at {
                    assert(result@[i] == before[i]);
                    assert(before[i] == input.take(n)[old_from[i]]);
                } else if i > at {
                    assert(result@[i] == before[i - 1]);
                    assert(before[i - 1] == input.take(n)[old_from[i - 1]]);
                }
            }
            assert forall|i: int, j: int|
                #![trigger result@[i], result@[j]]
                0 <= i < j < result@.len() implies {
                &&& result@[i].precedes(&result@[j])
                &&& result@[j].precedes(&result@[i]) ==> from[i] < from[j]
            } by {
                if j < at {
                    assert(before[i].precedes(&before[j]));
                } else if i > at {
                    assert(before[i - 1].precedes(&before[j - 1]));
                } else if i < at && j > at {
                    assert(before[i].precedes(&before[j - 1]));
                } else if j == at {
                    let last = before[at - 1];
                    assert(last.precedes(&item));
                    if i < at - 1 {
                        assert(before[i].precedes(&before[at - 1]));
                        T::precedes_chains(&before[i], &last, &item);
                    }
                    assert(old_from[i] < n);
                } else {
                    assert(!before[j - 1].precedes(&item));
                    T::precedes_totally(&item, &before[j - 1]);
                }
            }
            n = n + 1;
        }
    }
    assert(input.take(n) =~= input);
    result
}

/// Every text stands before the ones that follow it, none of them equal to it.
pub open spec fn strictly_increasing(list: Seq<Seq<char>>) -> bool {
    forall|i: int, j: int|
        0 <= i < j < list.len() ==> text::text_rank(#[trigger] list[i], #[trigger] list[j])
            == Rank::Before
}

/// Adds a text to a set of texts that is kept as a sorted list.
pub fn add_text(list: &mut Vec<String>, item: &str)
    requires
        strictly_increasing(text::texts(old(list)@)),
    ensures
        strictly_increasing(text::texts(final(list)@)),
        text::texts(final(list)@).to_set() == text::texts(old(list)@).to_set().insert(item@),
{
    let ghost before = text::texts(list@);
    let mut at: usize = 0;
    while at < list.len()
        invariant
            at <= list.len(),
            before == text::texts(list@),
            strictly_increasing(before),
            forall|k: int| 0 <= k < at ==> text::text_rank(#[trigger] before[k], item@)
                == Rank::Before,
        ensures
            at < list.len() ==> text::text_rank(before[at as int], item@) == Rank::After,
        decreases list.len() - at,
    {
        let rank = text::rank_texts(list[at].as_str(), item);
        assert(before[at as int] == list@[at as int]@);
        match rank {
            Rank::Before => {},
            Rank::Same => {
                proof {
                    text::text_rank_swaps(before[at as int], item@);
                    assert(before.to_set().insert(item@) =~= before.to_set());
                }
                return;
            },
            Rank::After => {
                break;
            },
        }
        at += 1;
    }
    list.insert(at, item.to_owned());
    proof {
        let after = text::texts(list@);
        assert(after =~= before.insert(at as int, item@));
        assert forall|i: int, j: int| 0 <= i < j < after.len() implies text::text_rank(
            #[trigger] after[i],
            #[trigger] after[j],
        ) == Rank::Before by {
            if i == at {
                text::text_rank_swaps(item@, before[at as int]);
                if j - 1 > at {
                    assert(text::text_rank(before[at as int], before[j - 1]) == Rank::Before);
                    text::text_rank_chains(item@, before[at as int], before[j - 1]);
                }
            } else if j == at {
                assert(after[i] == before[i]);
            } else {
                let a = if i < at { i } else { i - 1 };
                let b = if j < at { j } else { j - 1 };
                assert(text::text_rank(before[a], before[b]) == Rank::Before);
            }
        }
        assert forall|x: Seq<char>| after.to_set().contains(x) <==> before.to_set().insert(
            item@,
        ).contains(x) by {
            if before.contains(x) {
                let k = before.index_of(x);
                assert(after[if k < at { k } else { k + 1 }] == x);
            }
            assert(after[at as int] == item@);
            if after.contains(x) && x != item@ {
                let k = after.index_of(x);
                assert(before[if k < at { k } else { k - 1 }] == x);
            }
        }
        assert(after.to_set() =~= before.to_set().insert(item@));
    }
}

/// Sorting loses and invents nothing.
pub proof fn sorting_keeps_the_elements<T: Ranked>(input: Seq<T>, output: Seq<T>)
    requires
        sorted_stably(input, output),
    ensures
        output.len() == input.len(),
        forall|i: int| 0 <= i < input.len() ==> output.contains(#[trigger] input[i]),
        forall|i: int| 0 <= i < output.len() ==> input.contains(#[trigger] output[i]),
{
    let from = choose|from: Seq<int>| sorted_from(input, output, from);
    assert forall|i: int| 0 <= i < input.len() implies output.contains(#[trigger] input[i]) by {
        place_is_reached(input, output, from, i);
        let j = from.index_of(i);
        assert(output[j] == input[from[j]]);
    }
    assert forall|i: int| 0 <= i < output.len() implies input.contains(#[trigger] output[i]) by {
        assert(output[i] == input[from[i]]);
    }
}

proof fn place_is_reached<T: Ranked>(input: Seq<T>, output: Seq<T>, from: Seq<int>, i: int)
    requires
        sorted_from(input, output, from),
        0 <= i < input.len(),
    ensures
        from.contains(i),
{
    let n = input.len() as int;
    let places = vstd::set_lib::set_int_range(0, n);
    from.unique_seq_to_set();
    vstd::set_lib::lemma_int_range(0, n);
    assert(from.to_set().subset_of(places)) by {
        assert forall|k: int| from.to_set().contains(k) implies places.contains(k) by {
            let j = from.index_of(k);
            assert(from[j] == k);
        }
    }
    vstd::set_lib::lemma_len_subset(from.to_set(), places);
    vstd::set_lib::lemma_subset_equality(from.to_set(), places);
    assert(places.contains(i));
    assert(from.to_set().contains(i));
}

/// Two lists with the same order among their elements are sorted by the same moves.
pub proof fn sorting_is_determined<T: Ranked>(
    a: Seq<T>,
    sorted_a: Seq<T>,
    from_a: Seq<int>,
    b: Seq<T>,
    sorted_b: Seq<T>,
    from_b: Seq<int>,
)
    requires
        sorted_from(a, sorted_a, from_a),
        sorted_from(b, sorted_b, from_b),
        a.len() == b.len(),
        forall|i: int, j: int|
            #![trigger a[i], a[j]]
            0 <= i < a.len() && 0 <= j < a.len() ==> a[i].precedes(&a[j]) == b[i].precedes(&b[j]),
    ensures
        from_a == from_b,
{
    same_moves(a, sorted_a, from_a, b, sorted_b, from_b, from_a.len());
    assert(from_a =~= from_b);
}

proof fn same_moves<T: Ranked>(
    a: Seq<T>,
    sorted_a: Seq<T>,
    from_a: Seq<int>,
    b: Seq<T>,
    sorted_b: Seq<T>,
    from_b: Seq<int>,
    n: nat,
)
    requires
        sorted_from(a, sorted_a, from_a),
        sorted_from(b, sorted_b, from_b),
        a.len() == b.len(),
        forall|i: int, j: int|
            #![trigger a[i], a[j]]
            0 <= i < a.len() && 0 <= j < a.len() ==> a[i].precedes(&a[j]) == b[i].precedes(&b[j]),
        n <= from_a.len(),
    ensures
        forall|k: int| 0 <= k < n ==> from_a[k] == from_b[k],
    decreases n,
{
    if n > 0 {
        same_moves(a, sorted_a, from_a, b, sorted_b, from_b, (n - 1) as nat);
        let k = n - 1;
        let x = from_a[k];
        let y = from_b[k];
        if x != y {
            place_is_reached(b, sorted_b, from_b, x);
            let p = from_b.index_of(x);
            assert(from_b[p] == x);
            place_is_reached(a, sorted_a, from_a, y);
            let q = from_a.index_of(y);
            assert(from_a[q] == y);
            if p < k {
                assert(from_a[p] == from_b[p]);
                assert(from_a[p] == from_a[k]);
            }
            if q < k {
                assert(from_a[q] == from_b[q]);
                assert(from_b[q] == from_b[k]);
            }
            assert(sorted_a[k] == a[x]);
            assert(sorted_a[q] == a[y]);
            assert(sorted_b[k] == b[y]);
            assert(sorted_b[p] == b[x]);
            assert(sorted_a[k].precedes(&sorted_a[q]));
            assert(sorted_b[k].precedes(&sorted_b[p]));
            assert(a[x].precedes(&a[y]) == b[x].precedes(&b[y]));
            assert(a[y].precedes(&a[x]) == b[y].precedes(&b[x]));
            assert(false);
        }
    }
}

} // verus!
