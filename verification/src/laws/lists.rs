//! Choosing from a list.

use vstd::prelude::*;

verus! {

/// `places` are the places below `n` that are wanted, each once and in order.
pub open spec fn is_selection(n: nat, wanted: spec_fn(int) -> bool, places: Seq<int>) -> bool {
    &&& forall|p: int|
        0 <= p < places.len() ==> 0 <= #[trigger] places[p] < n && wanted(places[p])
    &&& forall|p: int, q: int|
        0 <= p < q < places.len() ==> #[trigger] places[p] < #[trigger] places[q]
    &&& forall|i: int| 0 <= i < n && #[trigger] wanted(i) ==> places.contains(i)
}

/// One more place is chosen where it is wanted.
pub(crate) proof fn lemma_selection_step(
    n: nat,
    wanted: spec_fn(int) -> bool,
    places: Seq<int>,
)
    requires
        is_selection(n, wanted, places),
    ensures
        wanted(n as int) ==> is_selection(n + 1, wanted, places.push(n as int)),
        !wanted(n as int) ==> is_selection(n + 1, wanted, places),
{
    if wanted(n as int) {
        let more = places.push(n as int);
        assert forall|p: int| 0 <= p < more.len() implies 0 <= #[trigger] more[p] < n + 1 && wanted(
            more[p],
        ) by {
            if p < places.len() {
                assert(more[p] == places[p]);
            }
        }
        assert forall|p: int, q: int| 0 <= p < q < more.len() implies #[trigger] more[p]
            < #[trigger] more[q] by {
            assert(more[p] == places[p]);
            if q < places.len() {
                assert(more[q] == places[q]);
            }
        }
        assert forall|i: int| 0 <= i < n + 1 && #[trigger] wanted(i) implies more.contains(i) by {
            if i < n {
                assert(places.contains(i));
                let at = choose|at: int| 0 <= at < places.len() && places[at] == i;
                assert(more[at] == i);
            } else {
                assert(more[places.len() as int] == i);
            }
        }
    } else {
        assert forall|i: int| 0 <= i < n + 1 && #[trigger] wanted(i) implies places.contains(
            i,
        ) by {
            assert(i != n);
        }
    }
}

/// The same places are chosen where the same are wanted.
pub(crate) proof fn lemma_selection_same(
    n: nat,
    wanted: spec_fn(int) -> bool,
    other: spec_fn(int) -> bool,
    places: Seq<int>,
)
    requires
        is_selection(n, wanted, places),
        forall|i: int| 0 <= i < n ==> (#[trigger] wanted(i) == other(i)),
    ensures
        is_selection(n, other, places),
{
    assert forall|p: int| 0 <= p < places.len() implies 0 <= #[trigger] places[p] < n && other(
        places[p],
    ) by {
        assert(wanted(places[p]));
    }
    assert forall|i: int| 0 <= i < n && #[trigger] other(i) implies places.contains(i) by {
        assert(wanted(i));
    }
}

/// There is one choice of places only.
pub proof fn law_a_selection_is_unique(
    n: nat,
    wanted: spec_fn(int) -> bool,
    a: Seq<int>,
    b: Seq<int>,
)
    requires
        is_selection(n, wanted, a),
        is_selection(n, wanted, b),
    ensures
        a == b,
    decreases n,
{
    if n == 0 {
        if a.len() > 0 {
            let first = a[0];
            assert(first < n);
        }
        if b.len() > 0 {
            let first = b[0];
            assert(first < n);
        }
        assert(a =~= b);
    } else {
        let x = lemma_selection_cut(n, wanted, a);
        let y = lemma_selection_cut(n, wanted, b);
        law_a_selection_is_unique((n - 1) as nat, wanted, x, y);
    }
}

/// A choice without its last place.
proof fn lemma_selection_cut(n: nat, wanted: spec_fn(int) -> bool, a: Seq<int>) -> (x: Seq<int>)
    requires
        is_selection(n, wanted, a),
        n > 0,
    ensures
        is_selection((n - 1) as nat, wanted, x),
        a == if wanted(n - 1) {
            x.push(n - 1)
        } else {
            x
        },
{
    let last = n - 1;
    if wanted(last) {
        assert(a.contains(last));
        let at = choose|at: int| 0 <= at < a.len() && a[at] == last;
        assert(at == a.len() - 1) by {
            if at < a.len() - 1 {
                assert(a[at] < a[at + 1]);
            }
        }
        let x = a.drop_last();
        assert forall|p: int| 0 <= p < x.len() implies 0 <= #[trigger] x[p] < n - 1 && wanted(
            x[p],
        ) by {
            assert(a[p] < a[at]);
        }
        assert forall|p: int, q: int| 0 <= p < q < x.len() implies #[trigger] x[p]
            < #[trigger] x[q] by {
            assert(a[p] < a[q]);
        }
        assert forall|i: int| 0 <= i < n - 1 && #[trigger] wanted(i) implies x.contains(i) by {
            assert(a.contains(i));
            let k = choose|k: int| 0 <= k < a.len() && a[k] == i;
            assert(x[k] == i);
        }
        assert(a =~= x.push(last));
        x
    } else {
        assert forall|p: int| 0 <= p < a.len() implies 0 <= #[trigger] a[p] < n - 1 by {
            assert(wanted(a[p]));
        }
        a
    }
}

} // verus!
