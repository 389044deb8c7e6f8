//! What it means that a list was made by picking from another one.

use vstd::prelude::*;

verus! {

/// Whether `out` holds the images of exactly the positions below `n` that are kept, one after the
/// other; `at` are these positions.
pub open spec fn picked_at<B>(
    n: int,
    keep: spec_fn(int) -> bool,
    image: spec_fn(int) -> B,
    out: Seq<B>,
    at: Seq<int>,
) -> bool {
    &&& at.len() == out.len()
    &&& forall|k: int|
        0 <= k < at.len() ==> 0 <= #[trigger] at[k] < n && keep(at[k]) && out[k] == image(at[k])
    &&& forall|j: int, k: int| 0 <= j < k < at.len() ==> #[trigger] at[j] < #[trigger] at[k]
    &&& forall|i: int| 0 <= i < n && #[trigger] keep(i) ==> at.contains(i)
}

/// Whether `out` holds the images of exactly the positions below `n` that are kept, in order.
pub open spec fn picked<B>(
    n: int,
    keep: spec_fn(int) -> bool,
    image: spec_fn(int) -> B,
    out: Seq<B>,
) -> bool {
    exists|at: Seq<int>| picked_at(n, keep, image, out, at)
}

/// Nothing is picked from nothing.
pub proof fn lemma_picked_none<B>(keep: spec_fn(int) -> bool, image: spec_fn(int) -> B)
    ensures
        picked(0, keep, image, Seq::empty()),
{
    assert(picked_at(0, keep, image, Seq::empty(), Seq::empty()));
}

/// One more position is picked where it is kept.
pub proof fn lemma_picked_next<B>(
    n: int,
    keep: spec_fn(int) -> bool,
    image: spec_fn(int) -> B,
    out: Seq<B>,
    more_keep: spec_fn(int) -> bool,
    more_image: spec_fn(int) -> B,
)
    requires
        n >= 0,
        picked(n, keep, image, out),
        forall|i: int| 0 <= i < n ==> #[trigger] keep(i) == more_keep(i),
        forall|i: int| 0 <= i < n && keep(i) ==> #[trigger] image(i) == more_image(i),
    ensures
        picked(
            n + 1,
            more_keep,
            more_image,
            if more_keep(n) {
                out.push(more_image(n))
            } else {
                out
            },
        ),
{
    let at = choose|at: Seq<int>| picked_at(n, keep, image, out, at);
    assert forall|i: int| 0 <= i < n && #[trigger] more_keep(i) implies at.contains(i) by {
        assert(keep(i));
    }
    if more_keep(n) {
        let more = at.push(n);
        assert forall|i: int| 0 <= i < n + 1 && #[trigger] more_keep(i) implies more.contains(
            i,
        ) by {
            if i < n {
                let k = choose|k: int| 0 <= k < at.len() && at[k] == i;
                assert(more[k] == i);
            } else {
                assert(more[at.len() as int] == i);
            }
        }
        assert forall|k: int| 0 <= k < more.len() implies 0 <= #[trigger] more[k] < n + 1
            && more_keep(more[k]) && out.push(more_image(n))[k] == more_image(more[k]) by {
            if k < at.len() {
                assert(more[k] == at[k]);
                assert(keep(at[k]));
                assert(image(at[k]) == more_image(at[k]));
            }
        }
        assert(picked_at(n + 1, more_keep, more_image, out.push(more_image(n)), more));
    } else {
        assert forall|k: int| 0 <= k < at.len() implies 0 <= #[trigger] at[k] < n + 1
            && more_keep(at[k]) && out[k] == more_image(at[k]) by {
            assert(keep(at[k]));
            assert(image(at[k]) == more_image(at[k]));
        }
        assert(picked_at(n + 1, more_keep, more_image, out, at));
    }
}

/// What is picked first comes from the first position that is kept, and nothing is picked where
/// none is.
pub proof fn lemma_picked_first<B>(
    n: int,
    keep: spec_fn(int) -> bool,
    image: spec_fn(int) -> B,
    out: Seq<B>,
    i: int,
)
    requires
        picked(n, keep, image, out),
        0 <= i <= n,
        forall|k: int| 0 <= k < i ==> !#[trigger] keep(k),
        i < n ==> keep(i),
    ensures
        i < n ==> out.len() > 0 && out[0] == image(i),
        i == n ==> out.len() == 0,
{
    let at = choose|at: Seq<int>| picked_at(n, keep, image, out, at);
    if i < n {
        assert(at.contains(i));
        let k = choose|k: int| 0 <= k < at.len() && at[k] == i;
        assert(keep(at[0]));
        assert(at[0] == i);
    } else if out.len() > 0 {
        assert(keep(at[0]));
    }
}

/// Only one list can be picked.
pub proof fn lemma_picked_unique<B>(
    n: int,
    keep: spec_fn(int) -> bool,
    image: spec_fn(int) -> B,
    a: Seq<B>,
    b: Seq<B>,
)
    requires
        n >= 0,
        picked(n, keep, image, a),
        picked(n, keep, image, b),
    ensures
        a == b,
    decreases n,
{
    if n == 0 {
        assert(a.len() == 0) by {
            let at = choose|at: Seq<int>| picked_at(n, keep, image, a, at);
            if a.len() > 0 {
                assert(0 <= at[0] < n);
            }
        }
        assert(b.len() == 0) by {
            let at = choose|at: Seq<int>| picked_at(n, keep, image, b, at);
            if b.len() > 0 {
                assert(0 <= at[0] < n);
            }
        }
        assert(a =~= b);
    } else {
        lemma_picked_before(n - 1, keep, image, a);
        lemma_picked_before(n - 1, keep, image, b);
        if keep(n - 1) {
            lemma_picked_unique(n - 1, keep, image, a.drop_last(), b.drop_last());
            assert(a =~= a.drop_last().push(a.last()));
            assert(b =~= b.drop_last().push(b.last()));
        } else {
            lemma_picked_unique(n - 1, keep, image, a, b);
        }
    }
}

/// What was picked before the last position.
proof fn lemma_picked_before<B>(
    n: int,
    keep: spec_fn(int) -> bool,
    image: spec_fn(int) -> B,
    out: Seq<B>,
)
    requires
        n >= 0,
        picked(n + 1, keep, image, out),
    ensures
        keep(n) ==> out.len() > 0 && out.last() == image(n) && picked(
            n,
            keep,
            image,
            out.drop_last(),
        ),
        !keep(n) ==> picked(n, keep, image, out),
{
    let m = n + 1;
    let at = choose|at: Seq<int>| picked_at(m, keep, image, out, at);
    if keep(n) {
        assert(at.contains(n));
        let k = choose|k: int| 0 <= k < at.len() && at[k] == n;
        assert(k == at.len() - 1) by {
            if k < at.len() - 1 {
                assert(at[k] < at[at.len() - 1]);
            }
        }
        let less = at.drop_last();
        assert forall|i: int| 0 <= i < n && #[trigger] keep(i) implies less.contains(i) by {
            assert(at.contains(i));
            let j = choose|j: int| 0 <= j < at.len() && at[j] == i;
            assert(less[j] == i);
        }
        assert forall|j: int| 0 <= j < less.len() implies 0 <= #[trigger] less[j] < n && keep(
            less[j],
        ) && out.drop_last()[j] == image(less[j]) by {
            assert(less[j] == at[j]);
            assert(at[j] < at[k]);
        }
        assert(picked_at(n, keep, image, out.drop_last(), less));
    } else {
        assert forall|j: int| 0 <= j < at.len() implies 0 <= #[trigger] at[j] < n by {
            assert(keep(at[j]));
        }
        assert(picked_at(n, keep, image, out, at));
    }
}

} // verus!
