//! The positions at which something holds, in ascending order.

use vstd::prelude::*;

verus! {

/// The positions below `n` at which `holds`, in ascending order.
pub open spec fn positions_where(n: nat, holds: spec_fn(int) -> bool) -> Seq<int>
    decreases n,
{
    if n == 0 {
        Seq::empty()
    } else if holds(n - 1) {
        positions_where((n - 1) as nat, holds).push(n - 1)
    } else {
        positions_where((n - 1) as nat, holds)
    }
}

/// The machine integers of `indices` as numbers.
pub open spec fn numbers(indices: Seq<usize>) -> Seq<int> {
    Seq::new(indices.len(), |k: int| indices[k] as int)
}

/// `positions_where` lists exactly the positions that qualify, each once, in
/// ascending order.
pub proof fn lemma_positions_where(n: nat, holds: spec_fn(int) -> bool)
    ensures
        forall|k: int|
            0 <= k < positions_where(n, holds).len() ==> 0 <= #[trigger] positions_where(
                n,
                holds,
            )[k] < n && holds(positions_where(n, holds)[k]),
        forall|i: int| 0 <= i < n && #[trigger] holds(i) ==> positions_where(n, holds).contains(i),
        forall|k: int, l: int|
            0 <= k < l < positions_where(n, holds).len() ==> #[trigger] positions_where(n, holds)[k]
                < #[trigger] positions_where(n, holds)[l],
    decreases n,
{
    if n > 0 {
        let m = (n - 1) as nat;
        lemma_positions_where(m, holds);
        let before = positions_where(m, holds);
        let all = positions_where(n, holds);
        assert forall|i: int| 0 <= i < n && #[trigger] holds(i) implies all.contains(i) by {
            if i < m {
                let k = choose|k: int| 0 <= k < before.len() && before[k] == i;
                assert(all[k] == i);
            } else {
                assert(all.last() == i);
            }
        }
    }
}

} // verus!
