//! The graph-layout benchmark's choice of links: which existing node each new
//! node is joined to.

use vstd::prelude::*;
use vstd::wrapping::usize_specs;

verus! {

/// The pseudo-random number the benchmark draws for the node of index `idx`.
pub open spec fn bench_prng(idx: usize) -> usize {
    usize_specs::wrapping_add(usize_specs::wrapping_mul(idx, 1103515245), 12345)
}

/// The node that the `i`-th of the nodes added after `start` nodes is joined
/// to (none where the graph is still empty).
pub open spec fn inject_target(start: usize, i: int) -> Option<usize> {
    if start + i > 0 {
        Some((bench_prng((start + i) as usize) as int % (start + i)) as usize)
    } else {
        None
    }
}

/// The nodes that `count` nodes added to a graph of `start_idx` nodes are
/// joined to, in order: the node of index `n` (counting all nodes) is joined
/// to a pseudo-randomly chosen node among the `n` before it.
pub fn inject_targets(start_idx: usize, count: usize) -> (res: Vec<Option<usize>>)
    requires
        start_idx + count <= usize::MAX,
    ensures
        res@.len() == count,
        forall|i: int| 0 <= i < count ==> #[trigger] res@[i] == inject_target(start_idx, i),
{
    let mut targets: Vec<Option<usize>> = Vec::new();
    let mut i: usize = 0;
    while i < count
        invariant
            i <= count,
            start_idx + count <= usize::MAX,
            targets@.len() == i,
            forall|k: int| 0 <= k < i ==> #[trigger] targets@[k] == inject_target(start_idx, k),
        decreases count - i,
    {
        let current_idx = start_idx + i;
        if current_idx > 0 {
            let prng = current_idx.wrapping_mul(1103515245).wrapping_add(12345);
            targets.push(Some(prng % current_idx));
        } else {
            targets.push(None);
        }
        i = i + 1;
    }
    targets
}

/// The nodes that the first `count` nodes of the benchmark's seed graph are
/// joined to: the node of index `i` is joined to the node of index
/// `i % i` among the `i` before it (the first node), the first to none.
pub fn seed_targets(count: usize) -> (res: Vec<Option<usize>>)
    ensures
        res@.len() == count,
        forall|i: int| 0 <= i < count ==> #[trigger] res@[i] == (if i > 0 { Some((i % i) as usize) } else { None::<usize> }),
{
    let mut targets: Vec<Option<usize>> = Vec::new();
    let mut i: usize = 0;
    while i < count
        invariant
            i <= count,
            targets@.len() == i,
            forall|k: int| 0 <= k < i ==> #[trigger] targets@[k] == (if k > 0 { Some((k % k) as usize) } else { None::<usize> }),
        decreases count - i,
    {
        if i > 0 {
            targets.push(Some(i % i));
        } else {
            targets.push(None);
        }
        i = i + 1;
    }
    targets
}

} // verus!
