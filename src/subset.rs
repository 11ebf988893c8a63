use vstd::prelude::*;
use crate::error::RandomError;
use crate::keystream::{KeystreamGenerator, StreamState};
use crate::sampler::{sample_outcome, lemma_sample_deterministic};

verus! {

/// The positions `0..n` in order: the pool a selection starts from.
pub open spec fn identity_pool(n: nat) -> Seq<usize> {
    Seq::new(n, |i: int| i as usize)
}

/// Exchanges the entries at `i` and `j`.
pub open spec fn swapped(pool: Seq<usize>, i: int, j: int) -> Seq<usize> {
    pool.update(i, pool[j]).update(j, pool[i])
}

/// One step of the partial Fisher–Yates shuffle: at step `i` a position
/// `i + pick` is drawn from the `n - i` not yet taken and swapped to `i`.
/// `pools[i]` is the pool before step `i`, `states[i]` the generator state.
pub open spec fn selection_trace(
    s0: StreamState,
    n: nat,
    count: nat,
    after: StreamState,
    pools: Seq<Seq<usize>>,
    states: Seq<StreamState>,
    picks: Seq<u64>,
) -> bool {
    &&& pools.len() == count + 1
    &&& states.len() == count + 1
    &&& picks.len() == count
    &&& pools[0] == identity_pool(n)
    &&& states[0] == s0
    &&& states[count as int] == after
    &&& forall|i: int|
        0 <= i < count ==> {
            &&& sample_outcome(
                #[trigger] states[i],
                (n - i) as u64,
                Ok::<u64, RandomError>(picks[i]),
                states[i + 1],
            )
            &&& pools[i + 1] == swapped(pools[i], i, i + picks[i])
        }
}

/// `idx` is the front of the pool after `idx.len()` shuffle steps from `s0`.
pub open spec fn selected_positions(s0: StreamState, n: nat, idx: Seq<usize>, after: StreamState) -> bool {
    exists|pools: Seq<Seq<usize>>, states: Seq<StreamState>, picks: Seq<u64>|
        selection_trace(s0, n, idx.len(), after, pools, states, picks) && idx == pools[idx.len()
            as int].take(idx.len() as int)
}

/// Every entry is a position below `n` and no position occurs twice.
pub open spec fn distinct_below(idx: Seq<usize>, n: nat) -> bool {
    &&& forall|i: int| 0 <= i < idx.len() ==> #[trigger] idx[i] < n
    &&& forall|i: int, j: int| 0 <= i < j < idx.len() ==> #[trigger] idx[i] != #[trigger] idx[j]
}

/// Every position below `n` occurs in `idx`.
pub open spec fn covers(idx: Seq<usize>, n: nat) -> bool {
    forall|k: int| 0 <= k < n ==> #[trigger] idx.contains(k as usize)
}

/// `pool` is a permutation of `0..n`, and `pos` its inverse.
pub open spec fn permutation_with_inverse(pool: Seq<usize>, pos: Seq<int>, n: nat) -> bool {
    &&& n <= usize::MAX
    &&& pool.len() == n
    &&& pos.len() == n
    &&& forall|a: int| 0 <= a < n ==> #[trigger] pool[a] < n && pos[pool[a] as int] == a
    &&& forall|k: int| 0 <= k < n ==> 0 <= #[trigger] pos[k] < n && pool[pos[k]] == k as usize
}

/// Swapping two entries of a permutation keeps it one, and the inverse
/// follows by swapping where the two values point.
pub proof fn lemma_swap_keeps_permutation(pool: Seq<usize>, pos: Seq<int>, n: nat, i: int, j: int)
    requires
        permutation_with_inverse(pool, pos, n),
        0 <= i < n,
        0 <= j < n,
    ensures
        permutation_with_inverse(
            swapped(pool, i, j),
            pos.update(pool[i] as int, j).update(pool[j] as int, i),
            n,
        ),
{
    let p2 = swapped(pool, i, j);
    let q2 = pos.update(pool[i] as int, j).update(pool[j] as int, i);
    assert forall|a: int| 0 <= a < n implies #[trigger] p2[a] < n && q2[p2[a] as int] == a by {
        if a != i && a != j {
            assert(pool[a] != pool[i]);
            assert(pool[a] != pool[j]);
        }
    }
    assert forall|k: int| 0 <= k < n implies 0 <= #[trigger] q2[k] < n && p2[q2[k]] == k as usize by {
        if k != pool[i] as int && k != pool[j] as int {
            assert(pool[pos[k]] == k as usize);
            assert(pos[k] != i && pos[k] != j);
        }
    }
}

/// A trace of `i` steps extends by one more step.
proof fn lemma_trace_push(
    s0: StreamState,
    n: nat,
    i: nat,
    pools: Seq<Seq<usize>>,
    states: Seq<StreamState>,
    picks: Seq<u64>,
    pool: Seq<usize>,
    after: StreamState,
    pick: u64,
)
    requires
        selection_trace(s0, n, i, states[i as int], pools, states, picks),
        sample_outcome(states[i as int], (n - i) as u64, Ok::<u64, RandomError>(pick), after),
        pool == swapped(pools[i as int], i as int, i + pick),
    ensures
        selection_trace(s0, n, i + 1, after, pools.push(pool), states.push(after), picks.push(pick)),
{
    let p2 = pools.push(pool);
    let s2 = states.push(after);
    let k2 = picks.push(pick);
    assert forall|t: int| 0 <= t < i + 1 implies {
        &&& sample_outcome(
            #[trigger] s2[t],
            (n - t) as u64,
            Ok::<u64, RandomError>(k2[t]),
            s2[t + 1],
        )
        &&& p2[t + 1] == swapped(p2[t], t, t + k2[t])
    } by {
        if t < i {
            assert(s2[t] == states[t]);
            assert(p2[t] == pools[t]);
        }
    }
}

proof fn lemma_selection_traces_agree(
    s0: StreamState,
    n: nat,
    c1: nat,
    c2: nat,
    a1: StreamState,
    p1: Seq<Seq<usize>>,
    st1: Seq<StreamState>,
    k1: Seq<u64>,
    a2: StreamState,
    p2: Seq<Seq<usize>>,
    st2: Seq<StreamState>,
    k2: Seq<u64>,
    i: int,
)
    requires
        selection_trace(s0, n, c1, a1, p1, st1, k1),
        selection_trace(s0, n, c2, a2, p2, st2, k2),
        0 <= i <= c1,
        i <= c2,
    ensures
        st1[i] == st2[i],
        p1[i] == p2[i],
    decreases i,
{
    if i > 0 {
        lemma_selection_traces_agree(s0, n, c1, c2, a1, p1, st1, k1, a2, p2, st2, k2, i - 1);
        lemma_sample_deterministic(
            st1[i - 1],
            (n - (i - 1)) as u64,
            Ok::<u64, RandomError>(k1[i - 1]),
            st1[i],
            Ok::<u64, RandomError>(k2[i - 1]),
            st2[i],
        );
    }
}

/// Selecting `count` positions from `s0` ran out of draws: `i < count`
/// steps were made, ending in `mid`, and the sample of the next step
/// exhausted its draws, leaving `after`.
pub open spec fn selection_ran_out(s0: StreamState, n: nat, count: nat, after: StreamState) -> bool {
    exists|i: nat, pools: Seq<Seq<usize>>, states: Seq<StreamState>, picks: Seq<u64>, mid: StreamState|
        #![trigger selection_trace(s0, n, i, mid, pools, states, picks)]
        i < count && selection_trace(s0, n, i, mid, pools, states, picks) && sample_outcome(
            mid,
            (n - i) as u64,
            Err::<u64, RandomError>(RandomError::RetriesExhausted),
            after,
        )
}

/// What selecting `count` positions below `n`, from state `s0`, gives and
/// the state it leaves.
pub open spec fn selection_outcome(
    s0: StreamState,
    n: nat,
    count: nat,
    r: Result<Seq<usize>, RandomError>,
    after: StreamState,
) -> bool {
    match r {
        Ok(idx) => idx.len() == count && selected_positions(s0, n, idx, after),
        Err(e) => e == RandomError::RetriesExhausted && selection_ran_out(s0, n, count, after),
    }
}

/// The contents of a position-vector result.
pub open spec fn indices_result(r: Result<Vec<usize>, RandomError>) -> Result<Seq<usize>, RandomError> {
    match r {
        Ok(v) => Ok(v@),
        Err(e) => Err(e),
    }
}

/// Selecting the same number of positions below the same `n`, starting from
/// the same generator state (the same key, nonce and position), gives the
/// same result, success or failure (the same positions in the same order),
/// and leaves the same state.
pub proof fn lemma_selection_deterministic(
    s0: StreamState,
    n: nat,
    count: nat,
    r1: Result<Seq<usize>, RandomError>,
    a1: StreamState,
    r2: Result<Seq<usize>, RandomError>,
    a2: StreamState,
)
    requires
        selection_outcome(s0, n, count, r1, a1),
        selection_outcome(s0, n, count, r2, a2),
    ensures
        r1 == r2,
        a1 == a2,
{
    let (c1, p1, st1, k1, m1) = match r1 {
        Ok(idx) => {
            let (p, st, k) = choose|pools: Seq<Seq<usize>>, states: Seq<StreamState>, picks: Seq<u64>|
                selection_trace(s0, n, idx.len(), a1, pools, states, picks) && idx == pools[idx.len()
                    as int].take(idx.len() as int);
            (idx.len(), p, st, k, a1)
        },
        Err(_) => choose|i: nat, pools: Seq<Seq<usize>>, states: Seq<StreamState>, picks: Seq<u64>, mid: StreamState|
            #![trigger selection_trace(s0, n, i, mid, pools, states, picks)]
            i < count && selection_trace(s0, n, i, mid, pools, states, picks) && sample_outcome(
                mid,
                (n - i) as u64,
                Err::<u64, RandomError>(RandomError::RetriesExhausted),
                a1,
            ),
    };
    let (c2, p2, st2, k2, m2) = match r2 {
        Ok(idx) => {
            let (p, st, k) = choose|pools: Seq<Seq<usize>>, states: Seq<StreamState>, picks: Seq<u64>|
                selection_trace(s0, n, idx.len(), a2, pools, states, picks) && idx == pools[idx.len()
                    as int].take(idx.len() as int);
            (idx.len(), p, st, k, a2)
        },
        Err(_) => choose|i: nat, pools: Seq<Seq<usize>>, states: Seq<StreamState>, picks: Seq<u64>, mid: StreamState|
            #![trigger selection_trace(s0, n, i, mid, pools, states, picks)]
            i < count && selection_trace(s0, n, i, mid, pools, states, picks) && sample_outcome(
                mid,
                (n - i) as u64,
                Err::<u64, RandomError>(RandomError::RetriesExhausted),
                a2,
            ),
    };
    let m: int = if c1 <= c2 { c1 as int } else { c2 as int };
    lemma_selection_traces_agree(s0, n, c1, c2, m1, p1, st1, k1, m2, p2, st2, k2, m);
    if c1 < c2 {
        lemma_sample_deterministic(
            st1[m],
            (n - m) as u64,
            Err::<u64, RandomError>(RandomError::RetriesExhausted),
            a1,
            Ok::<u64, RandomError>(k2[m]),
            st2[m + 1],
        );
    } else if c2 < c1 {
        lemma_sample_deterministic(
            st2[m],
            (n - m) as u64,
            Err::<u64, RandomError>(RandomError::RetriesExhausted),
            a2,
            Ok::<u64, RandomError>(k1[m]),
            st1[m + 1],
        );
    } else if r1 is Err && r2 is Err {
        lemma_sample_deterministic(
            m1,
            (n - m) as u64,
            Err::<u64, RandomError>(RandomError::RetriesExhausted),
            a1,
            Err::<u64, RandomError>(RandomError::RetriesExhausted),
            a2,
        );
    }
}

/// Draws `count` distinct positions below `n` by a partial Fisher–Yates
/// shuffle. `count` outside `1..=n` is `InvalidBound`.
pub fn sample_indices(gen: &mut KeystreamGenerator, n: usize, count: usize) -> (r: Result<Vec<usize>, RandomError>)
    requires
        old(gen)@.wf(),
    ensures
        final(gen)@.wf(),
        (count == 0 || count > n) ==> r == Err::<Vec<usize>, RandomError>(RandomError::InvalidBound)
            && final(gen)@ == old(gen)@,
        0 < count <= n ==> selection_outcome(old(gen)@, n as nat, count as nat, indices_result(r), final(gen)@),
        r matches Ok(idx) ==> {
            &&& idx@.len() == count
            &&& distinct_below(idx@, n as nat)
            &&& count == n ==> covers(idx@, n as nat)
        },
{
    if count == 0 || count > n {
        return Err(RandomError::InvalidBound);
    }
    let mut pool: Vec<usize> = Vec::new();
    let mut k: usize = 0;
    while k < n
        invariant
            k <= n,
            pool@ == identity_pool(k as nat),
        decreases n - k,
    {
        pool.push(k);
        k = k + 1;
        assert(pool@ =~= identity_pool(k as nat));
    }
    let ghost mut pos: Seq<int> = Seq::new(n as nat, |i: int| i);
    let ghost mut pools: Seq<Seq<usize>> = seq![pool@];
    let ghost mut states: Seq<StreamState> = seq![gen@];
    let ghost mut picks: Seq<u64> = Seq::empty();
    let mut i: usize = 0;
    while i < count
        invariant
            0 < count <= n,
            i <= count,
            gen@.wf(),
            permutation_with_inverse(pool@, pos, n as nat),
            selection_trace(old(gen)@, n as nat, i as nat, gen@, pools, states, picks),
            pools[i as int] == pool@,
        decreases count - i,
    {
        let ghost before = gen@;
        let pick = match gen.random_below((n - i) as u64) {
            Ok(v) => v,
            Err(e) => {
                proof {
                    assert(selection_trace(old(gen)@, n as nat, i as nat, before, pools, states, picks));
                    assert(selection_ran_out(old(gen)@, n as nat, count as nat, gen@));
                }
                return Err(e);
            },
        };
        let j: usize = i + pick as usize;
        let a = pool[i];
        let b = pool[j];
        proof {
            lemma_swap_keeps_permutation(pool@, pos, n as nat, i as int, j as int);
        }
        pool.set(i, b);
        pool.set(j, a);
        proof {
            pos = pos.update(a as int, j as int).update(b as int, i as int);
            lemma_trace_push(old(gen)@, n as nat, i as nat, pools, states, picks, pool@, gen@, pick);
            pools = pools.push(pool@);
            states = states.push(gen@);
            picks = picks.push(pick);
        }
        i = i + 1;
    }
    let mut idx: Vec<usize> = Vec::new();
    let mut t: usize = 0;
    while t < count
        invariant
            t <= count <= n,
            pool@.len() == n,
            idx@ == pool@.take(t as int),
        decreases count - t,
    {
        idx.push(pool[t]);
        t = t + 1;
        assert(idx@ =~= pool@.take(t as int));
    }
    proof {
        assert forall|x: int, y: int| 0 <= x < y < idx@.len() implies #[trigger] idx@[x] != #[trigger] idx@[y] by {
            assert(pos[pool@[x] as int] == x);
            assert(pos[pool@[y] as int] == y);
        }
        if count == n {
            assert forall|k: int| 0 <= k < n implies #[trigger] idx@.contains(k as usize) by {
                assert(idx@[pos[k]] == k as usize);
            }
        }
    }
    Ok(idx)
}

/// `out` holds, in order, clones of the items at positions `idx`.
pub open spec fn projected<T: Clone>(items: Seq<T>, idx: Seq<usize>, out: Seq<T>) -> bool {
    &&& out.len() == idx.len()
    &&& forall|i: int| 0 <= i < idx.len() ==> cloned::<T>(items[#[trigger] idx[i] as int], out[i])
}

/// Items taken at distinct positions are a sub-multiset of the items; taken
/// at every position, they are the same multiset, each item once.
pub proof fn lemma_selection_multiset<T>(items: Seq<T>, idx: Seq<usize>, out: Seq<T>)
    requires
        distinct_below(idx, items.len()),
        out.len() == idx.len(),
        forall|i: int| 0 <= i < idx.len() ==> out[i] == items[#[trigger] idx[i] as int],
    ensures
        out.to_multiset().subset_of(items.to_multiset()),
        idx.len() == items.len() ==> out.to_multiset() == items.to_multiset(),
    decreases idx.len(),
{
    broadcast use vstd::seq_lib::group_to_multiset_ensures;

    if idx.len() == 0 {
        assert(out =~= Seq::<T>::empty());
        if items.len() == 0 {
            assert(items =~= Seq::<T>::empty());
        }
    } else {
        let last = idx.len() - 1;
        let k = idx[last] as int;
        let v = out[last];
        let items2 = items.remove(k);
        let out2 = out.drop_last();
        let idx2 = idx.drop_last().map_values(|j: usize| if (j as int) < k { j } else { (j - 1) as usize });
        assert forall|i: int| 0 <= i < idx2.len() implies #[trigger] idx2[i] < items2.len() by {
            assert(idx[i] != idx[last]);
        }
        assert forall|i: int, j: int| 0 <= i < j < idx2.len() implies #[trigger] idx2[i] != #[trigger] idx2[j] by {
            assert(idx[i] != idx[last]);
            assert(idx[j] != idx[last]);
            assert(idx[i] != idx[j]);
        }
        assert forall|i: int| 0 <= i < idx2.len() implies out2[i] == items2[#[trigger] idx2[i] as int] by {
            assert(idx[i] != idx[last]);
            assert(out2[i] == out[i]);
        }
        lemma_selection_multiset(items2, idx2, out2);
        assert(out =~= out2.push(v));
        assert(items.to_multiset().count(v) > 0) by {
            assert(items[k] == v);
            assert(items.contains(v));
        }
        assert(items2.to_multiset() =~= items.to_multiset().remove(v));
        assert(out.to_multiset() =~= out2.to_multiset().insert(v));
        if idx.len() == items.len() {
            assert(out.to_multiset() =~= items.to_multiset());
        }
    }
}

/// Cloning a `T` gives back an equal value (as for `String` or integers).
pub open spec fn clone_is_identity<T: Clone>() -> bool {
    forall|a: T, b: T| #[trigger] cloned::<T>(a, b) ==> a == b
}

/// `out` is `count` of the items, each taken at most as often as it occurs
/// in `items`; when all are taken, each item occurs exactly once.
pub open spec fn taken_from<T>(items: Seq<T>, count: nat, out: Seq<T>) -> bool {
    &&& out.len() == count
    &&& forall|i: int| 0 <= i < out.len() ==> items.contains(#[trigger] out[i])
    &&& out.to_multiset().subset_of(items.to_multiset())
    &&& count == items.len() ==> out.to_multiset() == items.to_multiset()
}

proof fn lemma_projection_taken_from<T: Clone>(items: Seq<T>, idx: Seq<usize>, out: Seq<T>)
    requires
        distinct_below(idx, items.len()),
        projected(items, idx, out),
    ensures
        clone_is_identity::<T>() ==> taken_from(items, idx.len(), out),
{
    if clone_is_identity::<T>() {
        assert forall|i: int| 0 <= i < idx.len() implies out[i] == items[#[trigger] idx[i] as int] by {
            assert(cloned::<T>(items[idx[i] as int], out[i]));
        }
        assert forall|i: int| 0 <= i < out.len() implies items.contains(#[trigger] out[i]) by {
            assert(out[i] == items[idx[i] as int]);
        }
        lemma_selection_multiset(items, idx, out);
    }
}

/// Clones the items at the given positions.
pub fn project<T: Clone>(items: &Vec<T>, idx: &Vec<usize>) -> (out: Vec<T>)
    requires
        forall|i: int| 0 <= i < idx@.len() ==> #[trigger] idx@[i] < items@.len(),
    ensures
        projected(items@, idx@, out@),
{
    let mut out: Vec<T> = Vec::new();
    let mut t: usize = 0;
    while t < idx.len()
        invariant
            t <= idx@.len(),
            forall|i: int| 0 <= i < idx@.len() ==> #[trigger] idx@[i] < items@.len(),
            projected(items@, idx@.take(t as int), out@),
        decreases idx.len() - t,
    {
        let v = items[idx[t]].clone();
        out.push(v);
        t = t + 1;
        assert(idx@.take(t as int)[t - 1] == idx@[t - 1]);
        assert forall|i: int| 0 <= i < t implies cloned::<T>(
            items@[#[trigger] idx@.take(t as int)[i] as int],
            out@[i],
        ) by {
            if i < t - 1 {
                assert(idx@.take(t as int)[i] == idx@.take(t - 1)[i]);
            }
        }
    }
    assert(idx@.take(t as int) =~= idx@);
    out
}

/// `count` items of `items`, chosen without replacement with keystream
/// `gen`. `count` outside `1..=items.len()` is `InvalidBound`.
pub fn choose_with<T: Clone>(gen: &mut KeystreamGenerator, items: &Vec<T>, count: usize) -> (r: Result<Vec<T>, RandomError>)
    requires
        old(gen)@.wf(),
    ensures
        final(gen)@.wf(),
        (count == 0 || count > items@.len()) ==> r == Err::<Vec<T>, RandomError>(RandomError::InvalidBound)
            && final(gen)@ == old(gen)@,
        0 < count <= items@.len() ==> match r {
            Ok(out) => exists|idx: Seq<usize>|
                selection_outcome(
                    old(gen)@,
                    items@.len(),
                    count as nat,
                    Ok::<Seq<usize>, RandomError>(idx),
                    final(gen)@,
                ) && #[trigger] projected(items@, idx, out@),
            Err(e) => selection_outcome(
                old(gen)@,
                items@.len(),
                count as nat,
                Err::<Seq<usize>, RandomError>(e),
                final(gen)@,
            ),
        },
        r matches Ok(out) ==> clone_is_identity::<T>() ==> taken_from(items@, count as nat, out@),
        r matches Ok(out) ==> exists|idx: Seq<usize>|
            {
                &&& idx.len() == count
                &&& distinct_below(idx, items@.len())
                &&& count == items@.len() ==> covers(idx, items@.len())
                &&& #[trigger] projected(items@, idx, out@)
            },
{
    let idx = match sample_indices(gen, items.len(), count) {
        Ok(idx) => idx,
        Err(e) => {
            return Err(e);
        },
    };
    let out = project(items, &idx);
    proof {
        lemma_projection_taken_from(items@, idx@, out@);
    }
    assert(selection_outcome(old(gen)@, items@.len(), count as nat, Ok::<Seq<usize>, RandomError>(idx@), gen@)
        && projected(items@, idx@, out@));
    let r: Result<Vec<T>, RandomError> = Ok(out);
    assert(r matches Ok(o) ==> o@ == out@);
    r
}

/// `count_of_items` items of `items`, chosen without replacement (every
/// subset of that size equally likely) with a generator freshly seeded by
/// the operating system. When every item is asked for, each comes back once,
/// in some order.
pub fn generate_random_choose<T: Clone>(items: Vec<T>, count_of_items: usize) -> (r: Result<Vec<T>, RandomError>)
    ensures
        (count_of_items == 0 || count_of_items > items@.len()) ==> r == Err::<Vec<T>, RandomError>(
            RandomError::InvalidBound,
        ),
        0 < count_of_items <= items@.len() ==> (r matches Err(e) ==> e
            == RandomError::EntropyUnavailable || e == RandomError::RetriesExhausted),
        r matches Ok(out) ==> exists|idx: Seq<usize>|
            {
                &&& idx.len() == count_of_items
                &&& distinct_below(idx, items@.len())
                &&& count_of_items == items@.len() ==> covers(idx, items@.len())
                &&& #[trigger] projected(items@, idx, out@)
            },
        r matches Ok(out) ==> clone_is_identity::<T>() ==> taken_from(items@, count_of_items as nat, out@),
{
    if count_of_items == 0 || count_of_items > items.len() {
        return Err(RandomError::InvalidBound);
    }
    let mut gen = KeystreamGenerator::from_entropy()?;
    choose_with(&mut gen, &items, count_of_items)
}

} // verus!
