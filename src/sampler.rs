use vstd::prelude::*;
use crate::error::RandomError;
use crate::keystream::{KeystreamGenerator, StreamState, lemma_advance_step};

verus! {

/// How many 64-bit draws the rejection sampler makes before it gives up.
/// A draw is rejected with probability below `max / 2^64`, so for the bounds
/// used here running out is never expected in practice.
pub const MAX_DRAWS: u64 = 64;

/// The largest multiple of `max` that does not exceed `u64::MAX`: draws at
/// or above it are rejected.
pub open spec fn acceptance_limit(max: u64) -> int {
    (u64::MAX as int / max as int) * max as int
}

/// The `k`-th draw from `s` lies below the acceptance limit.
pub open spec fn accepted(s: StreamState, max: u64, k: nat) -> bool {
    (s.draw(k) as int) < acceptance_limit(max)
}

/// The `k`-th draw is the first one accepted.
pub open spec fn first_accepted(s: StreamState, max: u64, k: nat) -> bool {
    &&& accepted(s, max, k)
    &&& forall|j: nat| j < k ==> !accepted(s, max, j)
}

/// What the sampler returns from state `s` for bound `max > 0`, and the
/// state it leaves behind.
#[verifier::opaque]
pub open spec fn sample_outcome(s: StreamState, max: u64, r: Result<u64, RandomError>, after: StreamState) -> bool {
    match r {
        Ok(v) => exists|k: nat|
            #![trigger s.draw(k)]
            k < MAX_DRAWS && first_accepted(s, max, k) && v == s.draw(k) % max
                && after == s.advanced(k + 1),
        Err(e) => {
            &&& e == RandomError::RetriesExhausted
            &&& forall|k: nat| k < MAX_DRAWS ==> !accepted(s, max, k)
            &&& after == s.advanced(MAX_DRAWS as nat)
        },
    }
}

/// The accepted region `[0, limit)` splits evenly over the residues modulo
/// `max`: every value in it is `q * max + r` for one quotient `q` below
/// `limit / max` and one residue `r` below `max`, and every such pair gives a
/// value in it. So a uniform accepted draw gives a uniform residue.
pub proof fn lemma_accepted_region_uniform(max: u64)
    requires
        max > 0,
    ensures
        acceptance_limit(max) <= (u64::MAX as int),
        forall|v: int|
            0 <= v < acceptance_limit(max) ==> {
                &&& 0 <= #[trigger] (v / (max as int)) < (u64::MAX as int) / (max as int)
                &&& 0 <= v % (max as int) < (max as int)
                &&& v == (v / (max as int)) * (max as int) + v % (max as int)
            },
        forall|q: int, r: int|
            0 <= q < (u64::MAX as int) / (max as int) && 0 <= r < (max as int) ==> {
                &&& 0 <= #[trigger] (q * (max as int) + r) < acceptance_limit(max)
                &&& (q * (max as int) + r) % (max as int) == r
                &&& (q * (max as int) + r) / (max as int) == q
            },
{
    let m = max as int;
    let n = u64::MAX as int / m;
    assert(n * m <= u64::MAX as int) by (nonlinear_arith)
        requires n == u64::MAX as int / m, m > 0;
    assert forall|v: int| 0 <= v < acceptance_limit(max) implies {
        &&& 0 <= #[trigger] (v / m) < n
        &&& 0 <= v % m < m
        &&& v == (v / m) * m + v % m
    } by {
        vstd::arithmetic::div_mod::lemma_fundamental_div_mod(v, m);
        vstd::arithmetic::div_mod::lemma_mod_bound(v, m);
        vstd::arithmetic::div_mod::lemma_div_pos_is_pos(v, m);
        assert(v / m < n) by (nonlinear_arith)
            requires v < n * m, v == (v / m) * m + v % m, 0 <= v % m, m > 0;
    }
    assert forall|q: int, r: int| 0 <= q < n && 0 <= r < m implies {
        &&& 0 <= #[trigger] (q * m + r) < acceptance_limit(max)
        &&& (q * m + r) % m == r
        &&& (q * m + r) / m == q
    } by {
        assert(0 <= q * m + r < n * m) by (nonlinear_arith)
            requires 0 <= q < n, 0 <= r < m;
        vstd::arithmetic::div_mod::lemma_fundamental_div_mod_converse(q * m + r, m, q, r);
    }
}

/// The sampler is a function of the generator state: from one state and one
/// bound it always returns the same result and leaves the same state.
pub proof fn lemma_sample_deterministic(
    s: StreamState,
    max: u64,
    r1: Result<u64, RandomError>,
    a1: StreamState,
    r2: Result<u64, RandomError>,
    a2: StreamState,
)
    requires
        sample_outcome(s, max, r1, a1),
        sample_outcome(s, max, r2, a2),
    ensures
        r1 == r2,
        a1 == a2,
{
    reveal(sample_outcome);
    match r1 {
        Ok(v1) => {
            let k1 = choose|k: nat|
                #![trigger s.draw(k)]
                k < MAX_DRAWS && first_accepted(s, max, k) && v1 == s.draw(k) % max && a1
                    == s.advanced(k + 1);
            match r2 {
                Ok(v2) => {
                    let k2 = choose|k: nat|
                        #![trigger s.draw(k)]
                        k < MAX_DRAWS && first_accepted(s, max, k) && v2 == s.draw(k) % max && a2
                            == s.advanced(k + 1);
                    if k1 < k2 {
                        assert(!accepted(s, max, k1));
                    } else if k2 < k1 {
                        assert(!accepted(s, max, k2));
                    }
                },
                Err(_) => {
                    assert(!accepted(s, max, k1));
                },
            }
        },
        Err(_) => {
            match r2 {
                Ok(v2) => {
                    let k2 = choose|k: nat|
                        #![trigger s.draw(k)]
                        k < MAX_DRAWS && first_accepted(s, max, k) && v2 == s.draw(k) % max && a2
                            == s.advanced(k + 1);
                    assert(!accepted(s, max, k2));
                },
                Err(_) => {},
            }
        },
    }
}

impl KeystreamGenerator {
    /// An integer below `max`, with no modulo bias: 64-bit draws at or above
    /// the acceptance limit are discarded and the first accepted draw is
    /// reduced modulo `max`. A zero bound is refused.
    pub fn random_below(&mut self, max: u64) -> (r: Result<u64, RandomError>)
        requires
            old(self)@.wf(),
        ensures
            final(self)@.wf(),
            max == 0 ==> r == Err::<u64, RandomError>(RandomError::InvalidBound) && final(self)@ == old(self)@,
            max > 0 ==> sample_outcome(old(self)@, max, r, final(self)@),
            max > 0 ==> (r matches Err(e) ==> e == RandomError::RetriesExhausted),
            r matches Ok(v) ==> v < max,
    {
        if max == 0 {
            return Err(RandomError::InvalidBound);
        }
        let ghost s0 = self@;
        proof {
            reveal(sample_outcome);
            lemma_accepted_region_uniform(max);
            lemma_advance_step(s0, 0);
        }
        let limit: u64 = (u64::MAX / max) * max;
        let mut tries: u64 = 0;
        while tries < MAX_DRAWS
            invariant
                s0 == old(self)@,
                s0.wf(),
                max > 0,
                tries <= MAX_DRAWS,
                limit as int == acceptance_limit(max),
                self@ == s0.advanced(tries as nat),
                forall|j: nat| j < tries ==> !accepted(s0, max, j),
            decreases MAX_DRAWS - tries,
        {
            proof {
                lemma_advance_step(s0, tries as nat);
            }
            let v = self.next_u64();
            if v < limit {
                assert(first_accepted(s0, max, tries as nat));
                assert(s0.draw(tries as nat) == v);
                proof {
                    reveal(sample_outcome);
                }
                return Ok(v % max);
            }
            tries = tries + 1;
        }
        proof {
            reveal(sample_outcome);
        }
        Err(RandomError::RetriesExhausted)
    }
}

} // verus!
