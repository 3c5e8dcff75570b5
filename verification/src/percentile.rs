//! Percentile extraction from a simulated outcome sequence.
//!
//! The outcomes are sorted ascending and reduced to `rank_count` values:
//! with `step = len / rank_count`, the elements at sorted positions
//! `step - 1, 2 * step - 1, ...` are emitted, so that with one hundred
//! ranks, index 49 approximates the median and index 94 the 95th
//! percentile.  Asking for more ranks than there are outcomes (or zero
//! ranks) is a configuration error, rejected rather than guessed at.

use crate::sort::{sort_u64, sorted};
use vstd::prelude::*;

verus! {

/// Why an extraction was refused.
#[derive(Clone, Copy, Debug, PartialEq, Eq, Structural)]
pub enum RankError {
    /// Zero ranks requested: the sampling step would be undefined.
    ZeroRanks,
    /// More ranks requested than outcomes available: the step would be
    /// zero.
    TooFewOutcomes,
}

/// `out` is the rank extraction of `src`: the sorted permutation of `src`
/// sampled every `len / ranks` positions, `ranks` times.
pub open spec fn extraction_of(src: Seq<u64>, ranks: int, out: Seq<u64>) -> bool {
    exists|s: Seq<u64>|
        {
            &&& #[trigger] sorted(s)
            &&& s.to_multiset() == src.to_multiset()
            &&& s.len() == src.len()
            &&& out.len() == ranks
            &&& forall|i: int|
                0 <= i < ranks ==> #[trigger] out[i] == s[(i + 1) * (src.len() as int / ranks) - 1]
        }
}

/// Sorts a copy of `outcomes` and emits one value per rank.
///
/// Succeeds exactly when `1 <= rank_count <= outcomes.len()`; the result
/// then has exactly `rank_count` values, taken at the fixed rank stride of
/// the sorted outcomes.
pub fn extract(outcomes: &Vec<u64>, rank_count: usize) -> (res: Result<Vec<u64>, RankError>)
    ensures
        res is Ok <==> 1 <= rank_count <= outcomes@.len(),
        res == Err::<Vec<u64>, RankError>(RankError::ZeroRanks) <==> rank_count == 0,
        res == Err::<Vec<u64>, RankError>(RankError::TooFewOutcomes) <==> rank_count > 0
            && rank_count > outcomes@.len(),
        res is Ok ==> extraction_of(outcomes@, rank_count as int, res->Ok_0@),
        res is Ok ==> res->Ok_0@.len() == rank_count,
{
    if rank_count == 0 {
        return Err(RankError::ZeroRanks);
    }
    if rank_count > outcomes.len() {
        return Err(RankError::TooFewOutcomes);
    }
    let mut s: Vec<u64> = Vec::new();
    let mut i: usize = 0;
    while i < outcomes.len()
        invariant
            i <= outcomes@.len(),
            s@ == outcomes@.take(i as int),
        decreases outcomes@.len() - i,
    {
        proof {
            assert(outcomes@.take(i as int + 1) =~= outcomes@.take(i as int).push(
                outcomes@[i as int],
            ));
        }
        s.push(outcomes[i]);
        i += 1;
    }
    proof {
        assert(outcomes@.take(outcomes@.len() as int) =~= outcomes@);
    }
    sort_u64(&mut s);
    let len = outcomes.len();
    let step = len / rank_count;
    proof {
        vstd::arithmetic::div_mod::lemma_fundamental_div_mod(len as int, rank_count as int);
        vstd::arithmetic::div_mod::lemma_mod_bound(len as int, rank_count as int);
        vstd::arithmetic::div_mod::lemma_div_is_ordered(
            rank_count as int,
            len as int,
            rank_count as int,
        );
        vstd::arithmetic::div_mod::lemma_div_by_self(rank_count as int);
        assert(step >= 1);
        assert((rank_count as int) * (step as int) <= len as int);
    }
    let mut out: Vec<u64> = Vec::new();
    let mut k: usize = 0;
    while k < rank_count
        invariant
            1 <= rank_count <= len == s@.len(),
            step == len as int / rank_count as int,
            step >= 1,
            (rank_count as int) * (step as int) <= len as int,
            k <= rank_count,
            out@.len() == k,
            forall|j: int|
                0 <= j < k ==> #[trigger] out@[j] == s@[(j + 1) * (step as int) - 1],
        decreases rank_count - k,
    {
        proof {
            assert((k + 1) as int * (step as int) <= (rank_count as int) * (step as int)) by {
                vstd::arithmetic::mul::lemma_mul_inequality(
                    (k + 1) as int,
                    rank_count as int,
                    step as int,
                );
            }
            assert((k + 1) as int * (step as int) >= 1 * (step as int)) by {
                vstd::arithmetic::mul::lemma_mul_inequality(1, (k + 1) as int, step as int);
            }
        }
        let pos: usize = (k + 1) * step - 1;
        out.push(s[pos]);
        proof {
            assert(out@[k as int] == s@[(k as int + 1) * (step as int) - 1]);
        }
        k += 1;
    }
    proof {
        assert(sorted(s@));
        assert(s@.to_multiset() == outcomes@.to_multiset());
        assert(extraction_of(outcomes@, rank_count as int, out@));
    }
    Ok(out)
}

} // verus!
