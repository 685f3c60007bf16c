//! The grid of shard configurations that the benchmark program measures, and how many
//! ways each configuration can lose shards and still be recovered.
use vstd::prelude::*;
use crate::combinatorics::{binomial, lemma_factorial_fits, n_choose_k};

verus! {

/// Passes of the timed loop per configuration.
pub const PLAN_ITERATIONS: usize = 500;

/// Shard length in bytes: a 1280-byte packet less 40 bytes of IP and TCP headers and
/// 8 bytes of framing.
pub const PLAN_PER_SHARD: usize = 1232;

/// The chunk size handed to the codec.
pub const PLAN_BYTES_PER_ENCODE: usize = 32768;

/// One configuration of the grid.
#[derive(Clone, Copy, Debug, PartialEq, Eq)]
pub struct PlanEntry {
    pub data_shards: usize,
    pub parity_shards: usize,
    /// C(data + parity, data): the number of ways to choose which `data_shards` of all the
    /// shards survive.
    pub recoverability: u128,
}

/// The configurations with `data` data shards: 2, 4, ..., `data` parity shards.
pub open spec fn plan_row(data: nat) -> Seq<(nat, nat)> {
    Seq::new(data / 2, |j: int| (data, (2 * j + 2) as nat))
}

/// The configurations with 4, 6, ..., `data` data shards, row after row.
pub open spec fn plan_rows(data: nat) -> Seq<(nat, nat)>
    decreases data,
{
    if data < 4 {
        Seq::empty()
    } else {
        plan_rows((data - 2) as nat) + plan_row(data)
    }
}

/// The whole grid: data shards 4, 6, ..., 16, and for each, parity shards 2, 4, ..., up to
/// the data shards.
pub open spec fn planned_configurations() -> Seq<(nat, nat)> {
    plan_rows(16)
}

/// The grid of configurations, in the order the benchmark program runs them, each with its
/// recoverability.
pub fn benchmark_plan() -> (r: Vec<PlanEntry>)
    ensures
        r@.len() == planned_configurations().len(),
        forall|i: int|
            0 <= i < r@.len() ==> {
                &&& (#[trigger] r@[i]).data_shards == planned_configurations()[i].0
                &&& r@[i].parity_shards == planned_configurations()[i].1
                &&& r@[i].recoverability == binomial(
                    (r@[i].data_shards + r@[i].parity_shards) as nat,
                    r@[i].data_shards as nat,
                )
            },
{
    let mut entries: Vec<PlanEntry> = Vec::new();
    let mut data: usize = 4;
    while data <= 16
        invariant
            4 <= data <= 18,
            data % 2 == 0,
            entries@.len() == plan_rows((data - 2) as nat).len(),
            forall|i: int|
                0 <= i < entries@.len() ==> {
                    &&& (#[trigger] entries@[i]).data_shards == plan_rows((data - 2) as nat)[i].0
                    &&& entries@[i].parity_shards == plan_rows((data - 2) as nat)[i].1
                    &&& entries@[i].recoverability == binomial(
                        (entries@[i].data_shards + entries@[i].parity_shards) as nat,
                        entries@[i].data_shards as nat,
                    )
                },
        decreases 18 - data,
    {
        let ghost prefix = plan_rows((data - 2) as nat);
        let ghost start = entries@.len();
        let mut parity: usize = 2;
        while parity <= data
            invariant
                4 <= data <= 16,
                data % 2 == 0,
                2 <= parity <= data + 2,
                parity % 2 == 0,
                start == prefix.len(),
                entries@.len() == start + (parity - 2) / 2,
                forall|i: int|
                    0 <= i < entries@.len() ==> {
                        &&& (#[trigger] entries@[i]).data_shards == (prefix + plan_row(
                            data as nat,
                        ))[i].0
                        &&& entries@[i].parity_shards == (prefix + plan_row(data as nat))[i].1
                        &&& entries@[i].recoverability == binomial(
                            (entries@[i].data_shards + entries@[i].parity_shards) as nat,
                            entries@[i].data_shards as nat,
                        )
                    },
            decreases data + 2 - parity,
        {
            proof {
                lemma_factorial_fits((data + parity) as nat);
                lemma_factorial_fits(data as nat);
                lemma_factorial_fits(parity as nat);
            }
            let rec = n_choose_k((data + parity) as u128, data as u128);
            let ghost before = entries@;
            entries.push(PlanEntry { data_shards: data, parity_shards: parity, recoverability: rec });
            proof {
                assert forall|i: int| 0 <= i < entries@.len() implies {
                    &&& (#[trigger] entries@[i]).data_shards == (prefix + plan_row(
                        data as nat,
                    ))[i].0
                    &&& entries@[i].parity_shards == (prefix + plan_row(data as nat))[i].1
                    &&& entries@[i].recoverability == binomial(
                        (entries@[i].data_shards + entries@[i].parity_shards) as nat,
                        entries@[i].data_shards as nat,
                    )
                } by {
                    if i < before.len() {
                        assert(entries@[i] == before[i]);
                    } else {
                        assert(i == start + (parity - 2) / 2);
                        assert((prefix + plan_row(data as nat))[i] == plan_row(data as nat)[i
                            - start]);
                    }
                }
            }
            parity = parity + 2;
        }
        proof {
            assert(plan_rows(data as nat) == prefix + plan_row(data as nat));
        }
        data = data + 2;
    }
    entries
}

} // verus!
