//! The parameter planner: from a measured throughput to the shape of a
//! random-walk search, by five throughput tiers.
use vstd::prelude::*;

verus! {

/// The tier of a throughput: (seconds of work per walk, least walk count,
/// throughput per extra walk, fraction of a walk between adaptations).
pub open spec fn tier(h: nat) -> (nat, nat, nat, nat) {
    if h <= 10_000 {
        (60, 2, 5_000, 10)
    } else if h <= 50_000 {
        (30, 4, 10_000, 20)
    } else if h <= 200_000 {
        (15, 6, 25_000, 30)
    } else if h <= 500_000 {
        (10, 8, 50_000, 50)
    } else {
        (5, 12, 100_000, 100)
    }
}

pub open spec fn spec_min(a: nat, b: nat) -> nat {
    if a <= b { a } else { b }
}

pub open spec fn spec_max(a: nat, b: nat) -> nat {
    if a >= b { a } else { b }
}

/// The tier's seconds of work at throughput `h`, saturated at `usize::MAX`.
pub open spec fn raw_iterations(h: nat) -> nat {
    spec_min(h * tier(h).0, usize::MAX as nat)
}

pub open spec fn planned_iterations(h: nat) -> nat {
    spec_max(raw_iterations(h), 1000)
}

pub open spec fn planned_walks(h: nat) -> nat {
    spec_min(spec_max(spec_max(tier(h).1, h / tier(h).2), 2), 32)
}

pub open spec fn planned_adapt_interval(h: nat) -> nat {
    spec_min(spec_max(raw_iterations(h) / tier(h).3, 100), planned_iterations(h) / 2)
}

/// The walk parameters for a machine that derives `hashes_per_second`
/// candidates a second: (iterations per walk, number of walks, adaptation
/// interval). A throughput of zero is an anomaly and is not planned for.
pub fn calculate_walk_parameters(hashes_per_second: u64) -> (r: (usize, usize, usize))
    requires
        hashes_per_second > 0,
    ensures
        r.0 as nat == planned_iterations(hashes_per_second as nat),
        r.1 as nat == planned_walks(hashes_per_second as nat),
        r.2 as nat == planned_adapt_interval(hashes_per_second as nat),
{
    let h = hashes_per_second;
    let (secs, least, per_walk, adapt_div): (u64, u64, u64, u64) = if h <= 10_000 {
        (60, 2, 5_000, 10)
    } else if h <= 50_000 {
        (30, 4, 10_000, 20)
    } else if h <= 200_000 {
        (15, 6, 25_000, 30)
    } else if h <= 500_000 {
        (10, 8, 50_000, 50)
    } else {
        (5, 12, 100_000, 100)
    };
    let raw: usize = match h.checked_mul(secs) {
        Some(v) => if v <= usize::MAX as u64 {
            v as usize
        } else {
            usize::MAX
        },
        None => usize::MAX,
    };
    let mut walks: u64 = h / per_walk;
    if walks < least {
        walks = least;
    }
    let mut adapt: usize = raw / adapt_div as usize;
    let iterations: usize = if raw < 1000 {
        1000
    } else {
        raw
    };
    if walks < 2 {
        walks = 2;
    }
    if walks > 32 {
        walks = 32;
    }
    if adapt < 100 {
        adapt = 100;
    }
    if adapt > iterations / 2 {
        adapt = iterations / 2;
    }
    (iterations, walks as usize, adapt)
}

/// Every plan keeps its parameters in bounds: at least 1000 iterations,
/// between 2 and 32 walks, and an adaptation interval between 100 and half
/// the iterations.
pub proof fn lemma_plan_bounds(h: nat)
    ensures
        planned_iterations(h) >= 1000,
        2 <= planned_walks(h) <= 32,
        100 <= planned_adapt_interval(h) <= planned_iterations(h) / 2,
{
}

/// Within one tier, a lower throughput never plans more walks, nor longer
/// walks, than a higher one.
pub proof fn lemma_plan_monotone(h1: nat, h2: nat)
    requires
        h1 <= h2,
        tier(h1) == tier(h2),
    ensures
        planned_walks(h1) <= planned_walks(h2),
        planned_iterations(h1) <= planned_iterations(h2),
{
    let t = tier(h1);
    assert(h1 * t.0 <= h2 * t.0) by (nonlinear_arith)
        requires
            h1 <= h2,
    ;
    vstd::arithmetic::div_mod::lemma_div_is_ordered(h1 as int, h2 as int, t.2 as int);
}

} // verus!
