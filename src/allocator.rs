//! The worker allocator: splits a key range across workers in list order,
//! each taking what it can scan in the target time.
use vstd::prelude::*;
use crate::error::SearchError;
use crate::key::{U256, key_bound};

verus! {

/// A machine that can take part in a search.
#[derive(Clone, Debug)]
pub struct Worker {
    pub name: String,
    pub hashes_per_second: u64,
}

/// The part of a range given to one worker.
#[derive(Clone, Debug)]
pub struct WorkerRange {
    pub worker_name: String,
    pub hashes_per_second: u64,
    /// First key of the part.
    pub start: U256,
    /// Last key of the part (inclusive).
    pub end: U256,
    /// Number of keys in the part, saturated at `u64::MAX`.
    pub range_size: u64,
    /// `range_size` at the worker's throughput, in whole milliseconds (rounded down).
    pub estimated_time_millis: u64,
}

/// Keys a worker at `h` keys a second scans in `t` minutes.
pub open spec fn budget(h: nat, t: nat) -> nat {
    h * t * 60
}

/// The throughputs of a worker list, in order.
pub open spec fn throughputs(ws: Seq<Worker>) -> Seq<nat> {
    ws.map_values(|w: Worker| w.hashes_per_second as nat)
}

/// The allocation over the workers with throughputs `hs`, from `start` to
/// `end` in `t` minutes: the inclusive parts handed out so far, in worker
/// order, and the cursor where the next part would begin.
pub open spec fn allocation(hs: Seq<nat>, start: nat, end: nat, t: nat) -> (Seq<(nat, nat)>, nat)
    decreases hs.len(),
{
    if hs.len() == 0 {
        (Seq::empty(), start)
    } else {
        let prev = allocation(hs.drop_last(), start, end, t);
        let c = prev.1;
        if c > end {
            prev
        } else {
            let e = if c + budget(hs.last(), t) - 1 <= end {
                (c + budget(hs.last(), t) - 1) as nat
            } else {
                end
            };
            (prev.0.push((c, e)), e + 1)
        }
    }
}

pub open spec fn size_saturated(s: nat, e: nat) -> nat {
    if e + 1 - s <= u64::MAX {
        (e + 1 - s) as nat
    } else {
        u64::MAX as nat
    }
}

/// The error, if any, that an allocation request meets first.
pub open spec fn allocation_error(ws: Seq<Worker>, start: nat, end: nat, t: nat) -> Option<SearchError> {
    if ws.len() == 0 {
        Some(SearchError::NoWorkers)
    } else if start > end {
        Some(SearchError::InvalidRange)
    } else if t == 0 {
        Some(SearchError::InvalidDuration)
    } else if exists|i: int| 0 <= i < ws.len() && ws[i].hashes_per_second == 0 {
        Some(SearchError::ZeroThroughput)
    } else {
        None
    }
}

/// `r` is the part given to worker `w`, from `s` to `e`.
pub open spec fn is_assignment(r: WorkerRange, w: Worker, s: nat, e: nat) -> bool {
    &&& r.worker_name@ == w.name@
    &&& r.hashes_per_second == w.hashes_per_second
    &&& r.start@ == s
    &&& r.end@ == e
    &&& r.range_size as nat == size_saturated(s, e)
    &&& r.estimated_time_millis as nat == (r.range_size as nat * 1000) / (w.hashes_per_second as nat)
}

/// Splits `[range_start, range_end]` across `workers` in the given order:
/// each takes the next `hashes_per_second * target_time_minutes * 60` keys,
/// the last part clamped to the range. What no worker could take comes back
/// as the leftover range.
pub fn distribute_range_to_workers(
    workers: Vec<Worker>,
    range_start: &U256,
    range_end: &U256,
    target_time_minutes: u32,
) -> (r: Result<(Vec<WorkerRange>, Option<(U256, U256)>), SearchError>)
    ensures
        match allocation_error(workers@, range_start@, range_end@, target_time_minutes as nat) {
            Some(e) => r == Err::<(Vec<WorkerRange>, Option<(U256, U256)>), SearchError>(e),
            None => r is Ok,
        },
        r matches Ok((ranges, leftover)) ==> {
            let a = allocation(
                throughputs(workers@),
                range_start@,
                range_end@,
                target_time_minutes as nat,
            );
            &&& ranges@.len() == a.0.len()
            &&& forall|i: int|
                0 <= i < ranges@.len() ==> is_assignment(
                    #[trigger] ranges@[i],
                    workers@[i],
                    a.0[i].0,
                    a.0[i].1,
                )
            &&& match leftover {
                Some((s, e)) => a.1 <= range_end@ && s@ == a.1 && e@ == range_end@,
                None => a.1 > range_end@,
            }
        },
{
    if workers.len() == 0 {
        return Err(SearchError::NoWorkers);
    }
    if range_end.less_than(range_start) {
        return Err(SearchError::InvalidRange);
    }
    if target_time_minutes == 0 {
        return Err(SearchError::InvalidDuration);
    }
    let n = workers.len();
    let mut k: usize = 0;
    while k < n
        invariant
            n == workers@.len(),
            n > 0,
            range_start@ <= range_end@,
            target_time_minutes > 0,
            k <= n,
            forall|j: int| 0 <= j < k ==> workers@[j].hashes_per_second > 0,
        decreases n - k,
    {
        if workers[k].hashes_per_second == 0 {
            proof {
                assert(workers@[k as int].hashes_per_second == 0);
            }
            return Err(SearchError::ZeroThroughput);
        }
        k = k + 1;
    }
    let ghost hs = throughputs(workers@);
    let ghost t = target_time_minutes as nat;
    let mut ranges: Vec<WorkerRange> = Vec::new();
    let mut cursor = *range_start;
    let mut done = false;
    let mut i: usize = 0;
    while i < n
        invariant
            n == workers@.len(),
            hs == throughputs(workers@),
            t == target_time_minutes as nat,
            t > 0,
            i <= n,
            range_start@ <= range_end@,
            forall|j: int| 0 <= j < n ==> workers@[j].hashes_per_second > 0,
            ranges@.len() == allocation(hs.take(i as int), range_start@, range_end@, t).0.len(),
            ranges@.len() <= i,
            !done ==> ranges@.len() == i,
            forall|j: int|
                0 <= j < ranges@.len() ==> is_assignment(
                    #[trigger] ranges@[j],
                    workers@[j],
                    allocation(hs.take(i as int), range_start@, range_end@, t).0[j].0,
                    allocation(hs.take(i as int), range_start@, range_end@, t).0[j].1,
                ),
            done ==> allocation(hs.take(i as int), range_start@, range_end@, t).1 == range_end@ + 1,
            !done ==> allocation(hs.take(i as int), range_start@, range_end@, t).1 == cursor@,
            !done ==> cursor@ <= range_end@,
        decreases n - i,
    {
        let ghost prev = allocation(hs.take(i as int), range_start@, range_end@, t);
        proof {
            assert(hs.take(i as int + 1).drop_last() =~= hs.take(i as int));
            assert(hs.take(i as int + 1).last() == hs[i as int]);
        }
        if !done {
            let h = workers[i].hashes_per_second;
            proof {
                assert(h as nat * t <= u64::MAX as nat * u32::MAX as nat) by (nonlinear_arith)
                    requires
                        h <= u64::MAX,
                        t <= u32::MAX,
                ;
            }
            let b: u128 = h as u128 * target_time_minutes as u128 * 60;
            proof {
                assert(h as nat * t * 60 >= 1) by (nonlinear_arith)
                    requires
                        h >= 1,
                        t >= 1,
                ;
                assert(b as nat == budget(hs[i as int], t));
            }
            let span = U256::from_u128(b - 1);
            let worker_end = match cursor.checked_add(&span) {
                Some(e) => if e.at_most(range_end) {
                    e
                } else {
                    *range_end
                },
                None => *range_end,
            };
            let size = worker_end.sub(&cursor);
            let range_size: u64 = if size.hi == 0 && size.lo < u64::MAX as u128 {
                (size.lo + 1) as u64
            } else {
                u64::MAX
            };
            proof {
                assert(size@ + 1 <= b as nat);
                let x = range_size as nat * 1000;
                let y = (t * 60000) as nat;
                assert(x <= h as nat * y) by (nonlinear_arith)
                    requires
                        range_size as nat <= b as nat,
                        b as nat == h as nat * t * 60,
                        x == range_size as nat * 1000,
                        y == t * 60000,
                ;
                vstd::arithmetic::div_mod::lemma_div_is_ordered(x as int, (h as nat * y) as int, h as int);
                vstd::arithmetic::div_mod::lemma_div_multiples_vanish(y as int, h as int);
                assert(y <= u32::MAX as nat * 60000);
            }
            let millis: u64 = ((range_size as u128 * 1000) / h as u128) as u64;
            proof {
                assert(size@ < u64::MAX <==> (size.hi == 0 && size.lo < u64::MAX as u128)) by (nonlinear_arith)
                    requires
                        size@ == size.hi as nat * crate::key::half_base() + size.lo as nat,
                        crate::key::half_base() > u64::MAX as nat,
                ;
            }
            ranges.push(
                WorkerRange {
                    worker_name: workers[i].name.clone(),
                    hashes_per_second: h,
                    start: cursor,
                    end: worker_end,
                    range_size,
                    estimated_time_millis: millis,
                },
            );
            let ghost c = cursor@;
            proof {
                let e = if c + budget(hs[i as int], t) - 1 <= range_end@ {
                    (c + budget(hs[i as int], t) - 1) as nat
                } else {
                    range_end@
                };
                assert(worker_end@ == e);
                assert(allocation(hs.take(i as int + 1), range_start@, range_end@, t) == (
                prev.0.push((c, e)), e + 1));
                assert forall|j: int| 0 <= j < ranges@.len() implies is_assignment(
                    #[trigger] ranges@[j],
                    workers@[j],
                    allocation(hs.take(i as int + 1), range_start@, range_end@, t).0[j].0,
                    allocation(hs.take(i as int + 1), range_start@, range_end@, t).0[j].1,
                ) by {
                    if j < i {
                        assert(prev.0.push((c, e))[j] == prev.0[j]);
                    }
                }
            }
            if worker_end.equals(range_end) {
                done = true;
            } else {
                proof {
                    assert(worker_end@ + 1 < key_bound());
                }
                cursor = worker_end.add(&U256::from_u64(1));
            }
        } else {
            proof {
                assert(allocation(hs.take(i as int + 1), range_start@, range_end@, t) == prev);
            }
        }
        i = i + 1;
    }
    proof {
        assert(hs.take(n as int) =~= hs);
    }
    let leftover = if done {
        None
    } else {
        Some((cursor, *range_end))
    };
    Ok((ranges, leftover))
}

/// The wall-clock time of a plan whose workers run in parallel: the largest
/// estimate among its parts, in milliseconds (zero for no parts).
pub fn total_estimated_time_millis(ranges: &Vec<WorkerRange>) -> (r: u64)
    ensures
        forall|i: int| 0 <= i < ranges@.len() ==> #[trigger] ranges@[i].estimated_time_millis <= r,
        ranges@.len() == 0 ==> r == 0,
        ranges@.len() > 0 ==> exists|i: int|
            0 <= i < ranges@.len() && #[trigger] ranges@[i].estimated_time_millis == r,
{
    let mut best: u64 = 0;
    let mut i: usize = 0;
    while i < ranges.len()
        invariant
            i <= ranges@.len(),
            forall|j: int| 0 <= j < i ==> #[trigger] ranges@[j].estimated_time_millis <= best,
            i == 0 ==> best == 0,
            i > 0 ==> exists|j: int| 0 <= j < i && #[trigger] ranges@[j].estimated_time_millis == best,
        decreases ranges@.len() - i,
    {
        if ranges[i].estimated_time_millis >= best {
            best = ranges[i].estimated_time_millis;
        }
        i = i + 1;
    }
    best
}

/// Allocation conservation: with positive throughputs and a positive target
/// time over a range `start <= end`, the parts handed out, followed by the
/// leftover `[cursor, end]` when the cursor is still in the range, partition
/// the range exactly. The first part begins at `start`; each part is
/// non-empty, stays within the range and begins right after the one before;
/// the cursor lies right after the last part; parts follow the worker order,
/// one per worker, and a worker goes without only once the range is used up.
pub proof fn lemma_allocation_partitions(hs: Seq<nat>, start: nat, end: nat, t: nat)
    requires
        start <= end,
        t > 0,
        forall|i: int| 0 <= i < hs.len() ==> hs[i] > 0,
    ensures
        ({
            let (p, c) = allocation(hs, start, end, t);
            &&& p.len() <= hs.len()
            &&& hs.len() > 0 ==> p.len() > 0
            &&& p.len() == 0 ==> c == start
            &&& p.len() > 0 ==> p[0].0 == start && c == p.last().1 + 1
            &&& forall|i: int| 0 <= i < p.len() ==> #[trigger] p[i].0 <= p[i].1 && p[i].1 <= end
            &&& forall|i: int| 0 < i < p.len() ==> #[trigger] p[i].0 == p[i - 1].1 + 1
            &&& forall|i: int|
                0 <= i < p.len() ==> #[trigger] p[i].1 + 1 - p[i].0 == budget(hs[i], t) || p[i].1
                    == end
            &&& c <= end + 1
            &&& p.len() < hs.len() ==> c == end + 1
        }),
    decreases hs.len(),
{
    if hs.len() > 0 {
        let hp = hs.drop_last();
        assert forall|i: int| 0 <= i < hp.len() implies hp[i] > 0 by {
            assert(hp[i] == hs[i]);
        }
        lemma_allocation_partitions(hp, start, end, t);
        let (pp, cp) = allocation(hp, start, end, t);
        if cp <= end {
            let b = budget(hs.last(), t);
            assert(b >= 1) by (nonlinear_arith)
                requires
                    b == hs.last() * t * 60,
                    hs.last() > 0,
                    t > 0,
            ;
            let e = if cp + b - 1 <= end {
                (cp + b - 1) as nat
            } else {
                end
            };
            let p = pp.push((cp, e));
            assert(allocation(hs, start, end, t) == (p, e + 1));
            assert forall|i: int| 0 <= i < p.len() implies #[trigger] p[i].0 <= p[i].1 && p[i].1
                <= end by {
                if i < pp.len() {
                    assert(p[i] == pp[i]);
                }
            }
            assert forall|i: int| 0 < i < p.len() implies #[trigger] p[i].0 == p[i - 1].1 + 1 by {
                if i < pp.len() {
                    assert(p[i] == pp[i]);
                    assert(p[i - 1] == pp[i - 1]);
                } else {
                    assert(p[i - 1] == pp.last());
                }
            }
            assert forall|i: int| 0 <= i < p.len() implies #[trigger] p[i].1 + 1 - p[i].0 == budget(
                hs[i],
                t,
            ) || p[i].1 == end by {
                if i < pp.len() {
                    assert(p[i] == pp[i]);
                    assert(hs[i] == hp[i]);
                }
            }
        }
    }
}

} // verus!
