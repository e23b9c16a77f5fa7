//! The benchmark estimator: how many candidates a second this machine
//! derives, measured by running the oracle on several threads for a while.
use vstd::prelude::*;
use std::sync::atomic::{AtomicU64, Ordering};
use std::time::Instant;
use crate::allocator::Worker;
use crate::error::SearchError;
use crate::key::U256;
use crate::oracle::private_key_to_addresses;
use rayon::prelude::{IntoParallelIterator, ParallelIterator};

verus! {

#[verifier::external_type_specification]
#[verifier::external_body]
pub struct ExInstant(Instant);

/// Successful derivations counted between two additions to the shared total.
const FLUSH_EVERY: u64 = 1000;

/// The first synthetic candidate of benchmark thread 0.
const FIRST_CANDIDATE: u64 = 0x80_0000_0000;

/// Candidates between the first candidates of two benchmark threads.
const THREAD_STRIDE: u128 = 1_000_000;

/// Benchmark length, in seconds, when the caller names none.
const DEFAULT_BENCHMARK_SECONDS: u64 = 5;

const NANOS_PER_SECOND: u128 = 1_000_000_000;

/// Relies on `Instant::now`.
#[verifier::external_body]
fn now() -> Instant {
    Instant::now()
}

/// Relies on `Instant::elapsed`, read as whole nanoseconds.
#[verifier::external_body]
fn elapsed_nanos(since: &Instant) -> u128 {
    since.elapsed().as_nanos()
}

/// Relies on `num_cpus::get`, which is never below one.
#[verifier::external_body]
fn host_cores() -> (r: usize)
    ensures
        r >= 1,
{
    num_cpus::get()
}

/// Candidates a second from `total` candidates in `nanos` nanoseconds,
/// rounded down and saturated at `u64::MAX`; no time at all counts as one
/// nanosecond.
pub open spec fn rate(total: nat, nanos: nat) -> nat {
    let q = (total * 1_000_000_000) / (if nanos == 0 {
        1
    } else {
        nanos
    });
    if q <= u64::MAX {
        q
    } else {
        u64::MAX as nat
    }
}

/// The throughput of a measurement: `total` candidates in `elapsed_nanos`.
pub fn throughput_from(total: u64, elapsed_nanos: u128) -> (r: u64)
    ensures
        r as nat == rate(total as nat, elapsed_nanos as nat),
{
    let d: u128 = if elapsed_nanos == 0 {
        1
    } else {
        elapsed_nanos
    };
    proof {
        assert(total as nat * 1_000_000_000 <= u64::MAX as nat * 1_000_000_000) by (nonlinear_arith)
            requires
                total <= u64::MAX,
        ;
    }
    let q = total as u128 * NANOS_PER_SECOND / d;
    if q <= u64::MAX as u128 {
        q as u64
    } else {
        u64::MAX
    }
}

/// One benchmark thread: derives consecutive synthetic candidates, from its
/// own starting point, until `seconds` have passed since `started`, and adds
/// the number of successful derivations to `total` in batches.
pub(crate) fn benchmark_worker(thread_id: usize, started: &Instant, seconds: u64, total: &AtomicU64) {
    proof {
        assert(thread_id as nat * 1_000_000 <= usize::MAX as nat * 1_000_000) by (nonlinear_arith)
            requires
                thread_id <= usize::MAX,
        ;
    }
    let offset = U256::from_u128(thread_id as u128 * THREAD_STRIDE);
    let mut key = U256::from_u64(FIRST_CANDIDATE).add(&offset);
    let budget: u128 = seconds as u128 * NANOS_PER_SECOND;
    let mut local: u64 = 0;
    let mut done = false;
    while !done
        invariant
            local < FLUSH_EVERY,
        decreases (if done {
            0
        } else {
            crate::key::key_bound() - key@
        }),
    {
        if elapsed_nanos(started) >= budget {
            done = true;
        } else {
            if private_key_to_addresses(&key).is_ok() {
                local = local + 1;
                if local == FLUSH_EVERY {
                    total.fetch_add(local, Ordering::Relaxed);
                    local = 0;
                }
            }
            match key.checked_add(&U256::from_u64(1)) {
                Some(next) => {
                    key = next;
                },
                None => {
                    done = true;
                },
            }
        }
    }
    if local > 0 {
        total.fetch_add(local, Ordering::Relaxed);
    }
}

/// Relies on rayon's `ThreadPoolBuilder` (`num_threads`, `build`, which
/// fails when the pool cannot be made) and `ThreadPool::install` with
/// `into_par_iter().for_each` over `0..threads`: the benchmark threads run
/// in a pool of their own, and the call returns once all have finished.
#[verifier::external_body]
fn run_benchmark_threads(threads: usize, started: &Instant, seconds: u64, total: &AtomicU64) -> (r: Result<(), SearchError>) {
    let pool = rayon::ThreadPoolBuilder::new().num_threads(threads).build().map_err(|_| SearchError::BenchmarkFailure)?;
    pool.install(|| (0..threads).into_par_iter().for_each(|t| benchmark_worker(t, started, seconds, total)));
    Ok(())
}

/// The number of benchmark threads: the one asked for, or the host's core
/// count `cores` when none (or zero) is asked for.
pub fn benchmark_threads(num_threads: Option<usize>, cores: usize) -> (r: usize)
    ensures
        r == match num_threads {
            Some(n) => if n > 0 {
                n
            } else {
                cores
            },
            None => cores,
        },
{
    match num_threads {
        Some(n) => if n > 0 {
            n
        } else {
            cores
        },
        None => cores,
    }
}

/// The benchmark length: the one asked for, or five seconds when none is.
pub fn benchmark_duration(benchmark_duration_seconds: Option<u64>) -> (r: u64)
    ensures
        r == match benchmark_duration_seconds {
            Some(d) => d,
            None => 5,
        },
{
    match benchmark_duration_seconds {
        Some(d) => d,
        None => DEFAULT_BENCHMARK_SECONDS,
    }
}

/// The worker called `name` with a measured throughput of `rate`; a rate
/// of zero is an anomaly and fails with `ZeroThroughput`.
pub fn worker_from_rate(name: String, rate: u64) -> (r: Result<Worker, SearchError>)
    ensures
        rate == 0 ==> r == Err::<Worker, SearchError>(SearchError::ZeroThroughput),
        rate > 0 ==> (r matches Ok(w) && w.name@ == name@ && w.hashes_per_second == rate),
{
    if rate == 0 {
        return Err(SearchError::ZeroThroughput);
    }
    Ok(Worker { name, hashes_per_second: rate })
}

/// Measures how many candidates a second this machine derives, running the
/// oracle for `benchmark_duration_seconds` on `num_threads` threads (the
/// host's core count when `None` or zero). Fails with `InvalidDuration` for
/// a duration of zero and with `BenchmarkFailure` when the threads cannot run.
pub fn benchmark_hashes_per_second(benchmark_duration_seconds: u64, num_threads: Option<usize>) -> (r: Result<u64, SearchError>)
    ensures
        benchmark_duration_seconds == 0 <==> r == Err::<u64, SearchError>(SearchError::InvalidDuration),
        r matches Err(e) ==> e == SearchError::InvalidDuration || e == SearchError::BenchmarkFailure,
{
    if benchmark_duration_seconds == 0 {
        return Err(SearchError::InvalidDuration);
    }
    let threads = benchmark_threads(num_threads, host_cores());
    let total = AtomicU64::new(0);
    let started = now();
    match run_benchmark_threads(threads, &started, benchmark_duration_seconds, &total) {
        Ok(()) => {},
        Err(_) => {
            return Err(SearchError::BenchmarkFailure);
        },
    }
    let nanos = elapsed_nanos(&started);
    Ok(throughput_from(total.load(Ordering::Relaxed), nanos))
}

/// A worker for this machine, its throughput measured by a benchmark of
/// `benchmark_duration_seconds` (five when `None`). A measured throughput of
/// zero is an anomaly and fails with `ZeroThroughput`.
pub fn create_auto_worker(name: String, benchmark_duration_seconds: Option<u64>, num_threads: Option<usize>) -> (r: Result<Worker, SearchError>)
    ensures
        r matches Ok(w) ==> w.name@ == name@ && w.hashes_per_second > 0,
        benchmark_duration_seconds == Some(0u64) <==> r == Err::<Worker, SearchError>(SearchError::InvalidDuration),
{
    let duration = benchmark_duration(benchmark_duration_seconds);
    let hashes_per_second = benchmark_hashes_per_second(duration, num_threads)?;
    worker_from_rate(name, hashes_per_second)
}

/// Benchmarks one worker per `(name, duration, threads)` entry, in order;
/// the first failure ends the run and fails the call, with no partial list.
pub fn benchmark_and_create_workers(worker_configs: Vec<(String, Option<u64>, Option<usize>)>) -> (r: Result<Vec<Worker>, SearchError>)
    ensures
        worker_configs@.len() == 0 ==> (r matches Ok(ws) && ws@.len() == 0),
        (exists|i: int| 0 <= i < worker_configs@.len() && #[trigger] worker_configs@[i].1 == Some(0u64))
            ==> r is Err,
        r matches Ok(ws) ==> ws@.len() == worker_configs@.len() && forall|i: int|
            0 <= i < ws@.len() ==> (#[trigger] ws@[i]).name@ == worker_configs@[i].0@
                && ws@[i].hashes_per_second > 0,
{
    let mut workers: Vec<Worker> = Vec::new();
    let n = worker_configs.len();
    let mut i: usize = 0;
    while i < n
        invariant
            n == worker_configs@.len(),
            i <= n,
            workers@.len() == i,
            forall|j: int| 0 <= j < i ==> #[trigger] worker_configs@[j].1 != Some(0u64),
            forall|j: int|
                0 <= j < i ==> (#[trigger] workers@[j]).name@ == worker_configs@[j].0@
                    && workers@[j].hashes_per_second > 0,
        decreases n - i,
    {
        let name = worker_configs[i].0.clone();
        let worker = create_auto_worker(name, worker_configs[i].1, worker_configs[i].2)?;
        workers.push(worker);
        i = i + 1;
    }
    Ok(workers)
}

} // verus!
