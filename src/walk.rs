//! The adaptive random walk: a randomized exploration of a key range seen
//! as a ring of positions, with cycle detection and step adaptation.
use vstd::prelude::*;
use std::collections::HashSet;
use std::sync::atomic::{AtomicU64, Ordering};
use rand::rngs::StdRng;
use crate::error::SearchError;
use crate::hex::is_fixed_hex_of;
use crate::key::U256;
use crate::oracle::{candidate_match, check_candidate, is_match, target_texts};
use crate::random::{chance, draw_below, draw_u32, draw_u64, rng_from_seed};
use rayon::prelude::{IntoParallelIterator, ParallelIterator};

verus! {

/// Candidates tested between two additions to the shared counter.
const FLUSH_EVERY: u64 = 1000;

/// Iterations between two chances of a step boost.
const BOOST_EVERY: usize = 5000;

/// The step sizes a walk draws from when it resets or adapts.
pub open spec fn step_variant(i: int) -> nat {
    seq![1nat, 2, 3, 5, 8, 13, 21, 34, 55, 89, 144, 233, 377, 610, 987, 1597][i]
}

/// A step drawn from variant `j`, factor `f` and long-jump factor `l`.
pub open spec fn step_draw(j: int, f: nat, l: nat) -> nat {
    step_variant(j) * f * l
}

fn pick_step_variant(i: u32) -> (r: u64)
    requires
        i < 16,
    ensures
        r as nat == step_variant(i as int),
{
    let v: [u64; 16] = [1, 2, 3, 5, 8, 13, 21, 34, 55, 89, 144, 233, 377, 610, 987, 1597];
    v[i as usize]
}

/// A walk over `[start, end]` is sure to find a match: the range is the
/// single key `start`, one of whose fingerprints is a target, and the walk
/// has at least one iteration.
pub open spec fn single_key_match(targets: Set<String>, start: nat, end: nat, max_iter: usize) -> bool {
    start == end && max_iter >= 1 && candidate_match(target_texts(targets), start) is Some
}

/// A match found in `[start, end]`: `key_hex` is the key as 64 hex digits
/// and `fp` a fingerprint of that key among the targets.
pub open spec fn is_found_in(
    targets: Set<Seq<char>>,
    start: nat,
    end: nat,
    key_hex: Seq<char>,
    fp: Seq<char>,
) -> bool {
    exists|k: nat| start <= k <= end && is_fixed_hex_of(key_hex, k) && #[trigger] is_match(targets, k, fp)
}

/// Relies on `HashSet::insert` over pairs of `u128`, whose `Eq` and `Hash`
/// go by the values: true when the position was absent; it is held after.
#[verifier::external_body]
fn visit(seen: &mut HashSet<(u128, u128)>, p: (u128, u128)) -> (r: bool)
    ensures
        final(seen)@ == old(seen)@.insert(p),
        r == !old(seen)@.contains(p),
{
    seen.insert(p)
}

fn flush(keys_checked: Option<&AtomicU64>, count: u64) {
    if let Some(counter) = keys_checked {
        counter.fetch_add(count, Ordering::Relaxed);
    }
}

/// Draws a fresh step: a variant, times a factor in `[1, 20)`, and with a
/// chance of one in ten times a long-jump factor in `[100, 1000)`; reduced
/// modulo the ring `[0, top]`.
pub fn adapt_random_walk(step_size: &mut U256, rng: &mut StdRng, top: &U256)
    ensures
        exists|j: int, f: nat, l: nat|
            0 <= j < 16 && 1 <= f < 20 && (l == 1 || 100 <= l < 1000) && final(step_size)@ == (
            #[trigger] step_draw(j, f, l)) % (top@ + 1),
{
    let j = draw_below(rng, 0, 16);
    let base = pick_step_variant(j);
    let f = draw_below(rng, 1, 20);
    let mut l: u32 = 1;
    if chance(rng, 1, 10) {
        l = draw_below(rng, 100, 1000);
    }
    proof {
        assert(base * f <= 1597 * 20) by (nonlinear_arith)
            requires
                base <= 1597,
                f < 20,
        ;
        assert(base * f * l <= 1597 * 20 * 1000) by (nonlinear_arith)
            requires
                base * f <= 1597 * 20,
                l < 1000,
        ;
    }
    *step_size = U256::rem_u64(base * f as u64 * l as u64, top);
    assert(final(step_size)@ == step_draw(j as int, f as nat, l as nat) % (top@ + 1));
}

/// A fresh position and step after a cycle or a reseed.
fn reseed(rng: &mut StdRng, top: &U256) -> (r: (U256, U256))
    ensures
        r.0@ <= top@,
        r.1@ <= top@,
{
    let position = U256::rem_u64(draw_u64(rng), top);
    let j = draw_below(rng, 0, 16);
    let step = U256::rem_u64(pick_step_variant(j), top);
    (position, step)
}

/// One adaptive random walk over `[start_range, end_range]`, taken as a
/// ring of `end - start + 1` positions where position `p` is the key
/// `start + p`. It runs at most `max_iter` iterations and derives at most one
/// candidate per iteration, adding the count to `keys_checked` in batches.
/// A match comes back at once as (key as 64 hex digits, fingerprint); the
/// walk is a heuristic, so `None` proves nothing about the range.
pub fn adaptive_random_walk_search(
    start_range: &U256,
    end_range: &U256,
    targets: &HashSet<String>,
    max_iter: usize,
    adapt_interval: usize,
    rng: &mut StdRng,
    keys_checked: Option<&AtomicU64>,
) -> (r: Result<Option<(String, String)>, SearchError>)
    ensures
        r is Err <==> start_range@ > end_range@,
        r matches Err(e) ==> e == SearchError::InvalidRange,
        r matches Ok(Some(m)) ==> is_found_in(
            target_texts(targets@),
            start_range@,
            end_range@,
            m.0@,
            m.1@,
        ),
        target_texts(targets@).is_empty() ==> !(r matches Ok(Some(_))),
        start_range@ == end_range@ && max_iter >= 1 && candidate_match(
            target_texts(targets@),
            start_range@,
        ) is Some ==> (r matches Ok(Some(m)) && is_fixed_hex_of(m.0@, start_range@) && Some(m.1@)
            == candidate_match(target_texts(targets@), start_range@)),
{
    if end_range.less_than(start_range) {
        return Err(SearchError::InvalidRange);
    }
    let ghost tt = target_texts(targets@);
    let ghost single = start_range@ == end_range@ && max_iter >= 1 && candidate_match(
        tt,
        start_range@,
    ) is Some;
    let top = end_range.sub(start_range);
    let mut seen: HashSet<(u128, u128)> = HashSet::new();
    let mut step = U256::rem_u64(draw_below(rng, 1, 100) as u64, &top);
    let mut position = U256::rem_u64(draw_u64(rng), &top);
    let mut since_adapt: usize = 0;
    let mut adaptations: usize = 0;
    let mut local: u64 = 0;
    let eighth = max_iter / 8;
    let mut i: usize = 0;
    while i < max_iter
        invariant
            tt == target_texts(targets@),
            start_range@ <= end_range@,
            top@ == end_range@ - start_range@,
            position@ <= top@,
            step@ <= top@,
            i <= max_iter,
            adaptations <= i,
            local < FLUSH_EVERY,
            i == 0 ==> seen@.is_empty(),
            i > 0 ==> !single,
            single == (start_range@ == end_range@ && max_iter >= 1 && candidate_match(
                tt,
                start_range@,
            ) is Some),
        decreases max_iter - i,
    {
        position = if chance(rng, 3, 5) {
            position.add_mod(&step, &top)
        } else {
            position.sub_mod(&step, &top)
        };
        let key = start_range.add(&position);
        if !visit(&mut seen, (position.hi, position.lo)) {
            let (p, s) = reseed(rng, &top);
            position = p;
            step = s;
            seen.clear();
            adaptations = adaptations + 1;
            since_adapt = 0;
        } else {
            match check_candidate(&key, targets) {
                Some(fp) => {
                    flush(keys_checked, local + 1);
                    let found = key.to_fixed_hex();
                    proof {
                        assert(is_match(tt, key@, fp@));
                        assert(start_range@ <= key@ <= end_range@);
                        assert(is_fixed_hex_of(found@, key@));
                        assert(is_found_in(tt, start_range@, end_range@, found@, fp@));
                    }
                    return Ok(Some((found, fp)));
                },
                None => {
                    proof {
                        if single {
                            assert(position@ == 0);
                            assert(key@ == start_range@);
                        }
                    }
                },
            }
            since_adapt = if since_adapt < usize::MAX {
                since_adapt + 1
            } else {
                since_adapt
            };
            local = local + 1;
            if local == FLUSH_EVERY {
                flush(keys_checked, local);
                local = 0;
            }
            if since_adapt >= adapt_interval {
                adapt_random_walk(&mut step, rng, &top);
                if adaptations % 4 == 0 {
                    seen.clear();
                }
                if chance(rng, 3, 10) {
                    let jitter = U256::rem_u64(draw_u32(rng) as u64, &top);
                    position = position.add_mod(&jitter, &top);
                }
                since_adapt = 0;
                adaptations = adaptations + 1;
            }
            if i > 0 && eighth > 0 && i % eighth == 0 && chance(rng, 1, 4) {
                let (p, s) = reseed(rng, &top);
                position = p;
                step = s;
                seen.clear();
            }
            if i > 0 && i % BOOST_EVERY == 0 && chance(rng, 2, 5) {
                let m = draw_below(rng, 2, 10);
                step = step.mul_small_mod(m, &top);
                if step.is_zero() {
                    step = U256::rem_u64(1, &top);
                }
            }
        }
        i = i + 1;
    }
    if local > 0 {
        flush(keys_checked, local);
    }
    Ok(None)
}

/// Iterations between the adaptation offsets of two consecutive walks.
const ADAPT_OFFSET_PER_WALK: usize = 200;

/// The adaptation interval of walk `w` of a parallel search:
/// `base + 200 * w`, saturated at `usize::MAX`.
pub fn walk_adapt_interval(base: usize, w: usize) -> (r: usize)
    ensures
        r as nat == if base + 200 * w <= usize::MAX {
            (base + 200 * w) as nat
        } else {
            usize::MAX as nat
        },
{
    match w.checked_mul(ADAPT_OFFSET_PER_WALK) {
        Some(offset) => match base.checked_add(offset) {
            Some(v) => v,
            None => usize::MAX,
        },
        None => {
            proof {
                assert(base + 200 * w > usize::MAX);
            }
            usize::MAX
        },
    }
}

/// Walk `w` of a parallel search: its own generator, seeded with
/// `seeds[w]`, and its own adaptation interval.
pub(crate) fn run_walk(
    w: usize,
    seeds: &Vec<u64>,
    start_range: &U256,
    end_range: &U256,
    targets: &HashSet<String>,
    max_iter: usize,
    adapt_interval: usize,
    keys_checked: Option<&AtomicU64>,
) -> (r: Option<(String, String)>)
    ensures
        r matches Some(m) ==> is_found_in(
            target_texts(targets@),
            start_range@,
            end_range@,
            m.0@,
            m.1@,
        ),
        w < seeds@.len() && single_key_match(targets@, start_range@, end_range@, max_iter) ==> (
        r matches Some(m) && is_fixed_hex_of(m.0@, start_range@) && Some(m.1@) == candidate_match(
            target_texts(targets@),
            start_range@,
        )),
{
    if w >= seeds.len() {
        return None;
    }
    let mut rng = rng_from_seed(seeds[w]);
    let interval = walk_adapt_interval(adapt_interval, w);
    match adaptive_random_walk_search(
        start_range,
        end_range,
        targets,
        max_iter,
        interval,
        &mut rng,
        keys_checked,
    ) {
        Ok(found) => found,
        Err(_) => None,
    }
}

/// Relies on rayon's `into_par_iter` over `0..count` and `find_map_first`,
/// which returns the first non-`None` value the closure produced, and
/// `None` when every value was `None` (so when there is none): walks
/// `0..count` run in parallel and a match found by one comes back.
#[verifier::external_body]
fn first_walk_match(
    count: usize,
    seeds: &Vec<u64>,
    start_range: &U256,
    end_range: &U256,
    targets: &HashSet<String>,
    max_iter: usize,
    adapt_interval: usize,
    keys_checked: Option<&AtomicU64>,
) -> (r: Option<(String, String)>)
    ensures
        r matches Some(m) ==> is_found_in(
            target_texts(targets@),
            start_range@,
            end_range@,
            m.0@,
            m.1@,
        ),
        count == 0 ==> r is None,
        1 <= count <= seeds@.len() && single_key_match(targets@, start_range@, end_range@, max_iter)
            ==> r is Some,
{
    (0..count).into_par_iter().map(|w| {
        run_walk(w, seeds, start_range, end_range, targets, max_iter, adapt_interval, keys_checked)
    }).find_map_first(|r| r)
}

/// Runs `num_walks` independent adaptive walks over the range in parallel,
/// each with its own generator seeded from `rng` and its adaptation interval
/// offset by its index, and returns the first match any of them finds.
pub fn parallel_adaptive_random_walk_search_with_progress(
    start_range: &U256,
    end_range: &U256,
    targets: &HashSet<String>,
    max_iter_per_thread: usize,
    num_walks: usize,
    adapt_interval: usize,
    rng: &mut StdRng,
    keys_checked: Option<&AtomicU64>,
) -> (r: Result<Option<(String, String)>, SearchError>)
    ensures
        r is Err <==> start_range@ > end_range@,
        r matches Err(e) ==> e == SearchError::InvalidRange,
        r matches Ok(Some(m)) ==> is_found_in(
            target_texts(targets@),
            start_range@,
            end_range@,
            m.0@,
            m.1@,
        ),
        target_texts(targets@).is_empty() ==> !(r matches Ok(Some(_))),
        start_range@ <= end_range@ && num_walks == 0 ==> r matches Ok(None),
        num_walks >= 1 && single_key_match(targets@, start_range@, end_range@, max_iter_per_thread)
            ==> (r matches Ok(Some(m)) && is_fixed_hex_of(m.0@, start_range@)),
{
    if end_range.less_than(start_range) {
        return Err(SearchError::InvalidRange);
    }
    let mut seeds: Vec<u64> = Vec::new();
    let mut w: usize = 0;
    while w < num_walks
        invariant
            w <= num_walks,
            seeds@.len() == w,
        decreases num_walks - w,
    {
        seeds.push(draw_u64(rng));
        w = w + 1;
    }
    let found = first_walk_match(
        num_walks,
        &seeds,
        start_range,
        end_range,
        targets,
        max_iter_per_thread,
        adapt_interval,
        keys_checked,
    );
    proof {
        if found is Some && start_range@ == end_range@ {
            let m = found->Some_0;
            let tt = target_texts(targets@);
            let k = choose|k: nat|
                start_range@ <= k <= end_range@ && is_fixed_hex_of(m.0@, k) && #[trigger] is_match(
                    tt,
                    k,
                    m.1@,
                );
            assert(k == start_range@);
        }
    }
    Ok(found)
}

} // verus!
