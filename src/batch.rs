//! The sequential batch searcher: a range cut into contiguous batches,
//! scanned in parallel, each batch in increasing key order, all stopping
//! once one of them finds a match.
use vstd::prelude::*;
use std::collections::HashSet;
use std::sync::atomic::{AtomicBool, AtomicU64, Ordering};
use crate::error::SearchError;
use crate::hex::is_fixed_hex_of;
use crate::key::U256;
use crate::oracle::{candidate_match, check_candidate, is_match, target_texts};
use crate::walk::is_found_in;
use vstd::arithmetic::div_mod::lemma_fundamental_div_mod;
use rayon::prelude::{IntoParallelIterator, ParallelIterator};

verus! {

/// Candidates scanned between two looks at the shared "found" flag.
const FLAG_CHECK_EVERY: u64 = 64;

/// Candidates scanned between two additions to the shared counter.
const COUNT_EVERY: u64 = 10_000;

/// Batches handed to the pool at a time.
const BATCHES_PER_ROUND: u64 = 65_536;

/// The number of batches of `b` keys that cover `size` keys: `ceil(size / b)`.
pub open spec fn batch_count(size: nat, b: nat) -> nat {
    ((size + b - 1) as nat) / b
}

/// Batch `i` of `[start, end]` with batches of `b` keys: first and last key.
pub open spec fn batch_bounds(start: nat, end: nat, b: nat, i: nat) -> (nat, nat) {
    let first = start + i * b;
    let last = if first + b - 1 <= end {
        (first + b - 1) as nat
    } else {
        end
    };
    (first, last)
}

/// Partition completeness: for a range `start <= end` and a batch size
/// `b > 0`, the `ceil((end - start + 1) / b)` batches cover the range
/// exactly, in order: the first begins at `start`, each is non-empty and
/// within the range, each begins right after the one before, and the last
/// ends at `end`.
pub proof fn lemma_batches_partition(start: nat, end: nat, b: nat)
    requires
        start <= end,
        b > 0,
    ensures
        ({
            let c = batch_count((end + 1 - start) as nat, b);
            &&& c >= 1
            &&& batch_bounds(start, end, b, 0).0 == start
            &&& forall|i: nat|
                i < c ==> #[trigger] batch_bounds(start, end, b, i).0 <= batch_bounds(
                    start,
                    end,
                    b,
                    i,
                ).1 && batch_bounds(start, end, b, i).1 <= end
            &&& forall|i: nat|
                0 < i < c ==> #[trigger] batch_bounds(start, end, b, i).0 == batch_bounds(
                    start,
                    end,
                    b,
                    (i - 1) as nat,
                ).1 + 1
            &&& batch_bounds(start, end, b, (c - 1) as nat).1 == end
        }),
{
    let size = (end + 1 - start) as nat;
    let c = batch_count(size, b);
    lemma_fundamental_div_mod((size + b - 1) as int, b as int);
    let r = ((size + b - 1) as int) % (b as int);
    assert(c * b == size + b - 1 - r) by (nonlinear_arith)
        requires
            (size + b - 1) as int == b * c + r,
    ;
    assert(c >= 1) by (nonlinear_arith)
        requires
            c * b == size + b - 1 - r,
            r < b,
            size >= 1,
            b > 0,
    ;
    assert forall|i: nat| i < c implies #[trigger] batch_bounds(start, end, b, i).0 <= batch_bounds(
        start,
        end,
        b,
        i,
    ).1 && batch_bounds(start, end, b, i).1 <= end by {
        assert(i * b < size) by (nonlinear_arith)
            requires
                i < c,
                c * b == size + b - 1 - r,
                0 <= r < b,
        ;
    }
    assert forall|i: nat| 0 < i < c implies #[trigger] batch_bounds(start, end, b, i).0
        == batch_bounds(start, end, b, (i - 1) as nat).1 + 1 by {
        assert(i * b < size) by (nonlinear_arith)
            requires
                i < c,
                c * b == size + b - 1 - r,
                0 <= r < b,
        ;
        assert((i - 1) as nat * b + b == i * b) by (nonlinear_arith)
            requires
                i > 0,
        ;
    }
    assert((c - 1) as nat * b + b == c * b) by (nonlinear_arith)
        requires
            c >= 1,
    ;
}

/// How the scan of a batch, or of a whole range, ended.
#[derive(Debug, PartialEq, Eq)]
pub enum ScanOutcome {
    /// A match: the key as 64 hex digits, and the fingerprint.
    Found(String, String),
    /// Every key was tested and none matched.
    Exhausted,
    /// The shared flag said a match had been found elsewhere; the scan
    /// stopped early.
    Stopped,
}

/// Scans `[start, end]` in increasing order, testing each key against the
/// targets; looks at the shared `found` flag every few keys and stops when
/// it is set, and sets it on a match. A match is the least matching key of
/// the batch, with that key's first fingerprint among the targets.
pub fn search_batch(
    start: &U256,
    end: &U256,
    targets: &HashSet<String>,
    found: &AtomicBool,
    keys_checked: &AtomicU64,
) -> (r: ScanOutcome)
    ensures
        r matches ScanOutcome::Found(k, fp) ==> is_found_in(
            target_texts(targets@),
            start@,
            end@,
            k@,
            fp@,
        ),
        r matches ScanOutcome::Found(k, fp) ==> exists|m: nat|
            start@ <= m <= end@ && is_fixed_hex_of(k@, m) && Some(fp@) == #[trigger] candidate_match(
                target_texts(targets@),
                m,
            ) && (forall|j: nat|
                start@ <= j < m ==> #[trigger] candidate_match(target_texts(targets@), j) is None),
        r matches ScanOutcome::Exhausted ==> forall|k: nat|
            start@ <= k <= end@ ==> #[trigger] candidate_match(target_texts(targets@), k) is None,
{
    let ghost tt = target_texts(targets@);
    if end.less_than(start) {
        return ScanOutcome::Exhausted;
    }
    let mut current = *start;
    let mut local: u64 = 0;
    let mut done = false;
    while !done
        invariant
            tt == target_texts(targets@),
            start@ <= end@,
            start@ <= current@ <= end@,
            local < COUNT_EVERY,
            forall|k: nat| start@ <= k < current@ ==> #[trigger] candidate_match(tt, k) is None,
            done ==> forall|k: nat| start@ <= k <= end@ ==> #[trigger] candidate_match(tt, k) is None,
        decreases (if done {
            0
        } else {
            end@ + 1 - current@
        }),
    {
        if local % FLAG_CHECK_EVERY == 0 && found.load(Ordering::Acquire) {
            keys_checked.fetch_add(local, Ordering::Relaxed);
            return ScanOutcome::Stopped;
        }
        match check_candidate(&current, targets) {
            Some(fp) => {
                found.store(true, Ordering::Release);
                keys_checked.fetch_add(local + 1, Ordering::Relaxed);
                let hex = current.to_fixed_hex();
                proof {
                    assert(is_match(tt, current@, fp@));
                    assert(is_fixed_hex_of(hex@, current@));
                }
                return ScanOutcome::Found(hex, fp);
            },
            None => {},
        }
        local = local + 1;
        if local == COUNT_EVERY {
            keys_checked.fetch_add(local, Ordering::Relaxed);
            local = 0;
        }
        if current.equals(end) {
            done = true;
        } else {
            current = current.add(&U256::from_u64(1));
        }
    }
    if local > 0 {
        keys_checked.fetch_add(local, Ordering::Relaxed);
    }
    ScanOutcome::Exhausted
}

/// `i` indexes one of the batches of `[start, end]`: `start + i * b <= end`.
proof fn lemma_batch_index(start: nat, end: nat, b: nat, i: nat)
    requires
        start <= end,
        b > 0,
    ensures
        (i < batch_count((end + 1 - start) as nat, b)) == (start + i * b <= end),
{
    let size = (end + 1 - start) as nat;
    let c = batch_count(size, b);
    lemma_fundamental_div_mod((size + b - 1) as int, b as int);
    let r = ((size + b - 1) as int) % (b as int);
    assert(c * b == size + b - 1 - r) by (nonlinear_arith)
        requires
            (size + b - 1) as int == b * c + r,
    ;
    if i < c {
        assert(i * b < size) by (nonlinear_arith)
            requires
                i < c,
                c * b == size + b - 1 - r,
                0 <= r < b,
        ;
    } else {
        assert(i * b >= size) by (nonlinear_arith)
            requires
                i >= c,
                c * b == size + b - 1 - r,
                0 <= r < b,
        ;
    }
}

/// The first and last key of batch `i` of `[start, end]` with batches of
/// `batch_size` keys; `None` past the last batch.
pub fn batch_range(start: &U256, end: &U256, batch_size: u64, i: u64) -> (r: Option<(U256, U256)>)
    requires
        start@ <= end@,
        batch_size > 0,
    ensures
        r is Some <==> i < batch_count((end@ + 1 - start@) as nat, batch_size as nat),
        r matches Some((s, e)) ==> (s@, e@) == batch_bounds(
            start@,
            end@,
            batch_size as nat,
            i as nat,
        ),
{
    proof {
        lemma_batch_index(start@, end@, batch_size as nat, i as nat);
        assert(i as nat * batch_size as nat <= u64::MAX as nat * u64::MAX as nat) by (nonlinear_arith)
            requires
                i <= u64::MAX,
                batch_size <= u64::MAX,
        ;
    }
    let offset = U256::from_u128(i as u128 * batch_size as u128);
    let first = match start.checked_add(&offset) {
        Some(s) => s,
        None => {
            return None;
        },
    };
    if end.less_than(&first) {
        return None;
    }
    let last = match first.checked_add(&U256::from_u64(batch_size - 1)) {
        Some(e) => if e.less_than(end) {
            e
        } else {
            *end
        },
        None => *end,
    };
    Some((first, last))
}

/// Key `k` of `[first, last]` lies in batch `(k - first) / b`, one of the
/// range's batches.
proof fn lemma_key_in_batch(first: nat, last: nat, b: nat, k: nat)
    requires
        first <= k <= last,
        b > 0,
    ensures
        ({
            let i = ((k - first) as nat) / b;
            &&& i < batch_count((last + 1 - first) as nat, b)
            &&& batch_bounds(first, last, b, i).0 <= k <= batch_bounds(first, last, b, i).1
        }),
{
    let d = (k - first) as nat;
    let i = d / b;
    lemma_fundamental_div_mod(d as int, b as int);
    let r = (d as int) % (b as int);
    assert(first + i * b <= k < first + i * b + b) by (nonlinear_arith)
        requires
            d as int == b * i + r,
            0 <= r < b,
            d == k - first,
    ;
    lemma_batch_index(first, last, b, i);
}

/// The number of batches of `b` keys in a range `size + 1` keys long.
proof fn lemma_batch_count_of_span(size: nat, b: nat)
    requires
        b > 0,
    ensures
        batch_count(size + 1, b) == size / b + 1,
{
    lemma_fundamental_div_mod(size as int, b as int);
    let q = size / b;
    let r = (size as int) % (b as int);
    assert((size + b) as int == (q + 1) * b + r) by (nonlinear_arith)
        requires
            size as int == b * q + r,
    ;
    vstd::arithmetic::div_mod::lemma_fundamental_div_mod_converse_div(
        (size + b) as int,
        b as int,
        (q + 1) as int,
        r,
    );
}

/// Scans batch `i` of `[first, last]` with batches of `b` keys; an index
/// past the last batch scans nothing.
pub(crate) fn scan_batch_at(
    first: &U256,
    last: &U256,
    b: u64,
    i: u64,
    targets: &HashSet<String>,
    found: &AtomicBool,
    keys_checked: &AtomicU64,
) -> (r: ScanOutcome)
    ensures
        r matches ScanOutcome::Found(k, fp) ==> is_found_in(
            target_texts(targets@),
            first@,
            last@,
            k@,
            fp@,
        ),
        r matches ScanOutcome::Exhausted ==> (b > 0 && first@ <= last@ ==> forall|k: nat|
            batch_bounds(first@, last@, b as nat, i as nat).0 <= k <= batch_bounds(
                first@,
                last@,
                b as nat,
                i as nat,
            ).1 ==> #[trigger] candidate_match(target_texts(targets@), k) is None),
{
    if b == 0 || last.less_than(first) {
        return ScanOutcome::Exhausted;
    }
    proof {
        lemma_batch_index(first@, last@, b as nat, i as nat);
    }
    let (batch_start, batch_end) = match batch_range(first, last, b, i) {
        Some(bounds) => bounds,
        None => {
            return ScanOutcome::Exhausted;
        },
    };
    match search_batch(&batch_start, &batch_end, targets, found, keys_checked) {
        ScanOutcome::Found(k, fp) => {
            proof {
                let tt = target_texts(targets@);
                let w = choose|w: nat|
                    batch_start@ <= w <= batch_end@ && is_fixed_hex_of(k@, w) && #[trigger] is_match(
                        tt,
                        w,
                        fp@,
                    );
                assert(first@ <= w <= last@ && is_fixed_hex_of(k@, w) && is_match(tt, w, fp@));
            }
            ScanOutcome::Found(k, fp)
        },
        ScanOutcome::Exhausted => ScanOutcome::Exhausted,
        ScanOutcome::Stopped => ScanOutcome::Stopped,
    }
}

/// The outcome of two scans taken together: the first match, else a stop,
/// else exhaustion. Associative, with `Exhausted` as identity.
pub fn merge_scans(a: ScanOutcome, b: ScanOutcome) -> (r: ScanOutcome)
    ensures
        a matches ScanOutcome::Found(_, _) ==> r == a,
        (!(a matches ScanOutcome::Found(_, _)) && (b matches ScanOutcome::Found(_, _))) ==> r == b,
        r matches ScanOutcome::Exhausted <==> (a matches ScanOutcome::Exhausted
            && b matches ScanOutcome::Exhausted),
        r matches ScanOutcome::Stopped ==> (a matches ScanOutcome::Stopped || b matches ScanOutcome::Stopped),
{
    match a {
        ScanOutcome::Found(k, fp) => ScanOutcome::Found(k, fp),
        ScanOutcome::Stopped => match b {
            ScanOutcome::Found(k, fp) => ScanOutcome::Found(k, fp),
            _ => ScanOutcome::Stopped,
        },
        ScanOutcome::Exhausted => b,
    }
}

fn nothing_scanned() -> (r: ScanOutcome)
    ensures
        r == ScanOutcome::Exhausted,
{
    ScanOutcome::Exhausted
}

/// Relies on rayon's `into_par_iter` over `0..count` and `reduce`, which
/// combines the outcome of every index with `merge_scans` (associative,
/// identity `Exhausted`): batches `0..count` of `[first, last]` are scanned
/// in parallel; a match comes back if one was found, `Exhausted` only if
/// every batch came back exhausted.
#[verifier::external_body]
fn scan_round(
    first: &U256,
    last: &U256,
    b: u64,
    count: u64,
    targets: &HashSet<String>,
    found: &AtomicBool,
    keys_checked: &AtomicU64,
) -> (r: ScanOutcome)
    requires
        b > 0,
        first@ <= last@,
    ensures
        r matches ScanOutcome::Found(k, fp) ==> is_found_in(
            target_texts(targets@),
            first@,
            last@,
            k@,
            fp@,
        ),
        r matches ScanOutcome::Exhausted ==> forall|i: nat, k: nat|
            #![trigger batch_bounds(first@, last@, b as nat, i), candidate_match(target_texts(targets@), k)]
            i < count && batch_bounds(first@, last@, b as nat, i).0 <= k <= batch_bounds(
                first@,
                last@,
                b as nat,
                i,
            ).1 ==> candidate_match(target_texts(targets@), k) is None,
{
    (0..count).into_par_iter().map(|i| scan_batch_at(first, last, b, i, targets, found, keys_checked)).reduce(nothing_scanned, merge_scans)
}

/// Searches `[start, end]` exhaustively in batches of `batch_size` keys,
/// the batches of each round scanned in parallel. The first match found
/// comes back as (key as 64 hex digits, fingerprint) and sets `found`;
/// `Exhausted` means no key of the range matches; `Stopped` means `found`
/// was set elsewhere first. `keys_checked` counts the candidates tested.
pub fn search_range(
    start: &U256,
    end: &U256,
    targets: &HashSet<String>,
    batch_size: u64,
    found: &AtomicBool,
    keys_checked: &AtomicU64,
) -> (r: Result<ScanOutcome, SearchError>)
    ensures
        r matches Err(e) ==> (e == SearchError::InvalidRange && start@ > end@) || (e
            == SearchError::InvalidDuration && start@ <= end@ && batch_size == 0),
        r is Err <==> (start@ > end@ || batch_size == 0),
        r matches Ok(ScanOutcome::Found(k, fp)) ==> is_found_in(
            target_texts(targets@),
            start@,
            end@,
            k@,
            fp@,
        ),
        r matches Ok(ScanOutcome::Exhausted) ==> forall|k: nat|
            start@ <= k <= end@ ==> #[trigger] candidate_match(target_texts(targets@), k) is None,
{
    if end.less_than(start) {
        return Err(SearchError::InvalidRange);
    }
    if batch_size == 0 {
        return Err(SearchError::InvalidDuration);
    }
    let ghost tt = target_texts(targets@);
    let ghost b = batch_size as nat;
    proof {
        assert(b * BATCHES_PER_ROUND as nat <= u64::MAX as nat * 65_536) by (nonlinear_arith)
            requires
                b <= u64::MAX,
                BATCHES_PER_ROUND == 65_536,
        ;
        assert(b * BATCHES_PER_ROUND as nat >= 1) by (nonlinear_arith)
            requires
                b >= 1,
                BATCHES_PER_ROUND == 65_536,
        ;
    }
    let span = U256::from_u128(batch_size as u128 * BATCHES_PER_ROUND as u128 - 1);
    let mut first = *start;
    loop
        invariant
            tt == target_texts(targets@),
            b == batch_size as nat,
            batch_size > 0,
            span@ == b * BATCHES_PER_ROUND as nat - 1,
            start@ <= first@ <= end@,
            forall|k: nat| start@ <= k < first@ ==> #[trigger] candidate_match(tt, k) is None,
        decreases end@ + 1 - first@,
    {
        let last = match first.checked_add(&span) {
            Some(e) => if e.less_than(end) {
                e
            } else {
                *end
            },
            None => *end,
        };
        let size = last.sub(&first);
        proof {
            crate::key::lemma_small_is_low_half(size);
            lemma_fundamental_div_mod(size@ as int, b as int);
            assert(size@ / b < BATCHES_PER_ROUND as nat) by (nonlinear_arith)
                requires
                    size@ as int == b * (size@ / b) + (size@ as int) % (b as int),
                    0 <= (size@ as int) % (b as int),
                    size@ < b * BATCHES_PER_ROUND as nat,
                    b > 0,
            ;
            lemma_batch_count_of_span(size@, b);
        }
        let count: u64 = (size.lo / (batch_size as u128)) as u64 + 1;
        match scan_round(&first, &last, batch_size, count, targets, found, keys_checked) {
            ScanOutcome::Found(k, fp) => {
                proof {
                    let w = choose|w: nat|
                        first@ <= w <= last@ && is_fixed_hex_of(k@, w) && #[trigger] is_match(
                            tt,
                            w,
                            fp@,
                        );
                    assert(start@ <= w <= end@ && is_fixed_hex_of(k@, w) && is_match(tt, w, fp@));
                }
                return Ok(ScanOutcome::Found(k, fp));
            },
            ScanOutcome::Stopped => {
                return Ok(ScanOutcome::Stopped);
            },
            ScanOutcome::Exhausted => {},
        }
        proof {
            assert forall|k: nat| start@ <= k <= last@ implies #[trigger] candidate_match(tt, k) is None by {
                if k >= first@ {
                    lemma_key_in_batch(first@, last@, b, k);
                    let i = ((k - first@) as nat) / b;
                    assert(batch_bounds(first@, last@, b, i).0 <= k);
                }
            }
        }
        if last.equals(end) {
            return Ok(ScanOutcome::Exhausted);
        }
        if found.load(Ordering::Acquire) {
            return Ok(ScanOutcome::Stopped);
        }
        first = last.add(&U256::from_u64(1));
    }
}

} // verus!
