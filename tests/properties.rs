use std::collections::HashSet;
use std::sync::atomic::{AtomicBool, AtomicU64, Ordering};

use btc_puzzle_hunter::allocator::{distribute_range_to_workers, total_estimated_time_millis, Worker};
use btc_puzzle_hunter::batch::{batch_range, merge_scans, search_batch, search_range, ScanOutcome};
use btc_puzzle_hunter::benchmark::{
    benchmark_and_create_workers, benchmark_duration, benchmark_hashes_per_second, benchmark_threads,
    create_auto_worker, throughput_from, worker_from_rate,
};
use btc_puzzle_hunter::error::SearchError;
use btc_puzzle_hunter::hex::parse_hex_key;
use btc_puzzle_hunter::key::U256;
use btc_puzzle_hunter::oracle::{check_candidate, first_target_of, private_key_to_addresses};
use btc_puzzle_hunter::planner::calculate_walk_parameters;
use btc_puzzle_hunter::walk::{
    adaptive_random_walk_search, parallel_adaptive_random_walk_search_with_progress, walk_adapt_interval,
};
use rand::rngs::StdRng;
use rand::SeedableRng;

const KEY_1_COMPRESSED: &str = "1BgGZ9tcN4rm9KBzDn7KprQz87SZ26SAMH";
const KEY_7_ADDRESS: &str = "19ZewH8Kk1PDbSNdJ97FP4EiCjTRaZMZQA";

fn rng_from_seed(seed: u64) -> StdRng {
    StdRng::seed_from_u64(seed)
}

fn key(x: u64) -> U256 {
    U256::from_u64(x)
}

fn targets_of(list: &[&str]) -> HashSet<String> {
    list.iter().map(|s| s.to_string()).collect()
}

fn fixed_hex(x: u64) -> String {
    format!("{:064x}", x)
}

fn worker(name: &str, hps: u64) -> Worker {
    Worker { name: name.to_string(), hashes_per_second: hps }
}

// ---- partition of a range into batches ----

#[test]
fn batch_search_finds_key_across_batch_boundaries() {
    let targets = targets_of(&[KEY_7_ADDRESS]);
    let found = AtomicBool::new(false);
    let checked = AtomicU64::new(0);
    let r = search_range(&key(1), &key(10), &targets, 3, &found, &checked).unwrap();
    assert_eq!(r, ScanOutcome::Found(fixed_hex(7), KEY_7_ADDRESS.to_string()));
    assert!(found.load(Ordering::Relaxed));
}

#[test]
fn batch_search_covers_every_key_without_a_match() {
    let targets = targets_of(&["not-an-address"]);
    let found = AtomicBool::new(false);
    let checked = AtomicU64::new(0);
    let r = search_range(&key(1), &key(25), &targets, 4, &found, &checked).unwrap();
    assert_eq!(r, ScanOutcome::Exhausted);
    assert_eq!(checked.load(Ordering::Relaxed), 25);
}

#[test]
fn batch_search_last_key_of_range() {
    let targets = targets_of(&[KEY_7_ADDRESS]);
    let found = AtomicBool::new(false);
    let checked = AtomicU64::new(0);
    let r = search_range(&key(2), &key(7), &targets, 5, &found, &checked).unwrap();
    assert_eq!(r, ScanOutcome::Found(fixed_hex(7), KEY_7_ADDRESS.to_string()));
}

#[test]
fn batch_search_rejects_bad_input() {
    let targets = targets_of(&[KEY_7_ADDRESS]);
    let found = AtomicBool::new(false);
    let checked = AtomicU64::new(0);
    assert_eq!(search_range(&key(5), &key(4), &targets, 3, &found, &checked), Err(SearchError::InvalidRange));
    assert_eq!(search_range(&key(1), &key(4), &targets, 0, &found, &checked), Err(SearchError::InvalidDuration));
}

#[test]
fn batch_scan_stops_when_flag_is_set() {
    let targets = targets_of(&[KEY_7_ADDRESS]);
    let found = AtomicBool::new(true);
    let checked = AtomicU64::new(0);
    assert!(matches!(search_batch(&key(1), &key(10), &targets, &found, &checked), ScanOutcome::Stopped));
    let found = AtomicBool::new(false);
    assert!(matches!(search_batch(&key(1), &key(5), &targets, &found, &checked), ScanOutcome::Exhausted));
}

#[test]
fn range_search_yields_to_a_set_flag() {
    let targets = targets_of(&[KEY_7_ADDRESS]);
    let found = AtomicBool::new(true);
    let checked = AtomicU64::new(0);
    assert_eq!(search_range(&key(1), &key(10), &targets, 3, &found, &checked), Ok(ScanOutcome::Stopped));
    assert_eq!(checked.load(Ordering::Relaxed), 0);
}

#[test]
fn batch_bounds_of_a_range() {
    assert_eq!(batch_range(&key(1), &key(10), 3, 0), Some((key(1), key(3))));
    assert_eq!(batch_range(&key(1), &key(10), 3, 3), Some((key(10), key(10))));
    assert_eq!(batch_range(&key(1), &key(10), 3, 4), None);
    assert_eq!(batch_range(&key(5), &key(5), 1_000_000, 0), Some((key(5), key(5))));
}

#[test]
fn merging_scan_outcomes() {
    let f = || ScanOutcome::Found("k".to_string(), "a".to_string());
    assert_eq!(merge_scans(ScanOutcome::Exhausted, ScanOutcome::Exhausted), ScanOutcome::Exhausted);
    assert_eq!(merge_scans(ScanOutcome::Exhausted, ScanOutcome::Stopped), ScanOutcome::Stopped);
    assert_eq!(merge_scans(ScanOutcome::Stopped, f()), f());
    assert_eq!(merge_scans(f(), ScanOutcome::Found("x".to_string(), "y".to_string())), f());
}

// ---- allocation ----

#[test]
fn allocation_partitions_small_range() {
    // one key a second for one minute: sixty keys per worker
    let ws = vec![worker("a", 1), worker("b", 1)];
    let (ranges, left) = distribute_range_to_workers(ws, &key(100), &key(219), 1).unwrap();
    assert_eq!(ranges.len(), 2);
    assert_eq!((ranges[0].start, ranges[0].end), (key(100), key(159)));
    assert_eq!((ranges[1].start, ranges[1].end), (key(160), key(219)));
    assert_eq!(ranges[0].worker_name, "a");
    assert_eq!(ranges[1].worker_name, "b");
    assert!(left.is_none());
}

#[test]
fn allocation_clamps_last_worker_and_skips_the_rest() {
    let ws = vec![worker("a", 1), worker("b", 1), worker("c", 1)];
    let (ranges, left) = distribute_range_to_workers(ws, &key(0), &key(89), 1).unwrap();
    assert_eq!(ranges.len(), 2);
    assert_eq!((ranges[1].start, ranges[1].end), (key(60), key(89)));
    assert_eq!(ranges[1].range_size, 30);
    assert_eq!(ranges[1].estimated_time_millis, 30_000);
    assert!(left.is_none());
}

#[test]
fn allocation_example_three_workers() {
    let start = parse_hex_key("0x8000000000").unwrap();
    let end = parse_hex_key("0xffffffffff").unwrap();
    let ws = vec![worker("Fast Worker", 100_000), worker("Medium Worker", 50_000), worker("Slow Worker", 25_000)];
    let (ranges, left) = distribute_range_to_workers(ws, &start, &end, 10).unwrap();
    let sizes: Vec<u64> = ranges.iter().map(|r| r.range_size).collect();
    assert_eq!(sizes, vec![60_000_000, 30_000_000, 15_000_000]);
    assert_eq!(ranges[0].start.to_hex(), "8000000000");
    assert_eq!(ranges[1].start, ranges[0].end.add(&key(1)));
    assert_eq!(ranges[2].start, ranges[1].end.add(&key(1)));
    let (ls, le) = left.unwrap();
    assert_eq!(ls, start.add(&key(105_000_000)));
    assert_eq!(le, end);
    let remainder = le.lo - ls.lo + 1;
    assert_eq!(remainder, 0x80_0000_0000u128 - 105_000_000);
    assert_eq!(total_estimated_time_millis(&ranges), 600_000);
}

#[test]
fn allocation_example_single_worker() {
    let ws = vec![worker("Worker A", 100_000)];
    let (ranges, left) = distribute_range_to_workers(ws, &key(1), &key(60_000_000), 10).unwrap();
    assert_eq!(ranges.len(), 1);
    assert_eq!(ranges[0].range_size, 60_000_000);
    assert_eq!(ranges[0].estimated_time_millis, 600_000);
    assert!(left.is_none());
}

#[test]
fn allocation_errors() {
    let r = distribute_range_to_workers(vec![], &key(0), &key(9), 10);
    assert!(matches!(r, Err(SearchError::NoWorkers)));
    let r = distribute_range_to_workers(vec![worker("a", 1)], &key(9), &key(0), 10);
    assert!(matches!(r, Err(SearchError::InvalidRange)));
    let r = distribute_range_to_workers(vec![worker("a", 1)], &key(0), &key(9), 0);
    assert!(matches!(r, Err(SearchError::InvalidDuration)));
    let r = distribute_range_to_workers(vec![worker("a", 1), worker("b", 0)], &key(0), &key(9), 1);
    assert!(matches!(r, Err(SearchError::ZeroThroughput)));
}

#[test]
fn allocation_over_the_whole_keyspace() {
    let top = U256 { hi: u128::MAX, lo: u128::MAX };
    let ws = vec![worker("a", u64::MAX)];
    let (ranges, left) = distribute_range_to_workers(ws, &key(0), &top, u32::MAX).unwrap();
    assert_eq!(ranges[0].range_size, u64::MAX);
    assert!(left.is_some());
    let ws = vec![worker("a", 1)];
    let start = U256 { hi: u128::MAX, lo: u128::MAX - 4 };
    let (ranges, left) = distribute_range_to_workers(ws, &start, &top, 1).unwrap();
    assert_eq!(ranges[0].end, top);
    assert_eq!(ranges[0].range_size, 5);
    assert!(left.is_none());
}

#[test]
fn total_time_of_no_parts_is_zero() {
    assert_eq!(total_estimated_time_millis(&vec![]), 0);
}

// ---- planner ----

#[test]
fn planner_exact_values() {
    assert_eq!(calculate_walk_parameters(5_000), (300_000, 2, 30_000));
    assert_eq!(calculate_walk_parameters(1), (1000, 2, 100));
    assert_eq!(calculate_walk_parameters(30_000), (900_000, 4, 45_000));
    assert_eq!(calculate_walk_parameters(100_000), (1_500_000, 6, 50_000));
    assert_eq!(calculate_walk_parameters(500_000), (5_000_000, 10, 100_000));
    assert_eq!(calculate_walk_parameters(2_000_000), (10_000_000, 20, 100_000));
    assert_eq!(calculate_walk_parameters(10_000_000), (50_000_000, 32, 500_000));
}

#[test]
fn planner_monotone_within_tier() {
    let (i1, w1, _) = calculate_walk_parameters(20_000);
    let (i2, w2, _) = calculate_walk_parameters(50_000);
    assert!(w1 <= w2);
    assert!(i1 <= i2);
    let (_, w3, a3) = calculate_walk_parameters(u64::MAX);
    assert_eq!(w3, 32);
    assert!(a3 >= 100);
}

// ---- walks ----

#[test]
fn walk_with_no_targets_reports_no_match_within_budget() {
    let targets = HashSet::new();
    let checked = AtomicU64::new(0);
    let mut rng = rng_from_seed(3);
    let r = adaptive_random_walk_search(&key(1), &key(100), &targets, 500, 100, &mut rng, Some(&checked));
    assert_eq!(r, Ok(None));
    assert!(checked.load(Ordering::Relaxed) <= 500);
}

#[test]
fn walk_on_single_key_range_finds_it() {
    let targets = targets_of(&[KEY_7_ADDRESS]);
    let mut rng = rng_from_seed(11);
    let r = adaptive_random_walk_search(&key(7), &key(7), &targets, 1, 100, &mut rng, None).unwrap();
    assert_eq!(r, Some((fixed_hex(7), KEY_7_ADDRESS.to_string())));
}

#[test]
fn walk_with_short_budget_does_not_divide_by_zero() {
    let targets = targets_of(&["nothing"]);
    let mut rng = rng_from_seed(5);
    let r = adaptive_random_walk_search(&key(1), &key(3), &targets, 7, 1, &mut rng, None);
    assert_eq!(r, Ok(None));
}

#[test]
fn walk_rejects_reversed_range() {
    let targets = HashSet::new();
    let mut rng = rng_from_seed(5);
    let r = adaptive_random_walk_search(&key(9), &key(3), &targets, 7, 1, &mut rng, None);
    assert_eq!(r, Err(SearchError::InvalidRange));
}

#[test]
fn walk_finds_key_in_small_range() {
    let targets = targets_of(&[KEY_1_COMPRESSED]);
    let mut rng = rng_from_seed(1);
    let r = adaptive_random_walk_search(&key(1), &key(8), &targets, 2000, 100, &mut rng, None).unwrap();
    assert_eq!(r, Some((fixed_hex(1), KEY_1_COMPRESSED.to_string())));
}

#[test]
fn parallel_walks_find_key() {
    let targets = targets_of(&[KEY_7_ADDRESS]);
    let mut rng = rng_from_seed(9);
    let r = parallel_adaptive_random_walk_search_with_progress(&key(7), &key(7), &targets, 10, 4, 100, &mut rng, None);
    assert_eq!(r, Ok(Some((fixed_hex(7), KEY_7_ADDRESS.to_string()))));
    let empty = HashSet::new();
    let r = parallel_adaptive_random_walk_search_with_progress(&key(1), &key(50), &empty, 100, 3, 100, &mut rng, None);
    assert_eq!(r, Ok(None));
    let r = parallel_adaptive_random_walk_search_with_progress(&key(2), &key(1), &empty, 100, 3, 100, &mut rng, None);
    assert_eq!(r, Err(SearchError::InvalidRange));
}

#[test]
fn adapt_interval_offsets() {
    assert_eq!(walk_adapt_interval(100, 0), 100);
    assert_eq!(walk_adapt_interval(100, 3), 700);
    assert_eq!(walk_adapt_interval(usize::MAX - 10, 1), usize::MAX);
}

// ---- oracle ----

#[test]
fn derivation_is_pure() {
    let a = private_key_to_addresses(&key(12345)).unwrap();
    let b = private_key_to_addresses(&key(12345)).unwrap();
    assert_eq!(a, b);
    assert!(!a.is_empty());
}

#[test]
fn known_addresses_of_small_keys() {
    let seven = private_key_to_addresses(&key(7)).unwrap();
    assert_eq!(seven[0], KEY_7_ADDRESS);
    assert_eq!(seven.len(), 3);
}

#[test]
fn first_target_in_fingerprint_order() {
    let fps = vec!["a".to_string(), "b".to_string(), "c".to_string()];
    assert_eq!(first_target_of(&fps, &targets_of(&["c", "b"])), Some("b".to_string()));
    assert_eq!(first_target_of(&fps, &targets_of(&["z"])), None);
    assert_eq!(first_target_of(&vec![], &targets_of(&["a"])), None);
}

#[test]
fn derivation_fails_on_zero() {
    assert!(private_key_to_addresses(&key(0)).is_err());
    assert_eq!(check_candidate(&key(0), &targets_of(&[KEY_1_COMPRESSED])), None);
}

#[test]
fn candidate_check() {
    let targets = targets_of(&[KEY_1_COMPRESSED]);
    assert_eq!(check_candidate(&key(1), &targets), Some(KEY_1_COMPRESSED.to_string()));
    assert_eq!(check_candidate(&key(2), &targets), None);
}

// ---- keys and hex ----

#[test]
fn hex_forms() {
    assert_eq!(key(255).to_fixed_hex(), fixed_hex(255));
    assert_eq!(key(255).to_hex(), "ff");
    assert_eq!(key(0).to_hex(), "0");
    let big = U256 { hi: 1, lo: 0 };
    assert_eq!(big.to_hex(), format!("1{}", "0".repeat(32)));
    assert_eq!(parse_hex_key(&big.to_fixed_hex()).unwrap(), big);
}

#[test]
fn hex_parse_errors() {
    assert_eq!(parse_hex_key(""), Err(SearchError::InvalidKey));
    assert_eq!(parse_hex_key("0x"), Err(SearchError::InvalidKey));
    assert_eq!(parse_hex_key("0xzz"), Err(SearchError::InvalidKey));
    assert_eq!(parse_hex_key("0X1"), Err(SearchError::InvalidKey));
    let too_long = format!("1{}", "0".repeat(64));
    assert_eq!(parse_hex_key(&too_long), Err(SearchError::InvalidKey));
    let max = "f".repeat(64);
    assert_eq!(parse_hex_key(&max).unwrap(), U256 { hi: u128::MAX, lo: u128::MAX });
}

#[test]
fn ring_arithmetic() {
    let top = key(9);
    assert_eq!(key(7).add_mod(&key(5), &top), key(2));
    assert_eq!(key(2).sub_mod(&key(5), &top), key(7));
    assert_eq!(key(6).mul_small_mod(3, &top), key(8));
    assert_eq!(U256::rem_u64(23, &top), key(3));
    let full = U256 { hi: u128::MAX, lo: u128::MAX };
    assert_eq!(full.add_mod(&key(1), &full), key(0));
    assert_eq!(key(0).sub_mod(&key(1), &full), full);
}

// ---- benchmark ----

#[test]
fn throughput_formula() {
    assert_eq!(throughput_from(1000, 1_000_000_000), 1000);
    assert_eq!(throughput_from(1500, 500_000_000), 3000);
    assert_eq!(throughput_from(0, 0), 0);
    assert_eq!(throughput_from(u64::MAX, 1), u64::MAX);
}

#[test]
fn benchmark_rejects_zero_duration() {
    assert_eq!(benchmark_hashes_per_second(0, Some(1)), Err(SearchError::InvalidDuration));
    assert!(matches!(create_auto_worker("x".to_string(), Some(0), Some(1)), Err(SearchError::InvalidDuration)));
    let r = benchmark_and_create_workers(vec![("y".to_string(), Some(0), None)]);
    assert!(matches!(r, Err(SearchError::InvalidDuration)));
}

#[test]
fn benchmark_workers_in_order() {
    let ws = benchmark_and_create_workers(vec![("first".to_string(), Some(1), Some(1)), ("second".to_string(), Some(1), Some(1))]).unwrap();
    assert_eq!(ws.len(), 2);
    assert_eq!(ws[0].name, "first");
    assert_eq!(ws[1].name, "second");
    assert!(ws[0].hashes_per_second > 0 && ws[1].hashes_per_second > 0);
}

#[test]
fn batch_match_is_the_least_matching_key() {
    let targets = targets_of(&[KEY_7_ADDRESS, KEY_1_COMPRESSED]);
    let found = AtomicBool::new(false);
    let checked = AtomicU64::new(0);
    let r = search_batch(&key(1), &key(10), &targets, &found, &checked);
    assert_eq!(r, ScanOutcome::Found(fixed_hex(1), KEY_1_COMPRESSED.to_string()));
}

#[test]
fn parallel_walks_with_no_walks_find_nothing() {
    let targets = targets_of(&[KEY_7_ADDRESS]);
    let mut rng = rng_from_seed(4);
    let r = parallel_adaptive_random_walk_search_with_progress(&key(7), &key(7), &targets, 10, 0, 100, &mut rng, None);
    assert_eq!(r, Ok(None));
}

#[test]
fn derivation_domain_is_below_the_group_order() {
    let order = U256 { hi: 0xFFFF_FFFF_FFFF_FFFF_FFFF_FFFF_FFFF_FFFE, lo: 0xBAAE_DCE6_AF48_A03B_BFD2_5E8C_D036_4141 };
    assert!(private_key_to_addresses(&order).is_err());
    assert!(private_key_to_addresses(&order.add(&key(5))).is_err());
    let last = order.sub(&key(1));
    assert_eq!(private_key_to_addresses(&last).unwrap().len(), 3);
    assert_eq!(private_key_to_addresses(&key(1)).unwrap().len(), 3);
}

#[test]
fn benchmark_settings() {
    assert_eq!(benchmark_threads(Some(3), 8), 3);
    assert_eq!(benchmark_threads(Some(0), 8), 8);
    assert_eq!(benchmark_threads(None, 8), 8);
    assert_eq!(benchmark_duration(None), 5);
    assert_eq!(benchmark_duration(Some(2)), 2);
    assert!(matches!(worker_from_rate("w".to_string(), 0), Err(SearchError::ZeroThroughput)));
    let w = worker_from_rate("w".to_string(), 42).unwrap();
    assert_eq!((w.name.as_str(), w.hashes_per_second), ("w", 42));
}

#[test]
fn benchmark_of_no_workers_is_empty() {
    assert_eq!(benchmark_and_create_workers(vec![]).unwrap().len(), 0);
    let r = benchmark_and_create_workers(vec![("a".to_string(), Some(1), Some(1)), ("b".to_string(), Some(0), None)]);
    assert!(matches!(r, Err(SearchError::InvalidDuration)));
}
