use std::collections::HashSet;

use btc_puzzle_hunter::allocator::{distribute_range_to_workers, Worker};
use btc_puzzle_hunter::benchmark::{benchmark_hashes_per_second, create_auto_worker};
use btc_puzzle_hunter::hex::parse_hex_key;
use btc_puzzle_hunter::key::U256;
use btc_puzzle_hunter::oracle::private_key_to_addresses;
use btc_puzzle_hunter::planner::calculate_walk_parameters;
use btc_puzzle_hunter::walk::{adapt_random_walk, adaptive_random_walk_search};
use rand::rngs::StdRng;
use rand::SeedableRng;

fn rng_from_seed(seed: u64) -> StdRng {
    StdRng::seed_from_u64(seed)
}

fn key(x: u64) -> U256 {
    U256::from_u64(x)
}

fn three_workers() -> Vec<Worker> {
    vec![
        Worker { name: "Fast Worker".to_string(), hashes_per_second: 100_000 },
        Worker { name: "Medium Worker".to_string(), hashes_per_second: 50_000 },
        Worker { name: "Slow Worker".to_string(), hashes_per_second: 25_000 },
    ]
}

#[test]
fn test_known_private_key() {
    let addresses = private_key_to_addresses(&key(1)).unwrap();
    println!("Private key 1 addresses: {:?}", addresses);
    assert!(
        addresses.contains(&"1BgGZ9tcN4rm9KBzDn7KprQz87SZ26SAMH".to_string())
            || addresses.contains(&"1EHNa6Q4Jz2uvNExL497mE43ikXhwF6kZm".to_string())
    );
}

#[test]
fn test_puzzle_3() {
    let addresses = private_key_to_addresses(&key(7)).unwrap();
    println!("Private key 7 addresses: {:?}", addresses);
    assert!(addresses.contains(&"19ZewH8Kk1PDbSNdJ97FP4EiCjTRaZMZQA".to_string()));
}

#[test]
fn test_parse_hex_key() {
    assert_eq!(parse_hex_key("0x1").unwrap(), key(1));
    assert_eq!(parse_hex_key("1").unwrap(), key(1));
    assert_eq!(parse_hex_key("0xFF").unwrap(), key(255));
    assert_eq!(parse_hex_key("ff").unwrap(), key(255));
}

#[test]
fn lib_test_worker_distribution() {
    let start = parse_hex_key("8000000000").unwrap();
    let end = parse_hex_key("ffffffffff").unwrap();
    let result = distribute_range_to_workers(three_workers(), &start, &end, 10);
    assert!(result.is_ok());
    let (worker_ranges, _remaining) = result.unwrap();
    assert_eq!(worker_ranges.len(), 3);
    assert_eq!(worker_ranges[0].range_size, 60_000_000);
}

#[test]
fn main_test_worker_distribution() {
    let start = parse_hex_key("8000000000").unwrap();
    let end = parse_hex_key("ffffffffff").unwrap();
    let result = distribute_range_to_workers(three_workers(), &start, &end, 10);
    assert!(result.is_ok());
    let (worker_ranges, _remaining) = result.unwrap();
    assert_eq!(worker_ranges.len(), 3);
    assert_eq!(worker_ranges[0].range_size, 60_000_000);
}

#[test]
fn test_worker_distribution_exact_example() {
    let workers = vec![Worker { name: "Worker A".to_string(), hashes_per_second: 100_000 }];
    let result = distribute_range_to_workers(workers, &key(1), &key(60_000_000), 10);
    assert!(result.is_ok());
    let (worker_ranges, remaining) = result.unwrap();
    assert_eq!(worker_ranges.len(), 1);
    assert_eq!(worker_ranges[0].range_size, 60_000_000);
    assert_eq!(worker_ranges[0].estimated_time_millis as f64 / 60_000.0, 10.0);
    assert!(remaining.is_none());
}

#[test]
fn test_benchmark_functionality() {
    let result = benchmark_hashes_per_second(1, Some(1));
    assert!(result.is_ok());
    let performance = result.unwrap();
    assert!(performance > 0);
    assert!(performance < 10_000_000);
}

#[test]
fn test_create_auto_worker() {
    let result = create_auto_worker("Test Worker".to_string(), Some(1), Some(1));
    assert!(result.is_ok());
    let worker = result.unwrap();
    assert_eq!(worker.name, "Test Worker");
    assert!(worker.hashes_per_second > 0);
}

#[test]
fn test_calculate_walk_parameters() {
    let (iter, walks, adapt) = calculate_walk_parameters(5_000);
    assert!(iter >= 1000);
    assert!(walks >= 2);
    assert!(adapt >= 100);

    let (iter, walks, adapt) = calculate_walk_parameters(100_000);
    assert!(iter >= 1000);
    assert!(walks >= 4);
    assert!(adapt >= 100);

    let (iter, walks, adapt) = calculate_walk_parameters(500_000);
    assert!(iter >= 1000);
    assert!(walks >= 8);
    assert!(adapt >= 100);
    assert!(walks <= 32);

    let (iter, walks, adapt) = calculate_walk_parameters(2_000_000);
    assert!(iter >= 1000);
    assert!(walks >= 12);
    assert!(adapt >= 100);
    assert!(walks <= 32);
}

#[test]
fn test_adaptive_random_walk_search_small_range() {
    let targets = HashSet::new();
    let mut rng = rng_from_seed(42);
    let result = adaptive_random_walk_search(&key(1), &key(100), &targets, 1000, 100, &mut rng, None);
    assert!(result.is_ok());
    assert!(result.unwrap().is_none());
}

#[test]
fn test_adapt_random_walk() {
    let mut rng = rng_from_seed(7);
    let mut step_size = key(1);
    adapt_random_walk(&mut step_size, &mut rng, &key(u64::MAX));
    assert!(!step_size.is_zero());
}
