use symexrs::coverage::{get_num_counters, is_coverage_available, CoverageStatus, CoverageTracker, RarityTracker};
use flate2::write::ZlibEncoder;
use flate2::Compression;
use std::io::Write;
use symexrs::coverage_profile::ProfileParser;
use symexrs::coverage_source_map::SourceMapper;
use std::cell::Cell;

type Plain = fn(usize) -> bool;

/// One `__llvm_prf_data` record of 48 bytes: `NameRef`, `FuncHash` and
/// `NumCounters` at offset 40.
fn data_record(name: &str, func_hash: u64, counters: u32) -> Vec<u8> {
    let mut r = vec![0u8; 48];
    r[0..8].copy_from_slice(&SourceMapper::llvm_name_hash(name).to_le_bytes());
    r[8..16].copy_from_slice(&func_hash.to_le_bytes());
    r[40..44].copy_from_slice(&counters.to_le_bytes());
    r
}

#[test]
fn test_coverage_detection() {
    // Tests run without coverage instrumentation: the counter symbols are absent.
    let status = CoverageStatus::from_counter_bounds(0, 0);
    match status {
        CoverageStatus::Available { num_counters } => {
            assert!(num_counters > 0);
            assert!(is_coverage_available(status));
        }
        CoverageStatus::Unavailable => {
            assert!(!is_coverage_available(status));
        }
    }
}

#[test]
fn test_tracker_creation() {
    let _tracker = CoverageTracker::<Plain>::new(CoverageStatus::from_counter_bounds(0, 0));
}

#[test]
fn test_extract_crate_name() {
    assert_eq!(
        ProfileParser::extract_crate_name("_ZN4myapp4main17h1234567890abcdefE"),
        Some("myapp".to_string())
    );
    assert_eq!(
        ProfileParser::extract_crate_name("_ZN4myapp3foo3bar17h1234567890abcdefE"),
        Some("myapp".to_string())
    );
    assert_eq!(ProfileParser::extract_crate_name("main"), None);
}

#[test]
fn status_from_bounds() {
    assert_eq!(
        CoverageStatus::from_counter_bounds(0x1000, 0x1040),
        CoverageStatus::Available { num_counters: 8 }
    );
    assert_eq!(CoverageStatus::from_counter_bounds(0x1040, 0x1000), CoverageStatus::Unavailable);
    // Bounds that leave no whole counter give no coverage.
    assert_eq!(CoverageStatus::from_counter_bounds(0x1000, 0x1000), CoverageStatus::Unavailable);
    assert_eq!(CoverageStatus::from_counter_bounds(0x1000, 0x1004), CoverageStatus::Unavailable);
    assert_eq!(
        CoverageStatus::from_counter_bounds(0x1000, 0x1008),
        CoverageStatus::Available { num_counters: 1 }
    );
    assert_eq!(get_num_counters(CoverageStatus::Available { num_counters: 3 }), Some(3));
    assert_eq!(get_num_counters(CoverageStatus::Unavailable), None);
}

#[test]
fn tracker_reports_each_counter_once() {
    let status = CoverageStatus::Available { num_counters: 4 };
    let mut tracker = CoverageTracker::<Plain>::new(status).unwrap();
    assert!(CoverageTracker::<Plain>::new(CoverageStatus::Available { num_counters: 0 }).is_none());
    assert_eq!(tracker.num_counters(), 4);
    assert_eq!(tracker.end_rollout_with(&[0, 5, 0, 1]), vec![1, 3]);
    assert_eq!(tracker.end_rollout_with(&[2, 5, 0, 1]), vec![0]);
    assert_eq!(tracker.covered_count(), 3);
    tracker.reset();
    assert_eq!(tracker.covered_count(), 0);
}

#[test]
fn tracker_filter_and_rarity() {
    let status = CoverageStatus::Available { num_counters: 4 };
    let rarity = RarityTracker::new(Some(4)).unwrap();
    let mut tracker = CoverageTracker::<Plain>::new(status)
        .unwrap()
        .with_filter(|i| i != 1)
        .with_rarity_tracker(rarity);
    assert_eq!(tracker.end_rollout_with(&[1, 1, 1, 0]), vec![0, 2]);
    let r = tracker.rarity_tracker().unwrap();
    assert_eq!(r.hit_count(0), 1);
    assert_eq!(r.hit_count(1), 0);
    assert_eq!(r.hit_count(2), 1);
    assert_eq!(r.hit_count(9), 0);
    assert_eq!(r.total_rollouts(), 1);
    // A second rollout that hits counter 0 again and counter 3 for the
    // first time: only 3 is new, but both hits are counted.
    assert_eq!(tracker.end_rollout_with(&[4, 0, 0, 1]), vec![3]);
    let r = tracker.rarity_tracker().unwrap();
    assert_eq!(r.hit_count(0), 2);
    assert_eq!(r.hit_count(2), 1);
    assert_eq!(r.hit_count(3), 1);
    assert_eq!(r.total_rollouts(), 2);
}

#[test]
fn tracker_asks_the_filter_on_every_rollout() {
    let calls = Cell::new(0usize);
    let status = CoverageStatus::Available { num_counters: 3 };
    let tracker = CoverageTracker::<Plain>::new(status).unwrap();
    // Attaching the filter does not call it.
    let mut tracker = tracker.with_filter(|i: usize| {
        calls.set(calls.get() + 1);
        // Counter 1 passes only from the fourth question on.
        i != 1 || calls.get() > 3
    });
    assert_eq!(calls.get(), 0);
    assert_eq!(tracker.end_rollout_with(&[0, 1, 0]), Vec::<usize>::new());
    assert_eq!(calls.get(), 3);
    assert_eq!(tracker.end_rollout_with(&[0, 1, 0]), vec![1]);
    assert_eq!(calls.get(), 6);
    assert_eq!(tracker.covered_count(), 1);
}

#[test]
fn rarity_counts_repeated_indices() {
    let mut r = RarityTracker::new(Some(3)).unwrap();
    r.record_hits(&[2, 2, 7]);
    assert_eq!(r.hit_count(2), 2);
    assert_eq!(r.total_rollouts(), 1);
    r.reset();
    assert_eq!(r.hit_count(2), 0);
    assert_eq!(r.total_rollouts(), 0);
    assert!(RarityTracker::new(None).is_none());
}

#[test]
fn profile_parser_reads_nul_separated_names() {
    let names = b"_ZN5alpha1f\0_ZN4beta1g\0plain\0_ZN5alpha1h\0tail".to_vec();
    // Data records in another order than the names: beta1g, alpha1f, alpha1h.
    let mut data = data_record("_ZN4beta1g", 0xb, 2);
    data.extend(data_record("_ZN5alpha1f", 0xa, 3));
    data.extend(data_record("_ZN5alpha1h", 0xc, 1));
    let parser = ProfileParser::new(Some(data), Some(names.clone()), Some(6)).unwrap();
    let maps = parser.get_counter_mappings();
    assert_eq!(maps.len(), 3);
    assert_eq!(maps[0].name, "_ZN5alpha1f");
    assert_eq!((maps[0].start_idx, maps[0].num_counters, maps[0].func_hash), (2, 3, 0xa));
    assert_eq!(maps[1].name, "_ZN4beta1g");
    assert_eq!((maps[1].start_idx, maps[1].num_counters, maps[1].func_hash), (0, 2, 0xb));
    assert_eq!(maps[2].name, "_ZN5alpha1h");
    assert_eq!((maps[2].start_idx, maps[2].num_counters, maps[2].func_hash), (5, 1, 0xc));
    assert_eq!(parser.get_crate_names(), vec!["alpha".to_string(), "beta".to_string()]);
    let map = parser.get_crate_counter_map();
    let alpha = map.iter().find(|(k, _)| k == "alpha").unwrap();
    assert_eq!(alpha.1, vec![2, 3, 4, 5]);
    let beta = map.iter().find(|(k, _)| k == "beta").unwrap();
    assert_eq!(beta.1, vec![0, 1]);
    assert_eq!(map.len(), 2);
    // A name without a data record gets no mapping.
    let data = data_record("_ZN4beta1g", 0xb, 2);
    let parser = ProfileParser::new(Some(data), Some(names.clone()), Some(2)).unwrap();
    let maps = parser.get_counter_mappings();
    assert_eq!(maps.len(), 1);
    assert_eq!((maps[0].start_idx, maps[0].num_counters), (0, 2));
    // Data whose counts do not add up to the counter total gives none.
    let data = data_record("_ZN4beta1g", 0xb, 2);
    let parser = ProfileParser::new(Some(data), Some(names), Some(7)).unwrap();
    assert!(parser.get_counter_mappings().is_empty());
    assert!(parser.get_crate_counter_map().is_empty());
    assert!(ProfileParser::new(Some(vec![]), Some(b"a\0".to_vec()), Some(1)).is_none());
    assert!(ProfileParser::new(None, Some(b"a\0".to_vec()), Some(1)).is_none());
}

#[test]
fn profile_parser_inflates_compressed_names() {
    let plain = b"_ZN5gamma1f\0_ZN5delta1g\0".to_vec();
    let mut enc = ZlibEncoder::new(Vec::new(), Compression::default());
    enc.write_all(&plain).unwrap();
    let compressed = enc.finish().unwrap();
    assert_ne!(compressed, plain);
    assert_eq!(ProfileParser::decompress_zlib(&compressed), plain);
    // Input that is not a zlib stream is taken as it is.
    assert_eq!(ProfileParser::decompress_zlib(b"plain names"), b"plain names".to_vec());
    let parser = ProfileParser::new(Some(vec![0]), Some(compressed), Some(2)).unwrap();
    assert_eq!(parser.get_crate_names(), vec!["delta".to_string(), "gamma".to_string()]);
}
