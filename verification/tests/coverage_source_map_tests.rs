use symexrs::coverage_source_map::{SourceMapper, SourceMapperBuilder};
use symexrs::profile_format::ProfileSections;

#[test]
fn test_from_indices() {
    let mapper = SourceMapper::from_indices(&[0, 1, 2, 5, 10]);
    assert!(mapper.is_included(0));
    assert!(mapper.is_included(5));
    assert!(!mapper.is_included(3));
    assert!(!mapper.is_included(100));
    assert_eq!(mapper.whitelisted_count(), 5);
}

#[test]
fn test_from_range() {
    let mapper = SourceMapper::from_range(10, 20);
    assert!(!mapper.is_included(9));
    assert!(mapper.is_included(10));
    assert!(mapper.is_included(19));
    assert!(!mapper.is_included(20));
    assert_eq!(mapper.whitelisted_count(), 10);
}

#[test]
fn test_builder() {
    let mapper = SourceMapperBuilder::new()
        .include_range(0, 100)
        .exclude_indices(&[50, 51])
        .build();

    assert!(mapper.is_included(0));
    assert!(mapper.is_included(99));
    assert!(!mapper.is_included(50));
    assert!(!mapper.is_included(51));
    assert!(!mapper.is_included(100));
}

#[test]
fn test_into_filter() {
    let mapper = SourceMapper::from_indices(&[1, 3, 5]);
    let filter = mapper.into_filter();

    assert!(!filter(0));
    assert!(filter(1));
    assert!(!filter(2));
    assert!(filter(3));
    assert!(!filter(4));
    assert!(filter(5));
}

#[test]
fn test_extract_crate_from_symbol_legacy() {
    assert_eq!(
        SourceMapper::extract_crate_from_symbol("_ZN5myapp4main17h1234567890abcdefE"),
        Some("myapp".to_string())
    );

    assert_eq!(
        SourceMapper::extract_crate_from_symbol("_ZN3std2io5stdio6_print17h1234567890abcdefE"),
        Some("std".to_string())
    );
}

#[test]
fn test_parse_names_section_uncompressed() {
    let names_str = b"_ZN5myapp4main17habcdefE\x01_ZN3std2io5stdio6_print17habcdefE";

    let mut data = Vec::new();
    assert!(names_str.len() < 128);
    data.push(names_str.len() as u8);
    data.push(0);
    data.extend_from_slice(names_str);
    while data.len() % 8 != 0 {
        data.push(0);
    }

    let names = SourceMapper::parse_names_section(&data, 0);
    assert_eq!(names.len(), 2);
    assert_eq!(names[0], "_ZN5myapp4main17habcdefE");
    assert_eq!(names[1], "_ZN3std2io5stdio6_print17habcdefE");
}

#[test]
fn test_decode_uleb128() {
    assert_eq!(SourceMapper::decode_uleb128(&[0x00]), (0, 1));
    assert_eq!(SourceMapper::decode_uleb128(&[0x61]), (97, 1));
    assert_eq!(SourceMapper::decode_uleb128(&[0x7F]), (127, 1));
    assert_eq!(SourceMapper::decode_uleb128(&[0x80, 0x01]), (128, 2));
    assert_eq!(SourceMapper::decode_uleb128(&[0xE5, 0x8E, 0x26]), (624485, 3));
}

#[test]
fn test_extract_crate_from_symbol_v0() {
    assert_eq!(
        SourceMapper::extract_crate_from_symbol("_RNvCs1v6ghPAqC9J_3log9max_level"),
        Some("log".to_string())
    );
    assert_eq!(
        SourceMapper::extract_crate_from_symbol("_RNvMNtCsao6uO1f0bfV_2z33astNtB2_3Int8from_str"),
        Some("z3".to_string())
    );
    assert_eq!(
        SourceMapper::extract_crate_from_symbol(
            "_RINvCsaQRQSrH9COt_7symexrs7exploreNCNvCs3mo2BqeNhOe_13mcts_coverage22run_simple_exploration0EBA_"
        ),
        Some("symexrs".to_string())
    );
}

#[test]
fn test_extract_crate_from_unmangled() {
    assert_eq!(
        SourceMapper::extract_crate_from_symbol("myapp::main"),
        Some("myapp".to_string())
    );
    assert_eq!(
        SourceMapper::extract_crate_from_symbol("std::io::stdio::_print"),
        Some("std".to_string())
    );
}

#[test]
fn test_parse_data_records() {
    let mut data = vec![0u8; 96];
    data[0..8].copy_from_slice(&0x1234u64.to_le_bytes());
    data[40..44].copy_from_slice(&3u32.to_le_bytes());
    data[48..56].copy_from_slice(&0x5678u64.to_le_bytes());
    data[88..92].copy_from_slice(&5u32.to_le_bytes());

    let records = SourceMapper::parse_data_records_flexible(&data, 8);
    assert!(records.is_some());
    let records = records.unwrap();
    assert_eq!(records.len(), 2);
    assert_eq!(records[0].name_ref, 0x1234);
    assert_eq!(records[0].num_counters, 3);
    assert_eq!(records[1].name_ref, 0x5678);
    assert_eq!(records[1].num_counters, 5);
}

#[test]
fn decode_uleb128_rejects_truncated_and_overlong_input() {
    assert_eq!(SourceMapper::decode_uleb128(&[]), (0, 0));
    assert_eq!(SourceMapper::decode_uleb128(&[0x80, 0x80]), (0, 0));
    let overlong = [0xFFu8; 11];
    assert_eq!(SourceMapper::decode_uleb128(&overlong), (0, 0));
    // Ten bytes: the last contributes only its lowest bit (bit 63).
    let mut max = vec![0xFFu8; 9];
    max.push(0x01);
    assert_eq!(SourceMapper::decode_uleb128(&max), (u64::MAX, 10));
}

#[test]
fn data_records_need_matching_total() {
    let mut data = vec![0u8; 96];
    data[40..44].copy_from_slice(&3u32.to_le_bytes());
    data[88..92].copy_from_slice(&5u32.to_le_bytes());
    assert!(SourceMapper::parse_data_records_flexible(&data, 9).is_none());
    assert!(SourceMapper::parse_data_records_flexible(&[], 8).is_none());
    assert!(SourceMapper::parse_data_records_flexible(&data, 0).is_none());
}

#[test]
fn data_records_try_other_offsets() {
    // One 48-byte record with NumCounters at offset 32.
    let mut data = vec![0u8; 48];
    data[0..8].copy_from_slice(&7u64.to_le_bytes());
    data[32..36].copy_from_slice(&4u32.to_le_bytes());
    let records = SourceMapper::parse_data_records_flexible(&data, 4).unwrap();
    assert_eq!(records.len(), 1);
    assert_eq!(records[0].name_ref, 7);
    assert_eq!(records[0].num_counters, 4);
}

#[test]
fn symbols_without_crate() {
    assert_eq!(SourceMapper::extract_crate_from_symbol("main"), None);
    assert_eq!(SourceMapper::extract_crate_from_symbol("a-b::c"), None);
    assert_eq!(SourceMapper::extract_crate_from_symbol("::c"), None);
    assert_eq!(SourceMapper::extract_crate_from_symbol("_ZNfoo"), None);
}

#[test]
fn split_names_skips_empty_pieces() {
    let mut names = Vec::new();
    SourceMapper::split_names_into(b"\x01a\x01\x01bc\x01", &mut names);
    assert_eq!(names, vec!["a".to_string(), "bc".to_string()]);
}

#[test]
fn llvm_name_hash_is_md5_prefix() {
    // MD5("") = d41d8cd98f00b204e9800998ecf8427e
    assert_eq!(SourceMapper::llvm_name_hash(""), 0x04b2008fd98c1dd4);
}

#[test]
fn from_crates_selects_counters_of_listed_crates() {
    let name_a = "_ZN5myapp4main17habcdefE";
    let name_b = "_ZN3std2io5stdio6_print17habcdefE";
    let mut names = Vec::new();
    let block = format!("{name_a}\x01{name_b}");
    names.push(block.len() as u8);
    names.push(0);
    names.extend_from_slice(block.as_bytes());
    while names.len() % 8 != 0 {
        names.push(0);
    }
    let mut data = vec![0u8; 96];
    data[0..8].copy_from_slice(&SourceMapper::llvm_name_hash(name_a).to_le_bytes());
    data[40..44].copy_from_slice(&3u32.to_le_bytes());
    data[48..56].copy_from_slice(&SourceMapper::llvm_name_hash(name_b).to_le_bytes());
    data[88..92].copy_from_slice(&2u32.to_le_bytes());
    let sections = ProfileSections { names, names_base: 0, data, total_counters: 5 };
    let mapper = SourceMapper::from_crates(&["std"], Some(sections));
    assert_eq!(mapper.whitelisted_count(), 2);
    assert!(mapper.is_included(3));
    assert!(mapper.is_included(4));
    assert!(!mapper.is_included(0));
    let none = SourceMapper::from_crates(&["std"], None);
    assert_eq!(none.whitelisted_count(), 0);
}

#[test]
fn builder_single_index_and_empty_range() {
    let mapper = SourceMapperBuilder::new().include_one(7).include_range(5, 3).build();
    assert_eq!(mapper.whitelisted_count(), 1);
    assert!(mapper.is_included(7));
    assert_eq!(SourceMapper::from_range(5, 3).whitelisted_count(), 0);
}
