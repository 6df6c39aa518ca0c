use std::collections::HashMap;

use flowstation::radioid::{
    cache_disk_pairs, cache_map_from_disk, entry_from_disk, entry_to_disk, fetch_outcome, CallsignCache, CallsignEntry,
    FetchOutcome, Lookup,
};
use flowstation::chars::{decimal_string, parse_u32};
use flowstation::telemetry::{read_int_file, split_prefix_channel};

#[test]
fn sensor_names_split_at_first_digit() {
    assert_eq!(split_prefix_channel("temp1_input"), ("temp", "1_input"));
    assert_eq!(split_prefix_channel("power"), ("power", ""));
    assert_eq!(split_prefix_channel("in12_input"), ("in", "12_input"));
    assert_eq!(split_prefix_channel("7"), ("", "7"));
}

#[test]
fn sensor_files_read_as_integers() {
    assert_eq!(read_int_file(" 42000\n"), Some(42000));
    assert_eq!(read_int_file("-5"), Some(-5));
    assert_eq!(read_int_file("abc"), None);
    assert_eq!(read_int_file(""), None);
}

#[test]
fn callsign_cache_queues_each_id_once() {
    let mut map = HashMap::new();
    map.insert(1u32, CallsignEntry::Found("YO3ABC".to_string()));
    map.insert(2u32, CallsignEntry::NotFound);
    let mut cache = CallsignCache::new(map);
    assert!(matches!(cache.get(1), (Lookup::Found(c), false) if c == "YO3ABC"));
    assert!(matches!(cache.get(2), (Lookup::NotFound, false)));
    assert!(matches!(cache.get(3), (Lookup::Pending, true)));
    assert!(matches!(cache.get(3), (Lookup::Pending, false)));
    assert!(!cache.already_resolved(3));
    assert!(!cache.record(3, FetchOutcome::Failed));
    assert!(matches!(cache.get(3), (Lookup::Pending, true)));
    assert!(cache.record(3, FetchOutcome::Found("DL1XYZ".to_string())));
    assert!(matches!(cache.get(3), (Lookup::Found(c), false) if c == "DL1XYZ"));
    assert!(cache.already_resolved(3));
}

#[test]
fn callsign_disk_format_and_answers() {
    assert!(matches!(entry_from_disk(String::new()), CallsignEntry::NotFound));
    assert!(matches!(entry_from_disk("K1ABC".to_string()), CallsignEntry::Found(c) if c == "K1ABC"));
    assert_eq!(entry_to_disk(&CallsignEntry::NotFound), "");
    assert_eq!(entry_to_disk(&CallsignEntry::Found("K1ABC".to_string())), "K1ABC");
    assert!(matches!(fetch_outcome(None, ""), FetchOutcome::Failed));
    assert!(matches!(fetch_outcome(Some(0), "X"), FetchOutcome::NotFound));
    assert!(matches!(fetch_outcome(Some(2), ""), FetchOutcome::NotFound));
    assert!(matches!(fetch_outcome(Some(2), " \t "), FetchOutcome::NotFound));
    assert!(matches!(fetch_outcome(Some(1), "N0CALL"), FetchOutcome::Found(c) if c == "N0CALL"));
    assert!(matches!(fetch_outcome(Some(1), " YO3XYZ\n"), FetchOutcome::Found(c) if c == "YO3XYZ"));
}

#[test]
fn saved_cache_file_is_read() {
    let m = cache_map_from_disk("{ \"2260324\": \"YO3XYZ\", \"2260575\": \"\", \"junk\": \"X\", \"+7\": \"A1B\" }");
    assert_eq!(m.len(), 3);
    assert!(matches!(m.get(&2260324), Some(CallsignEntry::Found(c)) if c == "YO3XYZ"));
    assert!(matches!(m.get(&2260575), Some(CallsignEntry::NotFound)));
    assert!(matches!(m.get(&7), Some(CallsignEntry::Found(c)) if c == "A1B"));
    assert!(cache_map_from_disk("not json").is_empty());
    assert!(cache_map_from_disk("[1, 2]").is_empty());
    assert!(cache_map_from_disk("{\"4294967296\": \"X\", \"-1\": \"Y\"}").is_empty());
}

#[test]
fn cache_is_saved_as_decimal_keys() {
    let mut m = std::collections::HashMap::new();
    m.insert(2260324u32, CallsignEntry::Found("YO3XYZ".to_string()));
    m.insert(0u32, CallsignEntry::NotFound);
    let mut pairs = cache_disk_pairs(&m);
    pairs.sort();
    assert_eq!(pairs, vec![("0".to_string(), String::new()), ("2260324".to_string(), "YO3XYZ".to_string())]);
    // Saved pairs read back as the same cache.
    let text = format!("{{\"{}\": \"{}\", \"{}\": \"{}\"}}", pairs[0].0, pairs[0].1, pairs[1].0, pairs[1].1);
    let back = cache_map_from_disk(&text);
    assert!(matches!(back.get(&2260324), Some(CallsignEntry::Found(c)) if c == "YO3XYZ"));
    assert!(matches!(back.get(&0), Some(CallsignEntry::NotFound)));
}

#[test]
fn decimal_numbers_read_and_write_as_std_does() {
    assert_eq!(parse_u32("42"), Some(42));
    assert_eq!(parse_u32("+42"), Some(42));
    assert_eq!(parse_u32("007"), Some(7));
    assert_eq!(parse_u32("4294967295"), Some(u32::MAX));
    assert_eq!(parse_u32("4294967296"), None);
    assert_eq!(parse_u32("-1"), None);
    assert_eq!(parse_u32("+"), None);
    assert_eq!(parse_u32(""), None);
    assert_eq!(parse_u32(" 1"), None);
    assert_eq!(decimal_string(0), "0");
    assert_eq!(decimal_string(4294967295), "4294967295");
    for n in [0u32, 9, 10, 99, 100, 123456, u32::MAX] {
        assert_eq!(decimal_string(n), n.to_string());
        assert_eq!(parse_u32(&n.to_string()), n.to_string().parse::<u32>().ok());
    }
}
