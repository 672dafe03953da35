use lithos::container::compile_map;
use lithos::id_map::{check_mapping, in_mapping, in_range, map_id, IdMap, Range};

#[test]
fn compile_map_writes_one_line_per_entry() {
    let map = vec![
        IdMap { inside: 0, outside: 100000, count: 65536 },
        IdMap { inside: 65536, outside: 1000, count: 1 },
    ];
    assert_eq!(compile_map(&map), b"0 100000 65536\n65536 1000 1\n".to_vec());
}

#[test]
fn compile_map_of_nothing_is_empty() {
    assert_eq!(compile_map(&Vec::new()), Vec::<u8>::new());
}

#[test]
fn in_range_is_inclusive_at_both_ends() {
    let ranges = vec![Range { start: 10, end: 20 }, Range { start: 100, end: 100 }];
    assert!(in_range(&ranges, 10));
    assert!(in_range(&ranges, 20));
    assert!(in_range(&ranges, 100));
    assert!(!in_range(&ranges, 9));
    assert!(!in_range(&ranges, 21));
    assert!(!in_range(&Vec::new(), 0));
}

#[test]
fn in_mapping_excludes_the_end() {
    let map = vec![IdMap { inside: 5, outside: 1000, count: 3 }];
    assert!(in_mapping(&map, 5));
    assert!(in_mapping(&map, 7));
    assert!(!in_mapping(&map, 8));
    assert!(!in_mapping(&map, 4));
}

#[test]
fn check_mapping_wants_one_range_for_each_entry() {
    let allowed = vec![Range { start: 1000, end: 1999 }, Range { start: 5000, end: 5000 }];
    assert!(check_mapping(&allowed, &vec![IdMap { inside: 0, outside: 1000, count: 1000 }]));
    assert!(!check_mapping(&allowed, &vec![IdMap { inside: 0, outside: 1000, count: 1001 }]));
    assert!(check_mapping(&allowed, &vec![IdMap { inside: 0, outside: 5000, count: 1 }]));
    assert!(!check_mapping(&allowed, &vec![IdMap { inside: 0, outside: 999, count: 2 }]));
    assert!(check_mapping(&allowed, &Vec::new()));
}

#[test]
fn map_id_round_trip() {
    let map = vec![
        IdMap { inside: 0, outside: 100000, count: 10 },
        IdMap { inside: 10, outside: 5000, count: 5 },
    ];
    for k in 0..10u32 {
        assert_eq!(map_id(&map, k), Some(100000 + k));
    }
    for k in 0..5u32 {
        assert_eq!(map_id(&map, 10 + k), Some(5000 + k));
    }
    assert_eq!(map_id(&map, 15), None);
}

#[test]
fn map_id_beyond_the_largest_id_is_none() {
    let map = vec![IdMap { inside: 0, outside: u32::MAX, count: 2 }];
    assert_eq!(map_id(&map, 0), Some(u32::MAX));
    assert_eq!(map_id(&map, 1), None);
}
