use cgrep::search::{hits_of_file, render_hits, MatchHit};
use cgrep::shard::{chunk_size, gather, merge, partition, reversed};
use cgrep::text::clip;

#[test]
fn hit_line_is_path_row_column() {
    let hit = MatchHit { path: "src/lib.rs".to_string(), row: 12, column: 5 };
    assert_eq!(hit.render(), "src/lib.rs:12:5");
    let far = MatchHit { path: "".to_string(), row: 4294967296, column: 1 };
    assert_eq!(far.render(), ":4294967296:1");
}

#[test]
fn hits_are_counted_from_one() {
    let found = vec![vec![(0, 0)]];
    assert_eq!(
        hits_of_file("a.rs", &found),
        vec![MatchHit { path: "a.rs".to_string(), row: 1, column: 1 }]
    );
    let last = vec![vec![(u32::MAX, u32::MAX)]];
    assert_eq!(
        hits_of_file("a.rs", &last),
        vec![MatchHit { path: "a.rs".to_string(), row: 4294967296, column: 4294967296 }]
    );
}

#[test]
fn every_capture_of_every_match_is_a_hit() {
    let found = vec![vec![(0, 0), (0, 3), (0, 0)], vec![], vec![(7, 4)]];
    let hits = hits_of_file("a.rs", &found);
    assert_eq!(render_hits(&hits), vec!["a.rs:1:1", "a.rs:1:4", "a.rs:1:1", "a.rs:8:5"]);
}

#[test]
fn no_match_no_hit() {
    assert_eq!(hits_of_file("a.rs", &Vec::new()), Vec::<MatchHit>::new());
    assert_eq!(hits_of_file("a.rs", &vec![vec![], vec![]]), Vec::<MatchHit>::new());
    assert_eq!(render_hits(&Vec::new()), Vec::<String>::new());
}

#[test]
fn shard_size_is_the_quotient_rounded_up() {
    assert_eq!(chunk_size(0, 4), 0);
    assert_eq!(chunk_size(1, 4), 1);
    assert_eq!(chunk_size(4, 4), 1);
    assert_eq!(chunk_size(5, 4), 2);
    assert_eq!(chunk_size(8, 4), 2);
    assert_eq!(chunk_size(10, 4), 3);
    assert_eq!(chunk_size(10, 1), 10);
    assert_eq!(chunk_size(usize::MAX, 2), usize::MAX / 2 + 1);
    assert_eq!(chunk_size(usize::MAX, usize::MAX), 1);
}

#[test]
fn shards_are_consecutive_and_full_but_for_the_last() {
    let entries: Vec<u32> = (0..10).collect();
    assert_eq!(
        partition(entries, 4),
        vec![vec![0, 1, 2], vec![3, 4, 5], vec![6, 7, 8], vec![9]]
    );
    let entries: Vec<u32> = (0..8).collect();
    assert_eq!(
        partition(entries, 4),
        vec![vec![0, 1], vec![2, 3], vec![4, 5], vec![6, 7]]
    );
    let entries: Vec<u32> = (0..9).collect();
    assert_eq!(partition(entries, 4), vec![vec![0, 1, 2], vec![3, 4, 5], vec![6, 7, 8]]);
}

#[test]
fn fewer_entries_than_workers_give_one_shard_each() {
    assert_eq!(partition(vec!['a', 'b', 'c'], 4), vec![vec!['a'], vec!['b'], vec!['c']]);
    assert_eq!(partition(vec!['a'], 4), vec![vec!['a']]);
}

#[test]
fn no_entries_give_no_shards() {
    assert_eq!(partition(Vec::<u32>::new(), 4), Vec::<Vec<u32>>::new());
}

#[test]
fn one_worker_takes_all() {
    assert_eq!(partition(vec![1, 2, 3], 1), vec![vec![1, 2, 3]]);
}

#[test]
fn merge_joins_in_shard_order() {
    assert_eq!(merge(vec![vec![1, 2], vec![], vec![3], vec![4, 5]]), vec![1, 2, 3, 4, 5]);
    assert_eq!(merge(Vec::<Vec<u32>>::new()), Vec::<u32>::new());
    assert_eq!(merge(partition((0..11).collect::<Vec<u32>>(), 4)), (0..11).collect::<Vec<u32>>());
}

#[test]
fn clip_selects_a_range_or_nothing() {
    let source = b"fn main() {}";
    assert_eq!(clip(source, 3, 7), b"main");
    assert_eq!(clip(source, 0, 12), b"fn main() {}");
    assert_eq!(clip(source, 5, 5), b"");
    assert_eq!(clip(source, 3, 13), b"");
    assert_eq!(clip(source, 7, 3), b"");
}

#[test]
fn gather_hands_back_all_or_the_first_error() {
    let all: Vec<Result<u32, String>> = vec![Ok(1), Ok(2), Ok(3)];
    assert_eq!(gather(all), Ok(vec![1, 2, 3]));
    let none: Vec<Result<u32, String>> = Vec::new();
    assert_eq!(gather(none), Ok(Vec::new()));
    let failed: Vec<Result<u32, String>> =
        vec![Ok(1), Err("first".to_string()), Ok(3), Err("second".to_string())];
    assert_eq!(gather(failed), Err("first".to_string()));
}

#[test]
fn reversed_turns_the_order() {
    assert_eq!(reversed(vec![1, 2, 3]), vec![3, 2, 1]);
    assert_eq!(reversed(Vec::<u8>::new()), Vec::<u8>::new());
}
