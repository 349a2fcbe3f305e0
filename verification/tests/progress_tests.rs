use server::log_if_err::log_err;
use server::progress::ByteRange;
use server::progress::invert_progress;
use server::progress::merge_progress;
use server::schedule::remaining_suffix;
use server::schedule::split_chunks;
use server::unique_path::dest_candidate;
use server::unique_path::numbered_name;

fn r(start: u64, end: u64) -> ByteRange {
    ByteRange::new(start, end)
}

#[test]
fn test_reverse_progress() {
    assert_eq!(invert_progress(&vec![], 10), [r(0, 10)]);
    assert_eq!(invert_progress(&vec![r(0, 5)], 10), [r(5, 10)]);
    assert_eq!(invert_progress(&vec![r(5, 10)], 10), [r(0, 5)]);
    assert_eq!(invert_progress(&vec![r(0, 5), r(7, 10)], 10), [r(5, 7)]);
    assert_eq!(invert_progress(&vec![r(0, 3), r(5, 8)], 10), [r(3, 5), r(8, 10)]);
    assert_eq!(invert_progress(&vec![r(1, 3), r(5, 8)], 10), [r(0, 1), r(3, 5), r(8, 10)]);
}

#[test]
fn invert_of_complete_progress_is_empty() {
    assert_eq!(invert_progress(&vec![r(0, 10)], 10), []);
    assert_eq!(invert_progress(&vec![], 0), []);
}

#[test]
fn merge_coalesces_overlaps_and_touches() {
    let mut v = vec![r(1, 5), r(8, 10)];
    merge_progress(&mut v, r(5, 10));
    assert_eq!(v, vec![r(1, 10)]);
    merge_progress(&mut v, r(10, 20));
    assert_eq!(v, vec![r(1, 20)]);
    merge_progress(&mut v, r(30, 40));
    assert_eq!(v, vec![r(1, 20), r(30, 40)]);
    merge_progress(&mut v, r(21, 40));
    assert_eq!(v, vec![r(1, 20), r(21, 40)]);
    merge_progress(&mut v, r(19, 21));
    assert_eq!(v, vec![r(1, 40)]);
}

#[test]
fn merge_of_empty_range_changes_nothing() {
    let mut v = vec![r(1, 5), r(10, 20)];
    merge_progress(&mut v, r(3, 3));
    assert_eq!(v, vec![r(1, 5), r(10, 20)]);
    merge_progress(&mut v, r(7, 7));
    assert_eq!(v, vec![r(1, 5), r(10, 20)]);
}

#[test]
fn merge_is_idempotent_on_values() {
    let mut once = vec![r(0, 3), r(8, 10)];
    merge_progress(&mut once, r(4, 6));
    let mut twice = once.clone();
    merge_progress(&mut twice, r(4, 6));
    assert_eq!(once, twice);
}

#[test]
fn merge_is_commutative_on_values() {
    let base = vec![r(10, 20)];
    let mut ab = base.clone();
    merge_progress(&mut ab, r(0, 5));
    merge_progress(&mut ab, r(20, 30));
    let mut ba = base.clone();
    merge_progress(&mut ba, r(20, 30));
    merge_progress(&mut ba, r(0, 5));
    assert_eq!(ab, ba);
    assert_eq!(ab, vec![r(0, 5), r(10, 30)]);
}

#[test]
fn merge_only_grows_coverage() {
    let mut v = vec![r(2, 4)];
    let before: u64 = v.iter().map(|x| x.end - x.start).sum();
    merge_progress(&mut v, r(3, 9));
    let after: u64 = v.iter().map(|x| x.end - x.start).sum();
    assert!(after >= before);
    assert_eq!(v, vec![r(2, 9)]);
}

#[test]
fn progress_and_inversion_partition_the_file() {
    let p = vec![r(0, 3), r(5, 8)];
    let q = invert_progress(&p, 10);
    let mut total: Vec<bool> = vec![false; 10];
    for x in p.iter().chain(q.iter()) {
        for b in x.start..x.end {
            assert!(!total[b as usize], "byte {} covered twice", b);
            total[b as usize] = true;
        }
    }
    assert!(total.iter().all(|&b| b), "some byte of [0,10) left uncovered");
}

#[test]
fn split_ten_mib_across_four_workers() {
    let remaining = vec![r(0, 10485760)];
    let chunks = split_chunks(&remaining, 4, 1048576);
    assert_eq!(
        chunks,
        vec![r(0, 2621440), r(2621440, 5242880), r(5242880, 7864320), r(7864320, 10485760)]
    );
}

#[test]
fn split_small_remainder_gives_fewer_chunks() {
    let remaining = vec![r(0, 1572864)];
    let chunks = split_chunks(&remaining, 4, 1048576);
    assert_eq!(chunks, vec![r(0, 1572864)]);
}

#[test]
fn split_balances_an_indivisible_length() {
    let remaining = vec![r(0, 10)];
    let chunks = split_chunks(&remaining, 4, 1);
    assert_eq!(chunks, vec![r(0, 3), r(3, 6), r(6, 8), r(8, 10)]);
}

#[test]
fn split_caps_the_chunk_count_at_concurrent() {
    let remaining = vec![r(0, 10485760)];
    let chunks = split_chunks(&remaining, 2, 1048576);
    assert_eq!(chunks, vec![r(0, 5242880), r(5242880, 10485760)]);
}

#[test]
fn split_keeps_gaps_between_ranges() {
    let remaining = vec![r(0, 2), r(10, 12)];
    let chunks = split_chunks(&remaining, 2, 1);
    assert_eq!(chunks, vec![r(0, 1), r(1, 2), r(10, 11), r(11, 12)]);
}

#[test]
fn retry_repulls_exactly_the_unwritten_suffix() {
    let chunk = r(1048576, 2097152);
    let rest = remaining_suffix(chunk, 524288);
    assert_eq!(rest, r(1572864, 2097152));
}

#[test]
fn dest_candidate_sanitizes_the_server_name() {
    let c = dest_candidate(".", "a/b.txt", false);
    assert_eq!(c, "./a_b.txt");
}

#[test]
fn dest_candidate_handles_windows_reserved_names() {
    let c = dest_candidate("downloads", "con.txt", true);
    assert_eq!(c, "downloads/_");
    let unix = dest_candidate("downloads", "con.txt", false);
    assert_eq!(unix, "downloads/con.txt");
}

#[test]
fn numbered_name_counts_collisions() {
    assert_eq!(numbered_name("file", "txt", 1), "file (1).txt");
    assert_eq!(numbered_name("file", "txt", 12), "file (12).txt");
}

#[test]
fn log_err_hands_back_only_errors() {
    let ok: Result<u32, String> = Ok(7);
    assert!(log_err(ok, "ctx").is_none());
    let err: Result<u32, String> = Err(String::from("boom"));
    let logged = log_err(err, "ctx").unwrap();
    assert_eq!(logged.0, "ctx");
    assert_eq!(logged.1, "boom");
}
