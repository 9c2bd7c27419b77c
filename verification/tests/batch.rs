//! Batch mode end to end: partitioning, the whole-run driver, and the
//! derived output paths.

use m365check::addr::extract_addresses;
use m365check::paths::output_paths;
use m365check::run::run_batch;
use m365check::sink::partition_verdicts;
use m365check::verdict::Verdict;

fn code_body(code: i64) -> Vec<u8> {
    format!("{{\"IfExistsResult\":{},\"ThrottleStatus\":0}}", code).into_bytes()
}

#[test]
fn partition_routes_each_verdict_once() {
    let vs = vec![
        Verdict { address: b"a@x".to_vec(), exists: true },
        Verdict { address: b"b@x".to_vec(), exists: false },
        Verdict { address: b"c@x".to_vec(), exists: true },
        Verdict { address: b"a@x".to_vec(), exists: false },
    ];
    let (valid, invalid) = partition_verdicts(&vs);
    assert_eq!(valid, vec![b"a@x".to_vec(), b"c@x".to_vec()]);
    assert_eq!(invalid, vec![b"b@x".to_vec(), b"a@x".to_vec()]);
    assert_eq!(valid.len() + invalid.len(), vs.len());
}

#[test]
fn partition_of_no_verdicts_is_empty() {
    let (valid, invalid) = partition_verdicts(&Vec::new());
    assert!(valid.is_empty());
    assert!(invalid.is_empty());
}

#[test]
fn batch_run_partitions_found_and_not_found() {
    let addrs = extract_addresses(b"alice@example.com\n\nbob@example.com");
    assert_eq!(addrs.len(), 2);
    let responses = vec![Some(code_body(0)), Some(code_body(1))];
    let (valid, invalid) = run_batch(&addrs, &responses);
    assert_eq!(valid, vec![b"alice@example.com".to_vec()]);
    assert_eq!(invalid, vec![b"bob@example.com".to_vec()]);
}

#[test]
fn failed_lookup_leaves_its_address_in_neither_partition() {
    let addrs = vec![b"a@x".to_vec(), b"b@x".to_vec(), b"c@x".to_vec()];
    let responses = vec![Some(code_body(0)), None, Some(b"garbage".to_vec())];
    let (valid, invalid) = run_batch(&addrs, &responses);
    assert_eq!(valid, vec![b"a@x".to_vec()]);
    assert_eq!(invalid, Vec::<Vec<u8>>::new());
}

#[test]
fn batch_run_of_no_addresses_writes_nothing() {
    let (valid, invalid) = run_batch(&Vec::new(), &Vec::new());
    assert!(valid.is_empty());
    assert!(invalid.is_empty());
}

#[test]
fn output_paths_derive_from_the_stem() {
    let (valid, invalid) = output_paths(b"input.txt");
    assert_eq!(valid, b"input_valid.txt".to_vec());
    assert_eq!(invalid, b"input_invalid.txt".to_vec());
}

#[test]
fn output_paths_stay_in_the_input_directory() {
    let (valid, invalid) = output_paths(b"/home/user/targets/users.txt");
    assert_eq!(valid, b"/home/user/targets/users_valid.txt".to_vec());
    assert_eq!(invalid, b"/home/user/targets/users_invalid.txt".to_vec());
}

#[test]
fn output_paths_without_extension_use_the_whole_name() {
    let (valid, invalid) = output_paths(b"dir/list");
    assert_eq!(valid, b"dir/list_valid.txt".to_vec());
    assert_eq!(invalid, b"dir/list_invalid.txt".to_vec());
}

#[test]
fn output_paths_keep_a_leading_dot_name_whole() {
    let (valid, _) = output_paths(b".hidden");
    assert_eq!(valid, b".hidden_valid.txt".to_vec());
}

#[test]
fn output_paths_cut_only_the_last_extension() {
    let (valid, _) = output_paths(b"dir.d/list.tar.gz");
    assert_eq!(valid, b"dir.d/list.tar_valid.txt".to_vec());
}
