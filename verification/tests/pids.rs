//! Descendant-pid filtering and the small proc-text parsers.

use std::collections::HashMap;

use remoteprocess::filter_child_pids;
use remoteprocess::parse_dec_u64;
use remoteprocess::parse_stat_running;

#[test]
fn descendants_of_the_target_are_kept_and_others_dropped() {
    let mut processes: HashMap<i32, i32> = HashMap::new();
    processes.insert(2, 1);
    processes.insert(3, 2);
    processes.insert(4, 1);
    processes.insert(5, 9);
    let mut got = filter_child_pids(1, &processes);
    got.sort();
    assert_eq!(got, vec![(2, 1), (3, 2), (4, 1)]);
}

#[test]
fn a_cycle_that_never_reaches_the_target_terminates_and_is_excluded() {
    let mut processes: HashMap<i32, i32> = HashMap::new();
    processes.insert(2, 3);
    processes.insert(3, 2);
    let got = filter_child_pids(1, &processes);
    assert!(got.is_empty());
}

#[test]
fn a_self_referential_entry_terminates_without_a_match() {
    let mut processes: HashMap<i32, i32> = HashMap::new();
    processes.insert(5, 5);
    processes.insert(6, 5);
    // 5's chain loops on itself and never reaches 1; the walk still ends.
    assert!(filter_child_pids(1, &processes).is_empty());
    // With 5 itself as the target, both entries' parent chains start at 5.
    let mut got = filter_child_pids(5, &processes);
    got.sort();
    assert_eq!(got, vec![(5, 5), (6, 5)]);
}

#[test]
fn an_empty_snapshot_yields_nothing() {
    let processes: HashMap<i32, i32> = HashMap::new();
    assert!(filter_child_pids(1, &processes).is_empty());
}

#[test]
fn decimal_parsing_accepts_digits_and_rejects_the_rest() {
    assert_eq!(parse_dec_u64(&b"0".to_vec()), Some(0));
    assert_eq!(parse_dec_u64(&b"12345".to_vec()), Some(12345));
    assert_eq!(parse_dec_u64(&b"18446744073709551615".to_vec()), Some(u64::MAX));
    assert_eq!(parse_dec_u64(&b"18446744073709551616".to_vec()), None);
    assert_eq!(parse_dec_u64(&b"".to_vec()), None);
    assert_eq!(parse_dec_u64(&b".".to_vec()), None);
    assert_eq!(parse_dec_u64(&b"12a".to_vec()), None);
}

#[test]
fn stat_state_is_read_after_the_last_closing_paren() {
    let running = b"1234 (a task) R 1 2 3".to_vec();
    assert_eq!(parse_stat_running(&running), Some(true));
    let sleeping = b"1234 (a task) S 1 2 3".to_vec();
    assert_eq!(parse_stat_running(&sleeping), Some(false));
    // A command name may itself hold a closing paren; the last one counts.
    let tricky = b"99 (we(i)rd) name) S 0".to_vec();
    assert_eq!(parse_stat_running(&tricky), Some(false));
    let malformed = b"no parens here".to_vec();
    assert_eq!(parse_stat_running(&malformed), None);
    let truncated = b"1 (x)".to_vec();
    assert_eq!(parse_stat_running(&truncated), None);
}
