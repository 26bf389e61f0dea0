use os_kernel::task::safety::is_state_safe;

fn thread(allocation: &[usize], need: &[usize]) -> Option<(Vec<usize>, Vec<usize>)> {
    Some((allocation.to_vec(), need.to_vec()))
}

#[test]
fn no_threads_are_safe() {
    assert!(is_state_safe(&[0, 0], Vec::new()));
    assert!(is_state_safe(&[], vec![None, None]));
}

#[test]
fn threads_that_wait_for_nothing_are_safe() {
    assert!(is_state_safe(&[0], vec![thread(&[1], &[0]), thread(&[5], &[])]));
}

#[test]
fn a_thread_that_waits_for_itself_is_unsafe() {
    assert!(!is_state_safe(&[0], vec![thread(&[1], &[1])]));
    assert!(is_state_safe(&[1], vec![thread(&[1], &[1])]));
}

#[test]
fn a_cycle_of_two_is_unsafe() {
    let states = vec![thread(&[1, 0], &[0, 1]), thread(&[0, 1], &[1, 0])];
    assert!(!is_state_safe(&[0, 0], states));
}

#[test]
fn a_chain_is_safe_in_any_slot_order() {
    let states = vec![
        thread(&[1, 0, 0], &[0, 1, 0]),
        thread(&[0, 1, 0], &[0, 0, 1]),
        thread(&[0, 0, 1], &[0, 0, 0]),
    ];
    assert!(is_state_safe(&[0, 0, 0], states));
    let states = vec![
        thread(&[0, 0, 1], &[0, 0, 0]),
        thread(&[0, 1, 0], &[0, 0, 1]),
        thread(&[1, 0, 0], &[0, 1, 0]),
    ];
    assert!(is_state_safe(&[0, 0, 0], states));
}

#[test]
fn textbook_example_has_a_safe_order() {
    let states = vec![
        thread(&[0, 1, 0], &[7, 4, 3]),
        thread(&[2, 0, 0], &[1, 2, 2]),
        thread(&[3, 0, 2], &[6, 0, 0]),
        thread(&[2, 1, 1], &[0, 1, 1]),
        thread(&[0, 0, 2], &[4, 3, 1]),
    ];
    assert!(is_state_safe(&[3, 3, 2], states));
    let states = vec![
        thread(&[0, 3, 0], &[7, 2, 3]),
        thread(&[3, 0, 2], &[0, 2, 0]),
        thread(&[3, 0, 2], &[6, 0, 0]),
        thread(&[2, 1, 1], &[0, 1, 1]),
        thread(&[0, 0, 2], &[4, 3, 1]),
    ];
    assert!(!is_state_safe(&[2, 1, 0], states));
}

#[test]
fn missing_entries_count_as_zero() {
    assert!(!is_state_safe(&[], vec![thread(&[], &[0, 0, 1])]));
    assert!(is_state_safe(&[], vec![thread(&[], &[0, 0, 1]), thread(&[0, 0, 1], &[])]));
}

#[test]
fn released_counts_do_not_overflow() {
    let states = vec![thread(&[usize::MAX], &[0]), thread(&[1], &[usize::MAX])];
    assert!(is_state_safe(&[usize::MAX], states));
}

#[test]
fn one_stuck_thread_among_others_is_unsafe() {
    let states = vec![None, thread(&[1], &[0]), thread(&[0], &[3])];
    assert!(!is_state_safe(&[1], states));
    let states = vec![None, thread(&[1], &[0]), thread(&[0], &[2])];
    assert!(is_state_safe(&[1], states));
}

#[test]
fn easier_claims_stay_safe() {
    assert!(is_state_safe(&[1, 0], vec![thread(&[0, 1], &[1, 0]), thread(&[0, 0], &[1, 1])]));
    // More is free, more is held, less is waited for.
    assert!(is_state_safe(&[2, 0], vec![thread(&[3, 1], &[1, 0]), thread(&[0, 2], &[0, 1])]));
}

#[test]
fn slots_may_change_places_and_be_empty() {
    let a = || thread(&[1, 0], &[0, 1]);
    let b = || thread(&[0, 1], &[0, 0]);
    let c = || thread(&[0, 1], &[1, 0]);
    assert!(is_state_safe(&[0, 0], vec![a(), b()]));
    assert!(is_state_safe(&[0, 0], vec![b(), a()]));
    assert!(is_state_safe(&[0, 0], vec![None, b(), None, a(), None]));
    assert!(!is_state_safe(&[0, 0], vec![a(), c()]));
    assert!(!is_state_safe(&[0, 0], vec![c(), a()]));
    assert!(!is_state_safe(&[0, 0], vec![None, c(), None, a(), None]));
}
