use ipc_teal::layout::{is_power_of_two, next_power_of_two, valid_queue_depth};

#[test]
fn power_of_two_checks() {
    assert!(is_power_of_two(1));
    assert!(is_power_of_two(1024));
    assert!(!is_power_of_two(0));
    assert!(!is_power_of_two(6));
}

#[test]
fn next_power_of_two_rounds_up() {
    assert_eq!(next_power_of_two(0), 1);
    assert_eq!(next_power_of_two(1), 1);
    assert_eq!(next_power_of_two(5), 8);
    assert_eq!(next_power_of_two(1024), 1024);
    assert_eq!(next_power_of_two(1025), 2048);
}

#[test]
fn queue_depth_limits() {
    assert!(valid_queue_depth(1 << 20));
    assert!(!valid_queue_depth(1 << 21));
    assert!(!valid_queue_depth(3));
    assert!(!valid_queue_depth(0));
}
