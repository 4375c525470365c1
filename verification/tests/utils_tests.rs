use kernel::utils::{align_down, align_up, is_power_of_two_exec};

#[test]
fn align_up_rounds_to_multiple() {
    assert_eq!(align_up(0, 8), Some(0));
    assert_eq!(align_up(1, 8), Some(8));
    assert_eq!(align_up(8, 8), Some(8));
    assert_eq!(align_up(4095, 4096), Some(4096));
    assert_eq!(align_up(4096, 4096), Some(4096));
    assert_eq!(align_up(5, 1), Some(5));
}

#[test]
fn align_up_overflow_is_none() {
    assert_eq!(align_up(usize::MAX, 8), None);
    assert_eq!(align_up(usize::MAX - 6, 8), None);
    assert_eq!(align_up(usize::MAX - 7, 8), Some(usize::MAX - 7));
}

#[test]
fn align_down_rounds_to_multiple() {
    assert_eq!(align_down(0, 4096), 0);
    assert_eq!(align_down(4095, 4096), 0);
    assert_eq!(align_down(8193, 4096), 8192);
    assert_eq!(align_down(usize::MAX, 8), usize::MAX - 7);
}

#[test]
fn power_of_two_check() {
    assert!(is_power_of_two_exec(1));
    assert!(is_power_of_two_exec(2));
    assert!(is_power_of_two_exec(4096));
    assert!(is_power_of_two_exec(1usize << 63));
    assert!(!is_power_of_two_exec(0));
    assert!(!is_power_of_two_exec(3));
    assert!(!is_power_of_two_exec(4097));
}
