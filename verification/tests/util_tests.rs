use vorzax::util::{align_down, align_up, is_aligned, sleep_ms, delay_us};

#[test]
fn test_align_up() {
    assert_eq!(align_up(0x1000, 0x1000), 0x1000);
    assert_eq!(align_up(0x1001, 0x1000), 0x2000);
    assert_eq!(align_up(0x2999, 0x1000), 0x3000);
}

#[test]
fn test_align_down() {
    assert_eq!(align_down(0x1000, 0x1000), 0x1000);
    assert_eq!(align_down(0x1001, 0x1000), 0x1000);
    assert_eq!(align_down(0x2999, 0x1000), 0x2000);
}

#[test]
fn align_small_powers() {
    assert_eq!(align_up(0, 16), 0);
    assert_eq!(align_up(1, 16), 16);
    assert_eq!(align_up(17, 8), 24);
    assert_eq!(align_down(17, 8), 16);
    assert_eq!(align_down(7, 8), 0);
    assert_eq!(align_up(5, 1), 5);
}

#[test]
fn aligned_check() {
    assert!(is_aligned(0x2000, 0x1000));
    assert!(!is_aligned(0x2001, 0x1000));
    assert!(is_aligned(24, 8));
    assert!(is_aligned(align_up(0x1234, 64), 64));
    assert!(is_aligned(align_down(0x1234, 64), 64));
}

#[test]
fn short_delays_return() {
    delay_us(0);
    delay_us(1);
    sleep_ms(0);
}
