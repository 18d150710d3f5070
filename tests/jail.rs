use blockfast::addr::IpAddr;
use blockfast::jail::Jail;

const A: IpAddr = IpAddr::V4(0x0102_0304);

#[test]
fn third_offence_bans() {
    let mut jail = Jail::new(3, 60);
    assert!(!jail.sentence(A, 1000));
    assert_eq!(jail.record_of(A), Some((1, 1000)));
    assert!(!jail.sentence(A, 1001));
    assert_eq!(jail.record_of(A), Some((2, 1000)));
    assert!(jail.sentence(A, 1002));
    assert_eq!(jail.record_of(A), None);
    // The record is gone: a new count starts.
    assert!(!jail.sentence(A, 1003));
    assert!(!jail.sentence(A, 1004));
    assert!(jail.sentence(A, 1005));
}

#[test]
fn fifth_offence_in_window_bans() {
    let mut jail = Jail::new(5, 100);
    for t in 0..4u64 {
        assert!(!jail.sentence(A, 500 + t * 25));
    }
    assert!(jail.sentence(A, 600));
}

#[test]
fn window_passed_restarts_count() {
    let mut jail = Jail::new(5, 100);
    for t in 0..4u64 {
        assert!(!jail.sentence(A, 500 + t));
    }
    // 601 > 500 + 100: the count restarts at one.
    assert!(!jail.sentence(A, 601));
    assert_eq!(jail.record_of(A), Some((1, 601)));
    for t in 0..3u64 {
        assert!(!jail.sentence(A, 602 + t));
    }
    assert!(jail.sentence(A, 700));
}

#[test]
fn addresses_are_counted_apart() {
    let mut jail = Jail::new(2, 60);
    let b = IpAddr::V6(0x0102_0304);
    assert!(!jail.sentence(A, 10));
    assert!(!jail.sentence(b, 10));
    assert!(jail.sentence(b, 11));
    assert!(jail.sentence(A, 11));
}

#[test]
fn allowance_one_bans_at_once() {
    let mut jail = Jail::new(1, 60);
    assert!(jail.sentence(A, 0));
    assert!(jail.sentence(A, 0));
}

#[test]
fn late_clock_values_do_not_overflow() {
    let mut jail = Jail::new(2, u32::MAX);
    assert!(!jail.sentence(A, u64::MAX));
    assert!(jail.sentence(A, u64::MAX));
}

#[test]
fn clock_reads_seconds_since_epoch() {
    // 2017-07-14 and later.
    assert!(blockfast::utils::get_epoch() > 1_500_000_000);
}
