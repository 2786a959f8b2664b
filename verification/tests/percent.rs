use airc::percent::{percent_rounded, percent_truncated};

fn truncated(current: u64, total: u64) -> u16 {
    ((current as f64 / total as f64) * 100.0) as u16
}

fn rounded(current: u64, total: u64) -> u16 {
    ((current as f64 / total as f64) * 100.0).round() as u16
}

#[test]
fn percentages_are_those_of_double_precision() {
    let mut x: u64 = 0x9e37_79b9_7f4a_7c15;
    for i in 0..20000u32 {
        x ^= x << 13;
        x ^= x >> 7;
        x ^= x << 17;
        let a = x >> (i % 64);
        x ^= x << 13;
        x ^= x >> 7;
        x ^= x << 17;
        let b = (x >> (i / 7 % 64)).max(1);
        assert_eq!(percent_truncated(a, b), truncated(a, b));
        assert_eq!(percent_rounded(a, b), rounded(a, b));
    }
}

#[test]
fn small_percentages_are_those_of_double_precision() {
    for total in 1..150u64 {
        for current in 0..=total {
            assert_eq!(percent_truncated(current, total), truncated(current, total));
            assert_eq!(percent_rounded(current, total), rounded(current, total));
        }
    }
}

#[test]
fn percentages_at_the_edges() {
    assert_eq!(percent_truncated(0, 1), 0);
    assert_eq!(percent_truncated(29, 100), 28);
    assert_eq!(percent_rounded(29, 100), 29);
    assert_eq!(percent_truncated(u64::MAX, 1), u16::MAX);
    assert_eq!(percent_rounded(u64::MAX, 1), u16::MAX);
}

#[test]
fn all_bytes_are_a_hundred_percent() {
    for total in [1u64, 3, 807, 1272554, 10737418240, u64::MAX] {
        assert_eq!(percent_truncated(total, total), 100);
        assert_eq!(percent_rounded(total, total), 100);
        assert_eq!(percent_truncated(0, total), 0);
    }
}

#[test]
fn percentages_never_fall() {
    for total in [1u64, 7, 100, 807, 1272554] {
        let mut last = (0, 0);
        for step in 0..=200u64 {
            let current = total * step / 200;
            let now = (percent_truncated(current, total), percent_rounded(current, total));
            assert!(last.0 <= now.0 && last.1 <= now.1);
            last = now;
        }
        assert_eq!(last, (100, 100));
    }
}
