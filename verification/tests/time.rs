//! Time units.

use hprss_sim::time::{fmt_nanos, ms, sec, us};

#[test]
fn time_conversions() {
    assert_eq!(us(1), 1_000);
    assert_eq!(ms(1), 1_000_000);
    assert_eq!(sec(1), 1_000_000_000);
}

#[test]
fn fmt_display() {
    assert_eq!(fmt_nanos(500), "500ns");
    assert_eq!(fmt_nanos(1_500), "1.500µs");
    assert_eq!(fmt_nanos(2_500_000), "2.500ms");
    assert_eq!(fmt_nanos(1_200_000_000), "1.200s");
}
