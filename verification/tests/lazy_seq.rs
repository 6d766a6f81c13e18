//! Tests of the lazy ascending sequence.

use coopio::iter::inf;

#[test]
fn counter_yields_the_naturals_in_order() {
    let mut c = inf();
    assert_eq!(c.next_value(), 0);
    assert_eq!(c.next_value(), 1);
    assert_eq!(c.next_value(), 2);
    assert_eq!(c.next_value(), 3);
}
