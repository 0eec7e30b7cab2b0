//! The versionstamp oracles.

use changefeed::oracle::{EpochCounter, Oracle, SysTimeCounter};
use changefeed::vs::to_u128_be;

#[test]
fn systime_counter() {
    let mut o = Oracle::SysTimeCounter(SysTimeCounter::new(0, 0));
    let a = to_u128_be(o.now());
    let b = to_u128_be(o.now());
    assert!(a < b, "a = {}, b = {}", a, b);
}

#[test]
fn epoch_counter() {
    let mut o1 = Oracle::EpochCounter(EpochCounter::new(0));
    let a = to_u128_be(o1.now());
    let b = to_u128_be(o1.now());
    assert!(a < b, "a = {}, b = {}", a, b);
    let mut o2 = Oracle::EpochCounter(EpochCounter::new(1));
    let c = to_u128_be(o2.now());
    assert!(b < c, "b = {}, c = {}", b, c);
}

#[test]
fn epoch_counter_values() {
    let mut o = EpochCounter::new(3);
    let a = to_u128_be(o.now());
    let b = to_u128_be(o.now());
    // epoch in the top two bytes, counter in the low eight
    assert_eq!(a, 3u128 << 64);
    assert_eq!(b, (3u128 << 64) + 1);
}
