//! Regions and their numbers.

use coretime_market::core_mask::CoreMask;
use coretime_market::primitives::RegionId;

#[test]
fn region_id_converts_u128() {
    let r = RegionId { begin: 0x12345678u32, core: 0xabcdu16, mask: CoreMask::from(0xdeadbeefcafef00d0123u128) };
    let u = 0x12345678_abcd_deadbeefcafef00d0123u128;
    assert_eq!(RegionId::from(u), r);
    assert_eq!(u128::from(r), u);
}

#[test]
fn numbers_and_regions_go_both_ways() {
    for u in [0u128, 1, u128::MAX, 1 << 79, 1 << 80, 1 << 95, 1 << 96] {
        assert_eq!(u128::from(RegionId::from(u)), u);
    }
    let whole = RegionId { begin: 1, core: 2, mask: CoreMask::complete() };
    assert_eq!(u128::from(whole), (1 << 96) + (2 << 80) + ((1 << 80) - 1));
}
