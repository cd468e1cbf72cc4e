use fenix_profile::store::TypedValue;
use fenix_profile::utils::{Timespec, ToTypedValue};

#[test]
fn timespec_converts_to_microseconds() {
    assert_eq!(Timespec::new(1, 0).to_typed_value(), TypedValue::Instant(1_000_000));
    assert_eq!(Timespec::new(2, 5_000).to_typed_value(), TypedValue::Instant(2_000_005));
    assert_eq!(Timespec::new(0, 999).to_typed_value(), TypedValue::Instant(0));
    assert_eq!(Timespec::new(-1, 0).to_typed_value(), TypedValue::Instant(-1_000_000));
}
