use databend_core::number::{max_bit_with, next_bit_width, NumberDataType, SimpleDomain};

#[test]
fn new_builds_each_type() {
    assert_eq!(NumberDataType::new(8, false, false), NumberDataType::UInt8);
    assert_eq!(NumberDataType::new(16, false, false), NumberDataType::UInt16);
    assert_eq!(NumberDataType::new(32, false, false), NumberDataType::UInt32);
    assert_eq!(NumberDataType::new(64, false, false), NumberDataType::UInt64);
    assert_eq!(NumberDataType::new(8, true, false), NumberDataType::Int8);
    assert_eq!(NumberDataType::new(16, true, false), NumberDataType::Int16);
    assert_eq!(NumberDataType::new(32, true, false), NumberDataType::Int32);
    assert_eq!(NumberDataType::new(64, true, false), NumberDataType::Int64);
    assert_eq!(NumberDataType::new(32, true, true), NumberDataType::Float32);
    assert_eq!(NumberDataType::new(64, true, true), NumberDataType::Float64);
}

#[test]
fn width_sign_and_kind() {
    assert_eq!(NumberDataType::UInt16.bit_width(), 16);
    assert_eq!(NumberDataType::Float64.bit_width(), 64);
    assert!(!NumberDataType::UInt32.is_signed());
    assert!(NumberDataType::Int8.is_signed());
    assert!(NumberDataType::Float32.is_signed());
    assert!(NumberDataType::Float32.is_float());
    assert!(!NumberDataType::Int64.is_float());
}

#[test]
fn lossless_casts() {
    assert!(NumberDataType::UInt8.can_lossless_cast_to(NumberDataType::Int16));
    assert!(!NumberDataType::UInt8.can_lossless_cast_to(NumberDataType::Int8));
    assert!(!NumberDataType::UInt64.can_lossless_cast_to(NumberDataType::Int64));
    assert!(!NumberDataType::Int8.can_lossless_cast_to(NumberDataType::UInt64));
    assert!(NumberDataType::Int32.can_lossless_cast_to(NumberDataType::Float64));
    assert!(!NumberDataType::Int32.can_lossless_cast_to(NumberDataType::Float32));
    assert!(NumberDataType::Float32.can_lossless_cast_to(NumberDataType::Float64));
    assert!(!NumberDataType::Float64.can_lossless_cast_to(NumberDataType::Float32));
    assert!(!NumberDataType::Float32.can_lossless_cast_to(NumberDataType::Int64));
    assert!(NumberDataType::Int16.can_lossless_cast_to(NumberDataType::Int16));
}

#[test]
fn lossless_super_types() {
    assert_eq!(NumberDataType::UInt8.lossless_super_type(NumberDataType::Int8), Some(NumberDataType::Int16));
    assert_eq!(NumberDataType::Int8.lossless_super_type(NumberDataType::UInt8), Some(NumberDataType::Int16));
    assert_eq!(NumberDataType::UInt32.lossless_super_type(NumberDataType::UInt16), Some(NumberDataType::UInt32));
    assert_eq!(NumberDataType::Int16.lossless_super_type(NumberDataType::Int64), Some(NumberDataType::Int64));
    assert_eq!(NumberDataType::Float32.lossless_super_type(NumberDataType::Int32), Some(NumberDataType::Float64));
    assert_eq!(NumberDataType::UInt16.lossless_super_type(NumberDataType::Float32), Some(NumberDataType::Float32));
    assert_eq!(NumberDataType::Float32.lossless_super_type(NumberDataType::Float64), Some(NumberDataType::Float64));
    assert_eq!(NumberDataType::Int64.lossless_super_type(NumberDataType::Float32), None);
    assert_eq!(NumberDataType::UInt64.lossless_super_type(NumberDataType::Int8), Some(NumberDataType::Int64));
    assert_eq!(NumberDataType::Int64.lossless_super_type(NumberDataType::UInt8), None);
}

#[test]
fn bit_width_helpers() {
    assert_eq!(next_bit_width(8), Some(16));
    assert_eq!(next_bit_width(32), Some(64));
    assert_eq!(next_bit_width(64), None);
    assert_eq!(max_bit_with(8, 32), 32);
    assert_eq!(max_bit_with(64, 16), 64);
}

#[test]
fn domains_saturate_into_the_target_type() {
    use_domain_cases();
}

fn use_domain_cases() {
    let d = SimpleDomain { min: -5i128, max: 300i128 };
    let (r, overflow) = d.overflow_cast(NumberDataType::UInt8);
    assert_eq!(r, SimpleDomain { min: 0, max: 255 });
    assert!(overflow);
    let (r, overflow) = d.overflow_cast(NumberDataType::Int16);
    assert_eq!(r, SimpleDomain { min: -5, max: 300 });
    assert!(!overflow);
    let (r, overflow) = d.overflow_cast_with_minmax(0, 1000);
    assert_eq!(r, SimpleDomain { min: 0, max: 300 });
    assert!(overflow);
    let big = SimpleDomain { min: 0i128, max: u64::MAX as i128 };
    let (r, overflow) = big.overflow_cast(NumberDataType::Int64);
    assert_eq!(r, SimpleDomain { min: 0, max: i64::MAX as i128 });
    assert!(overflow);
    assert_eq!(NumberDataType::Int8.int_bounds(), (-128, 127));
    assert_eq!(NumberDataType::UInt32.int_bounds(), (0, u32::MAX as i128));
}
