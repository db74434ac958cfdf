//! Round-trip and rooting tests for the NaN-boxed value representation.

use hissy::{GCWrapper, Value, ValueType};

fn test_int(i: i32) {
    assert_eq!(Value::from_int(i).try_as_int(), Ok(i));
}

#[test]
fn test_ints() {
    test_int(0);
    test_int(1);
    test_int(-1);
    test_int(std::i32::MAX);
    test_int(std::i32::MIN);
}

fn test_real(d: f64) {
    assert_eq!(Value::from_real_bits(d.to_bits()).try_as_real(), Ok(d.to_bits()));
}

#[test]
fn test_reals() {
    test_real(0.0);
    test_real(3.1415926535897934);
    test_real(std::f64::INFINITY);
    test_real(-std::f64::INFINITY);
    match Value::from_real_bits(std::f64::NAN.to_bits()).try_as_real() {
        Ok(bits) if f64::from_bits(bits).is_nan() => (), // NaN != NaN, so we have to test like this
        _ => panic!("std::f64::NAN does not round trip through Value"),
    }
}

#[test]
fn test_bools() {
    assert_eq!(Value::from_bool(true).try_as_bool(), Ok(true));
    assert_eq!(Value::from_bool(false).try_as_bool(), Ok(false));
}

#[test]
fn test_real_bitwise_round_trip() {
    // Signed zero and a subnormal survive bitwise.
    assert_eq!(
        Value::from_real_bits((-0.0f64).to_bits()).try_as_real(),
        Ok((-0.0f64).to_bits())
    );
    assert_ne!((-0.0f64).to_bits(), (0.0f64).to_bits());
    test_real(5e-324);
}

#[test]
fn test_variant_checks() {
    let v = Value::from_int(7);
    assert_eq!(v.get_type(), ValueType::Int);
    assert!(v.try_as_bool().is_err());
    assert!(v.try_as_real().is_err());
    assert!(!v.is_nil());
    assert!(Value::nil().is_nil());
    assert_eq!(Value::nil().get_type(), ValueType::Nil);
    assert_eq!(Value::from_bool(false).get_type(), ValueType::Bool);
    assert_eq!(Value::from_real_bits(2.5f64.to_bits()).get_type(), ValueType::Real);
    assert!(Value::nil().try_as_pointer().is_none());
}

#[test]
fn test_rooting() {
    let mut w = GCWrapper::new();
    assert_eq!(w.root_count, 0);
    // A Root signals the wrapper; a bare Ref does not.
    let root = Value::from_pointer(0x1234, true, &mut w);
    assert_eq!(w.root_count, 1);
    assert_eq!(root.get_type(), ValueType::Root);
    assert_eq!(root.try_as_pointer(), Some(0x1234));
    let bare = Value::from_pointer(0x1234, false, &mut w);
    assert_eq!(w.root_count, 1);
    assert_eq!(bare.get_type(), ValueType::Ref);
    // Copying any heap value yields a fresh Root.
    let copy = bare.copy(&mut w);
    assert_eq!(w.root_count, 2);
    assert_eq!(copy.get_type(), ValueType::Root);
    // Dropping the copy and the original Root un-signals twice.
    copy.drop_value(&mut w);
    root.drop_value(&mut w);
    assert_eq!(w.root_count, 0);
    // Dropping a Ref changes nothing.
    bare.drop_value(&mut w);
    assert_eq!(w.root_count, 0);
}

#[test]
fn test_unroot() {
    let mut w = GCWrapper::new();
    let mut v = Value::from_pointer(42, true, &mut w);
    assert_eq!(w.root_count, 1);
    v.unroot(&mut w);
    assert_eq!(w.root_count, 0);
    assert_eq!(v.get_type(), ValueType::Ref);
    assert_eq!(v.try_as_pointer(), Some(42));
    // Idempotent on non-Root values.
    v.unroot(&mut w);
    assert_eq!(w.root_count, 0);
    let mut i = Value::from_int(-3);
    i.unroot(&mut w);
    assert_eq!(i.try_as_int(), Ok(-3));
}

#[test]
fn test_mark() {
    let mut w = GCWrapper::new();
    let v = Value::from_pointer(99, false, &mut w);
    assert!(!w.marked);
    v.mark(&mut w);
    assert!(w.marked);
    let mut w2 = GCWrapper::new();
    Value::from_int(1).mark(&mut w2);
    assert!(!w2.marked);
}

#[test]
fn test_repr_basic() {
    assert_eq!(Value::nil().repr_basic(), Some(String::from("nil")));
    assert_eq!(Value::from_bool(true).repr_basic(), Some(String::from("true")));
    assert_eq!(Value::from_bool(false).repr_basic(), Some(String::from("false")));
    assert_eq!(Value::from_int(0).repr_basic(), Some(String::from("0")));
    assert_eq!(Value::from_int(42).repr_basic(), Some(String::from("42")));
    assert_eq!(Value::from_int(-7).repr_basic(), Some(String::from("-7")));
    assert_eq!(
        Value::from_int(i32::MAX).repr_basic(),
        Some(String::from("2147483647"))
    );
    assert_eq!(
        Value::from_int(i32::MIN).repr_basic(),
        Some(String::from("-2147483648"))
    );
    // Reals and heap values have no canonical text here.
    assert_eq!(Value::from_real_bits(2.5f64.to_bits()).repr_basic(), None);
    let mut w = GCWrapper::new();
    assert_eq!(Value::from_pointer(0x10, false, &mut w).repr_basic(), None);
}
