use odra::collections::{RefList, RefMap};
use odra::number::{exact_integer_in, pattern_of_integer};
use odra::value::{AsOdraType, AsOdraValue, Float64Bits, FromOdraValue, OdraRef, OdraType, OdraValue};
use odra::vm::OdraError;
use std::collections::hash_map::DefaultHasher;
use std::hash::{Hash, Hasher};

fn num(x: f64) -> OdraValue {
    OdraValue::Number(x.to_bits())
}

fn hash_of(r: &OdraRef) -> u64 {
    let mut h = DefaultHasher::new();
    r.hash(&mut h);
    h.finish()
}

#[test]
fn integers_widen_like_casts() {
    let samples: Vec<i64> = vec![0, 1, -1, 2, 3, 255, -128, 1 << 40, -(1 << 52), i64::MAX, i64::MIN, 9_007_199_254_740_993];
    for i in samples {
        assert_eq!(i.as_odra_value(), num(i as f64), "i64 {}", i);
    }
    let unsigned: Vec<u64> = vec![0, 7, u64::MAX, (1 << 53) + 1, (1 << 53) + 3, (1 << 60) + (1 << 7), 12_345_678_901_234_567_890];
    for u in unsigned {
        assert_eq!(u.as_odra_value(), num(u as f64), "u64 {}", u);
    }
    assert_eq!(200u8.as_odra_value(), num(200.0));
    assert_eq!((-5i8).as_odra_value(), num(-5.0));
    assert_eq!(65535u16.as_odra_value(), num(65535.0));
    assert_eq!(i16::MIN.as_odra_value(), num(-32768.0));
    assert_eq!(u32::MAX.as_odra_value(), num(4294967295.0));
    assert_eq!(i32::MIN.as_odra_value(), num(-2147483648.0));
}

#[test]
fn integer_round_trip() {
    for x in [0u8, 1, 127, 255] {
        assert_eq!(u8::from_odra_value(x.as_odra_value()), Ok(x));
    }
    for x in [i8::MIN, -1, 0, i8::MAX] {
        assert_eq!(i8::from_odra_value(x.as_odra_value()), Ok(x));
    }
    for x in [0u16, 300, u16::MAX] {
        assert_eq!(u16::from_odra_value(x.as_odra_value()), Ok(x));
    }
    for x in [i16::MIN, -300, i16::MAX] {
        assert_eq!(i16::from_odra_value(x.as_odra_value()), Ok(x));
    }
    for x in [0u32, 70000, u32::MAX] {
        assert_eq!(u32::from_odra_value(x.as_odra_value()), Ok(x));
    }
    for x in [i32::MIN, -70000, i32::MAX] {
        assert_eq!(i32::from_odra_value(x.as_odra_value()), Ok(x));
    }
    for x in [0u64, 1 << 40, 1 << 53] {
        assert_eq!(u64::from_odra_value(x.as_odra_value()), Ok(x));
    }
    for x in [-(1i64 << 53), -3, 1 << 53] {
        assert_eq!(i64::from_odra_value(x.as_odra_value()), Ok(x));
    }
}

#[test]
fn fractions_do_not_narrow() {
    for x in [0.5f64, -1.25, 2.000001, 1e-300] {
        assert_eq!(u8::from_odra_value(num(x)), Err(OdraError::Conversion));
        assert_eq!(i8::from_odra_value(num(x)), Err(OdraError::Conversion));
        assert_eq!(u16::from_odra_value(num(x)), Err(OdraError::Conversion));
        assert_eq!(i16::from_odra_value(num(x)), Err(OdraError::Conversion));
        assert_eq!(u32::from_odra_value(num(x)), Err(OdraError::Conversion));
        assert_eq!(i32::from_odra_value(num(x)), Err(OdraError::Conversion));
        assert_eq!(u64::from_odra_value(num(x)), Err(OdraError::Conversion));
        assert_eq!(i64::from_odra_value(num(x)), Err(OdraError::Conversion));
    }
}

#[test]
fn out_of_range_and_special_numbers_do_not_narrow() {
    assert_eq!(u8::from_odra_value(num(256.0)), Err(OdraError::Conversion));
    assert_eq!(u8::from_odra_value(num(-1.0)), Err(OdraError::Conversion));
    assert_eq!(i8::from_odra_value(num(-129.0)), Err(OdraError::Conversion));
    assert_eq!(u64::from_odra_value(num(18446744073709551616.0)), Err(OdraError::Conversion));
    assert_eq!(i64::from_odra_value(num(9223372036854775808.0)), Err(OdraError::Conversion));
    assert_eq!(i64::from_odra_value(num(-9223372036854775808.0)), Ok(i64::MIN));
    assert_eq!(u64::from_odra_value(num(18446744073709549568.0)), Ok(18446744073709549568));
    assert_eq!(i32::from_odra_value(num(f64::NAN)), Err(OdraError::Conversion));
    assert_eq!(i32::from_odra_value(num(f64::INFINITY)), Err(OdraError::Conversion));
    assert_eq!(i32::from_odra_value(num(f64::NEG_INFINITY)), Err(OdraError::Conversion));
    assert_eq!(u8::from_odra_value(num(-0.0)), Ok(0));
    assert_eq!(i32::from_odra_value(OdraValue::String("3".to_string())), Err(OdraError::Conversion));
}

#[test]
fn exact_integers_from_patterns() {
    assert_eq!(exact_integer_in(1e15f64.to_bits(), -(1i128 << 60), 1i128 << 60), Some(1_000_000_000_000_000));
    assert_eq!(exact_integer_in((-42.0f64).to_bits(), -100, 100), Some(-42));
    assert_eq!(exact_integer_in(42.5f64.to_bits(), -100, 100), None);
    assert_eq!(exact_integer_in(4.0e-320f64.to_bits(), -100, 100), None);
    assert_eq!(exact_integer_in(0.0f64.to_bits(), -100, 100), Some(0));
    assert_eq!(pattern_of_integer(true, 0), 0);
    assert_eq!(pattern_of_integer(true, 10), (-10.0f64).to_bits());
    assert_eq!(pattern_of_integer(false, u64::MAX), (u64::MAX as f64).to_bits());
}

#[test]
fn float_bits_and_strings_convert() {
    let v = Float64Bits { bits: 2.5f64.to_bits() }.as_odra_value();
    assert_eq!(v, num(2.5));
    assert_eq!(Float64Bits::from_odra_value(num(-7.75)), Ok(Float64Bits { bits: (-7.75f64).to_bits() }));
    assert_eq!(Float64Bits::from_odra_value(OdraValue::String("x".to_string())), Err(OdraError::Conversion));
    assert_eq!(String::from_odra_value(OdraValue::String("abc".to_string())), Ok("abc".to_string()));
    assert_eq!(String::from_odra_value(num(1.0)), Err(OdraError::Conversion));
    assert_eq!("q".to_string().as_odra_value(), OdraValue::String("q".to_string()));
}

#[test]
fn type_tags() {
    assert_eq!(u8::odra_type(), Some(OdraType::Number));
    assert_eq!(i64::odra_type(), Some(OdraType::Number));
    assert_eq!(Float64Bits::odra_type(), Some(OdraType::Number));
    assert_eq!(String::odra_type(), Some(OdraType::String));
}

#[test]
fn scalar_refs_compare_by_content() {
    let a = OdraRef::new(num(1.5));
    let b = OdraRef::new(num(1.5));
    let c = OdraRef::new(num(2.5));
    assert!(a == b);
    assert!(a != c);
    let s = OdraRef::new(OdraValue::String("hi".to_string()));
    let t = OdraRef::new(OdraValue::String("hi".to_string()));
    let u = OdraRef::new(OdraValue::String("ho".to_string()));
    assert!(s == t);
    assert!(s != u);
    assert!(a != s);
    assert!(!a.same_allocation(&b));
}

#[test]
fn aggregate_refs_compare_by_allocation() {
    let l1 = OdraRef::new(OdraValue::List(RefList::new()));
    let l2 = OdraRef::new(OdraValue::List(RefList::new()));
    assert!(l1 != l2);
    let l1_again = l1.clone();
    assert!(l1 == l1_again);
    assert!(l1.same_allocation(&l1_again));
    let m1 = OdraRef::new(OdraValue::Mapping(RefMap::new()));
    let m2 = OdraRef::new(OdraValue::Mapping(RefMap::new()));
    assert!(m1 != m2);
    assert!(m1 == m1.clone());
    assert!(l1 != m1);
}

#[test]
fn equal_refs_hash_alike() {
    let a = OdraRef::new(num(4.0));
    let b = OdraRef::new(num(4.0));
    assert_eq!(hash_of(&a), hash_of(&b));
    let s = OdraRef::new(OdraValue::String("k".to_string()));
    let t = OdraRef::new(OdraValue::String("k".to_string()));
    assert_eq!(hash_of(&s), hash_of(&t));
    let l = OdraRef::new(OdraValue::List(RefList::new()));
    assert_eq!(hash_of(&l), hash_of(&l.clone()));
}

#[test]
fn push_leaves_earlier_list() {
    let base = RefList::new();
    let one = base.push(OdraRef::new(num(1.0)));
    let two = one.push(OdraRef::new(num(2.0)));
    let other = one.push(OdraRef::new(num(3.0)));
    assert_eq!(base.len(), 0);
    assert_eq!(one.len(), 1);
    assert_eq!(two.len(), 2);
    assert_eq!(other.len(), 2);
    assert_eq!(one.to_vec()[0].get(), &num(1.0));
    assert_eq!(two.to_vec()[1].get(), &num(2.0));
    assert_eq!(other.to_vec()[1].get(), &num(3.0));
    assert_eq!(one.clone().len(), 1);
}

#[test]
fn map_update_and_get() {
    let empty = RefMap::new();
    let k = OdraRef::new(OdraValue::String("key".to_string()));
    let m = empty.update(k.clone(), OdraRef::new(num(1.0)));
    let same_key = OdraRef::new(OdraValue::String("key".to_string()));
    assert_eq!(m.get(&same_key).unwrap().get(), &num(1.0));
    assert!(empty.get(&k).is_none());
    assert_eq!(empty.len(), 0);
    let m2 = m.update(same_key, OdraRef::new(num(2.0)));
    assert_eq!(m2.len(), 1);
    assert_eq!(m2.get(&k).unwrap().get(), &num(2.0));
    assert_eq!(m.get(&k).unwrap().get(), &num(1.0));
    let list_key = OdraRef::new(OdraValue::List(RefList::new()));
    let m3 = m2.update(list_key.clone(), OdraRef::new(num(3.0)));
    assert_eq!(m3.len(), 2);
    assert!(m3.get(&OdraRef::new(OdraValue::List(RefList::new()))).is_none());
    assert_eq!(m3.get(&list_key).unwrap().get(), &num(3.0));
    assert_eq!(m3.clone().len(), 2);
}

#[test]
fn edges_of_values() {
    assert!(num(1.0).edges().is_empty());
    assert!(OdraValue::String("s".to_string()).edges().is_empty());
    let a = OdraRef::new(num(1.0));
    let b = OdraRef::new(num(2.0));
    let list = RefList::new().push(a.clone()).push(b.clone());
    let e = OdraValue::List(list).edges();
    assert_eq!(e.len(), 2);
    assert!(e[0] == a && e[1] == b);
    let m = RefMap::new().update(a.clone(), b.clone());
    let e = OdraValue::Mapping(m.clone()).edges();
    assert_eq!(e.len(), 2);
    assert!(e[0] == a && e[1] == b);
    let entries = m.entries();
    assert_eq!(entries.len(), 1);
    assert!(entries[0].0 == a && entries[0].1 == b);
}

#[test]
fn hash_keys_follow_identity() {
    let a = OdraRef::new(num(1.0));
    let b = OdraRef::new(num(1.0));
    let mut h1 = DefaultHasher::new();
    a.hash_key().hash(&mut h1);
    let mut h2 = DefaultHasher::new();
    b.hash_key().hash(&mut h2);
    assert_eq!(h1.finish(), h2.finish());
    assert!(a.ref_eq(&b));
}

#[test]
fn signed_zeros_are_equal_refs_and_hash_alike() {
    let pos = OdraRef::new(num(0.0));
    let neg = OdraRef::new(num(-0.0));
    assert!(pos == neg);
    assert_eq!(hash_of(&pos), hash_of(&neg));
    assert!(pos != OdraRef::new(num(1.0)));
}

#[test]
fn nan_refs_equal_only_their_own_allocation() {
    let a = OdraRef::new(num(f64::NAN));
    let b = OdraRef::new(num(f64::NAN));
    assert!(a != b);
    let a_again = a.clone();
    assert!(a == a_again);
    assert_eq!(hash_of(&a), hash_of(&a_again));
    assert!(a != OdraRef::new(num(1.0)));
}

#[test]
fn signed_zero_keys_share_a_map_entry() {
    let m = RefMap::new().update(OdraRef::new(num(0.0)), OdraRef::new(num(5.0)));
    let m2 = m.update(OdraRef::new(num(-0.0)), OdraRef::new(num(6.0)));
    assert_eq!(m2.len(), 1);
    assert_eq!(m2.get(&OdraRef::new(num(0.0))).unwrap().get(), &num(6.0));
}
