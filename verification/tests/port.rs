use rust_to_prolog::port::{BoundedArr, BoundedStr, PortError, Vmap};

#[test]
fn push_then_get() {
    let mut a: BoundedArr<i32, 4> = BoundedArr::new();
    a.push(10).unwrap();
    a.push(20).unwrap();
    assert_eq!(a.get(0), Some(&10));
    assert_eq!(a.get(1), Some(&20));
    assert_eq!(a.get(2), None);
    assert_eq!(a.len(), 2);
    assert_eq!(a.capacity(), 4);
}

#[test]
fn bounded_arr_overflow_at_capacity() {
    let mut a: BoundedArr<u8, 2> = BoundedArr::new();
    a.push(1).unwrap();
    a.push(2).unwrap();
    assert_eq!(a.push(3), Err(PortError::Overflow));
    assert_eq!(a.len(), 2);
}

#[test]
fn empty_array() {
    let a: BoundedArr<i32, 4> = BoundedArr::new();
    assert!(a.is_empty());
    assert_eq!(a.len(), 0);
    assert_eq!(a.get(0), None);
    assert_eq!(a.iter().count(), 0);
}

#[test]
fn get_mut_updates_in_place() {
    let mut a: BoundedArr<i32, 4> = BoundedArr::new();
    a.push(5).unwrap();
    *a.get_mut(0).unwrap() = 7;
    assert_eq!(a.get(0), Some(&7));
    assert!(a.get_mut(1).is_none());
}

#[test]
fn iter_visits_live_slots_only() {
    let mut a: BoundedArr<i32, 4> = BoundedArr::new();
    a.push(1).unwrap();
    a.push(2).unwrap();
    a.push(3).unwrap();
    let sum: i32 = a.iter().sum();
    assert_eq!(sum, 6);
    assert_eq!(a.iter().count(), 3);
}

#[test]
fn bounded_arr_copy_is_independent() {
    let mut a: BoundedArr<u32, 3> = BoundedArr::new();
    a.push(1).unwrap();
    let b = a;
    a.push(2).unwrap();
    assert_eq!(b.len(), 1);
    assert_eq!(a.len(), 2);
}

#[test]
fn roundtrip_basic() {
    let s = BoundedStr::<16>::from_str("hello").unwrap();
    assert_eq!(s.as_str(), "hello");
    assert_eq!(s.len(), 5);
    assert!(!s.is_empty());
}

#[test]
fn empty_defaults() {
    let s: BoundedStr<8> = BoundedStr::new();
    assert!(s.is_empty());
    assert_eq!(s.as_str(), "");
    assert_eq!(s.len(), 0);
    assert_eq!(s, BoundedStr::<8>::default());
}

#[test]
fn overflow_returns_err() {
    let r = BoundedStr::<4>::from_str("hello");
    assert_eq!(r, Err(PortError::Overflow));
}

#[test]
fn exact_fit_at_capacity() {
    let s = BoundedStr::<5>::from_str("hello").unwrap();
    assert_eq!(s.as_str(), "hello");
    assert_eq!(s.len(), 5);
}

#[test]
fn equality_by_content() {
    let a = BoundedStr::<16>::from_str("x").unwrap();
    let b = BoundedStr::<16>::from_str("x").unwrap();
    let c = BoundedStr::<16>::from_str("y").unwrap();
    assert_eq!(a, b);
    assert_ne!(a, c);
}

#[test]
fn value_is_copy() {
    let s = BoundedStr::<4>::from_str("ab").unwrap();
    let t = s;
    let u = s;
    assert_eq!(t.as_str(), "ab");
    assert_eq!(u.as_str(), "ab");
}

#[test]
fn bounded_str_multibyte_text_roundtrips() {
    let s = BoundedStr::<8>::from_str("é€").unwrap();
    assert_eq!(s.as_str(), "é€");
    assert_eq!(s.len(), 5);
    assert_eq!(s.byte_at(0), 0xC3);
}

#[test]
fn bounded_str_from_bytes_takes_a_range() {
    let s = BoundedStr::<8>::from_bytes(b"xxhiyy", 2, 4).unwrap();
    assert_eq!(s.as_str(), "hi");
}

#[test]
fn insert_then_get() {
    let mut m: Vmap<8> = Vmap::new();
    m.insert("a", 1).unwrap();
    m.insert("b", 2).unwrap();
    assert_eq!(m.get("a"), Some(1));
    assert_eq!(m.get("b"), Some(2));
    assert_eq!(m.get("c"), None);
    assert_eq!(m.len(), 2);
}

#[test]
fn insert_overwrites_existing_key() {
    let mut m: Vmap<4> = Vmap::new();
    m.insert("x", 1).unwrap();
    m.insert("x", 99).unwrap();
    assert_eq!(m.get("x"), Some(99));
    assert_eq!(m.len(), 1);
}

#[test]
fn vmap_overflow_at_capacity() {
    let mut m: Vmap<2> = Vmap::new();
    m.insert("a", 1).unwrap();
    m.insert("b", 2).unwrap();
    assert_eq!(m.insert("c", 3), Err(PortError::Overflow));
}

#[test]
fn key_too_long_overflows() {
    let mut m: Vmap<4> = Vmap::new();
    let long = "0123456789abcdefg";
    assert_eq!(long.len(), 17);
    assert_eq!(m.insert(long, 1), Err(PortError::Overflow));
}

#[test]
fn empty_map() {
    let m: Vmap<4> = Vmap::new();
    assert!(m.is_empty());
    assert_eq!(m.get("anything"), None);
    assert_eq!(m.iter().count(), 0);
}

#[test]
fn iter_visits_all_entries() {
    let mut m: Vmap<4> = Vmap::new();
    m.insert("a", 10).unwrap();
    m.insert("b", 20).unwrap();
    let total: i32 = m.iter().map(|(_, v)| v).sum();
    assert_eq!(total, 30);
}

#[test]
fn vmap_full_map_still_overwrites() {
    let mut m: Vmap<2> = Vmap::new();
    m.insert("a", 1).unwrap();
    m.insert("b", 2).unwrap();
    m.insert("a", 5).unwrap();
    assert_eq!(m.get("a"), Some(5));
    assert_eq!(m.len(), 2);
}
