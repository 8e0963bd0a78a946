use interner::{Intern, InternC, InternPool};

#[test]
fn asref_cstr() {
    let mut pool = InternPool::new();
    let i = InternC::new(&mut pool, "cstr");
    let c: Vec<u8> = i.to_bytes_with_nul(&pool);
    assert_eq!(c[c.len() - 1], 0);
    assert_eq!(std::str::from_utf8(&c[..c.len() - 1]).unwrap(), "cstr");
}

#[test]
fn cstr_no_interior_null_in_bytes() {
    let mut pool = InternPool::new();
    let i = InternC::new(&mut pool, "abc");
    let c: Vec<u8> = i.to_bytes_with_nul(&pool);
    assert_eq!(c[c.len() - 1], 0);
    assert_eq!(&c[..c.len() - 1], b"abc");
}

#[test]
fn try_new_interior_null_error() {
    let mut pool = InternPool::new();
    let err = InternC::try_new(&mut pool, "foo\0bar").err().unwrap();
    assert_eq!(err.nul_position(), 3);
}

#[test]
fn try_new_ok() {
    let mut pool = InternPool::new();
    let i = InternC::try_new(&mut pool, "hello").unwrap();
    let c: Vec<u8> = i.to_bytes_with_nul(&pool);
    assert_eq!(c[c.len() - 1], 0);
    assert_eq!(std::str::from_utf8(&c[..c.len() - 1]).unwrap(), "hello");
}

#[test]
fn shares_pool_with_intern() {
    let mut pool = InternPool::new();
    let i = Intern::new(&mut pool, "shared");
    let ic = InternC::new(&mut pool, "shared");
    assert!(i.as_ptr() == ic.as_ptr(), "same string must share one allocation");
}

#[test]
fn intern_c_into_intern() {
    let mut pool = InternPool::new();
    let ic = InternC::new(&mut pool, "hello");
    let i: Intern = ic.into();
    assert_eq!(i.as_str(&pool), "hello");
    assert!(i.as_ptr() == ic.as_ptr());
}

#[test]
fn intern_try_into_intern_c_ok() {
    let mut pool = InternPool::new();
    let i = Intern::new(&mut pool, "hello");
    let ic: InternC = InternC::try_from(&mut pool, i).unwrap();
    assert_eq!(ic.as_str(&pool), "hello");
    assert!(i.as_ptr() == ic.as_ptr());
}

#[test]
fn intern_try_into_intern_c_err() {
    let mut pool = InternPool::new();
    let i = Intern::new(&mut pool, "foo\0bar");
    let result = InternC::try_from(&mut pool, i);
    assert!(result.is_err());
}

#[test]
fn terminator_cached_after_validation() {
    let mut pool = InternPool::new();
    // Valid: marker should be 0x00 after InternC::new
    let ic = InternC::new(&mut pool, "cached_valid");
    assert_eq!(ic.as_intern().terminator(&pool), 0x00);
    // Second try_from should hit the O(1) fast path
    let i = Intern::new(&mut pool, "cached_valid");
    let ic2: InternC = InternC::try_from(&mut pool, i).unwrap();
    assert!(ic.as_ptr() == ic2.as_ptr());
}

#[test]
fn terminator_cached_after_invalid() {
    let mut pool = InternPool::new();
    // Invalid: marker should encode position after try_from
    let i = Intern::new(&mut pool, "ab\0cd"); // null at position 2
    let _ = InternC::try_from(&mut pool, i);
    // position 2 → stored as 3
    assert_eq!(i.terminator(&pool), 3);
    // Second try_from should return Err immediately with correct position
    let err = InternC::try_from(&mut pool, i).err().unwrap();
    assert_eq!(err.nul_position(), 2);
}

#[test]
fn cstr_send_sync() {
    fn assert_send_sync<T: Send + Sync>() {}
    assert_send_sync::<InternC>();
}
