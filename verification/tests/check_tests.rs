use interner::{Intern, InternC, InternPool};
use std::cmp::Ordering;

#[test]
fn nul_at_start_and_end() {
    let mut pool = InternPool::new();
    assert_eq!(InternC::try_new(&mut pool, "\0abc").err().unwrap().nul_position(), 0);
    assert_eq!(InternC::try_new(&mut pool, "abc\0").err().unwrap().nul_position(), 3);
}

#[test]
fn nul_position_counts_bytes() {
    let mut pool = InternPool::new();
    // 'é' takes two bytes.
    let err = InternC::try_new(&mut pool, "é\0").err().unwrap();
    assert_eq!(err.nul_position(), 2);
}

#[test]
fn first_of_several_nuls() {
    let mut pool = InternPool::new();
    let err = InternC::try_new(&mut pool, "a\0b\0").err().unwrap();
    assert_eq!(err.nul_position(), 1);
}

#[test]
fn error_message() {
    let mut pool = InternPool::new();
    let err = InternC::try_new(&mut pool, "foo\0bar").err().unwrap();
    assert_eq!(err.message(), "interior null byte at position 3");
    let far = format!("{}\0", "x".repeat(1234));
    let err = InternC::try_new(&mut pool, &far).err().unwrap();
    assert_eq!(err.message(), "interior null byte at position 1234");
}

#[test]
fn far_nul_position_is_not_cached() {
    let mut pool = InternPool::new();
    let s = format!("{}\0", "y".repeat(300));
    let i = Intern::new(&mut pool, &s);
    let err = InternC::try_from(&mut pool, i).err().unwrap();
    assert_eq!(err.nul_position(), 300);
    assert_eq!(i.terminator(&pool), 0xFF);
    let again = InternC::try_from(&mut pool, i).err().unwrap();
    assert_eq!(again, err);
}

#[test]
fn position_253_is_cached_and_254_is_not() {
    let mut pool = InternPool::new();
    let s = format!("{}\0", "z".repeat(253));
    let i = Intern::new(&mut pool, &s);
    assert_eq!(InternC::try_from(&mut pool, i).err().unwrap().nul_position(), 253);
    assert_eq!(i.terminator(&pool), 254);
    let t = format!("{}\0", "z".repeat(254));
    let j = Intern::new(&mut pool, &t);
    assert_eq!(InternC::try_from(&mut pool, j).err().unwrap().nul_position(), 254);
    assert_eq!(j.terminator(&pool), 0xFF);
}

#[test]
fn check_twice_same_answer() {
    let mut pool = InternPool::new();
    let i = Intern::new(&mut pool, "ok");
    let first = InternC::try_from(&mut pool, i);
    let second = InternC::try_from(&mut pool, i);
    assert!(first == second);
    assert_eq!(i.terminator(&pool), 0);
}

#[test]
fn checked_handle_round_trips() {
    let mut pool = InternPool::new();
    let ic = InternC::new(&mut pool, "round");
    let i: Intern = ic.into();
    assert!(InternC::try_from(&mut pool, i) == Ok(ic));
    assert!(ic.as_intern() == i);
}

#[test]
fn bytes_with_nul_end_in_the_only_nul() {
    let mut pool = InternPool::new();
    let ic = InternC::new(&mut pool, "héllo");
    let b = ic.to_bytes_with_nul(&pool);
    assert_eq!(b, "héllo\0".as_bytes());
    assert_eq!(b.iter().position(|&x| x == 0), Some(b.len() - 1));
    let e = InternC::new(&mut pool, "");
    assert_eq!(e.to_bytes_with_nul(&pool), vec![0u8]);
}

#[test]
fn checked_handles_order_and_print() {
    let mut pool = InternPool::new();
    let b = InternC::new(&mut pool, "b");
    let a = InternC::from_static(&mut pool, "a");
    assert_eq!(a.cmp(&b, &pool), Ordering::Less);
    assert_eq!(b.cmp(&a, &pool), Ordering::Greater);
    assert_eq!(a.cmp(&a, &pool), Ordering::Equal);
    assert_eq!(a.display_string(&pool), "a");
    assert_eq!(a.debug_string(&pool), "InternC(\"a\")");
    assert_eq!(a.as_str(&pool), "a");
}

#[test]
fn checked_default() {
    let mut pool = InternPool::new();
    let d = InternC::default(&mut pool);
    assert_eq!(d.as_str(&pool), "default_intern");
    assert!(d.as_intern() == Intern::default(&mut pool));
    assert_eq!(d.as_intern().terminator(&pool), 0);
}
