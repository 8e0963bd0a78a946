use interner::{Intern, InternC, InternPool};
use std::cmp::Ordering;

#[test]
fn interning_again_leaves_pool_unchanged() {
    let mut pool = InternPool::new();
    let a = Intern::new(&mut pool, "one");
    let _ = Intern::new(&mut pool, "two");
    assert_eq!(pool.len(), 2);
    let again = Intern::new(&mut pool, "one");
    assert_eq!(pool.len(), 2);
    assert!(a == again);
    assert_eq!(a.as_ptr(), 1);
}

#[test]
fn earlier_slots_keep_their_content() {
    let mut pool = InternPool::new();
    let a = Intern::new(&mut pool, "first");
    for k in 0..50 {
        let _ = Intern::new(&mut pool, &format!("s{}", k));
    }
    assert_eq!(a.as_str(&pool), "first");
    assert_eq!(pool.len(), 51);
}

#[test]
fn lookup_finds_only_interned_contents() {
    let mut pool = InternPool::new();
    assert!(Intern::lookup(&pool, "x").is_none());
    let x = Intern::new(&mut pool, "x");
    assert!(Intern::lookup(&pool, "x") == Some(x));
    assert!(Intern::lookup(&pool, "y").is_none());
    assert_eq!(pool.len(), 1);
}

#[test]
fn find_gives_slot() {
    let mut pool = InternPool::new();
    let _ = Intern::new(&mut pool, "a");
    let b = Intern::new(&mut pool, "b");
    assert_eq!(pool.find("b"), Some(b.as_ptr() - 1));
    assert_eq!(pool.text(1), "b");
}

#[test]
fn order_is_antisymmetric_and_transitive() {
    let mut pool = InternPool::new();
    let a = Intern::new(&mut pool, "a");
    let ab = Intern::new(&mut pool, "ab");
    let b = Intern::new(&mut pool, "b");
    assert_eq!(a.cmp(&ab, &pool), Ordering::Less);
    assert_eq!(ab.cmp(&a, &pool), Ordering::Greater);
    assert_eq!(ab.cmp(&b, &pool), Ordering::Less);
    assert_eq!(a.cmp(&b, &pool), Ordering::Less);
}

#[test]
fn order_is_by_bytes_not_by_slot() {
    let mut pool = InternPool::new();
    let z = Intern::new(&mut pool, "zeta");
    let e = Intern::new(&mut pool, "épée");
    let a = Intern::new(&mut pool, "alpha");
    assert_eq!(a.cmp(&z, &pool), Ordering::Less);
    // 'é' is encoded with bytes above every ASCII byte.
    assert_eq!(z.cmp(&e, &pool), Ordering::Less);
    assert_eq!("zeta".cmp("épée"), Ordering::Less);
}

#[test]
fn empty_content_comes_first() {
    let mut pool = InternPool::new();
    let x = Intern::new(&mut pool, "x");
    let empty = Intern::new(&mut pool, "");
    assert_eq!(empty.cmp(&x, &pool), Ordering::Less);
    assert_eq!(x.cmp(&empty, &pool), Ordering::Greater);
}

#[test]
fn debug_escapes_content() {
    let mut pool = InternPool::new();
    let i = Intern::new(&mut pool, "a\"b\\c\n");
    assert_eq!(i.debug_string(&pool), format!("Intern({:?})", "a\"b\\c\n"));
    assert_eq!(i.debug_string(&pool), "Intern(\"a\\\"b\\\\c\\n\")");
}

#[test]
fn display_of_unicode() {
    let mut pool = InternPool::new();
    let i = Intern::new(&mut pool, "héllo wörld 🦀");
    assert_eq!(i.display_string(&pool), "héllo wörld 🦀");
}

#[test]
fn default_is_interned_once() {
    let mut pool = InternPool::new();
    let a = Intern::default(&mut pool);
    let b = Intern::from_static(&mut pool, "default_intern");
    assert!(a == b);
    assert_eq!(pool.len(), 1);
}

#[test]
fn fresh_slot_is_unchecked() {
    let mut pool = InternPool::new();
    let i = Intern::new(&mut pool, "fresh");
    assert_eq!(i.terminator(&pool), 0xFF);
    assert_eq!(pool.marker(0), 0xFF);
}

#[test]
fn interned_regardless_of_nul() {
    let mut pool = InternPool::new();
    let r = InternC::try_new(&mut pool, "x\0y");
    assert!(r.is_err());
    assert_eq!(pool.len(), 1);
    let i = Intern::new(&mut pool, "x\0y");
    assert_eq!(i.as_str(&pool), "x\0y");
    assert_eq!(pool.len(), 1);
}

#[test]
fn conversions_land_on_one_slot() {
    let mut pool = InternPool::new();
    let a = Intern::new(&mut pool, "text");
    let b = Intern::from_string(&mut pool, String::from("text"));
    let c = Intern::from_box_str(&mut pool, Box::<str>::from("text"));
    assert_eq!(a.as_ptr(), b.as_ptr());
    assert_eq!(a.as_ptr(), c.as_ptr());
    assert_eq!(c.as_str(&pool), "text");
    assert_eq!(pool.len(), 1);
}

#[test]
fn try_new_caches_verdict() {
    let mut pool = InternPool::new();
    let _ = InternC::try_new(&mut pool, "q\0r");
    let i = Intern::new(&mut pool, "q\0r");
    assert_eq!(i.terminator(&pool), 2);
    let _ = InternC::try_new(&mut pool, "clean");
    let j = Intern::new(&mut pool, "clean");
    assert_eq!(j.terminator(&pool), 0);
    assert_eq!(i.terminator(&pool), 2);
}

#[test]
fn wrap_tuple_on_given_values() {
    assert_eq!(interner::text::wrap_tuple("Intern", "\"x\""), "Intern(\"x\")");
    assert_eq!(interner::text::wrap_tuple("", ""), "()");
}

#[test]
fn as_ptr_is_never_zero() {
    let mut pool = InternPool::new();
    let a = Intern::new(&mut pool, "");
    let c = InternC::new(&mut pool, "");
    assert!(a.as_ptr() != 0);
    assert_eq!(a.as_ptr(), c.as_ptr());
}
