use wu_clib::errno::{Reent, ENOMEM};
use wu_clib::heap::{Heap, HEADER_SIZE, NULL};

#[test]
fn malloc_records_total_length_in_header() {
    let mut h = Heap::new(1024);
    let mut re = Reent::new();
    let p = h.malloc_r(&mut re, 16);
    assert_ne!(p, NULL);
    assert_eq!(h.header(p), Some(16 + HEADER_SIZE));
    assert_eq!(h.used(), 24);
    assert_eq!(h.read_byte(p, 15), Some(0));
    assert_eq!(h.read_byte(p, 16), None);
    assert_eq!(re.errno, 0);
}

#[test]
fn malloc_then_free_leaves_other_regions_alone() {
    let mut h = Heap::new(1024);
    let mut re = Reent::new();
    let a = h.malloc_r(&mut re, 4);
    for i in 0..4 {
        assert!(h.write_byte(a, i, 0xA0 + i as u8));
    }
    let used = h.used();
    let b = h.malloc_r(&mut re, 32);
    assert_ne!(b, NULL);
    h.free_r(b);
    assert_eq!(h.used(), used);
    assert_eq!(h.header(b), None);
    for i in 0..4 {
        assert_eq!(h.read_byte(a, i), Some(0xA0 + i as u8));
    }
    assert_eq!(h.header(a), Some(4 + HEADER_SIZE));
    let c = h.malloc_r(&mut re, 32);
    assert_ne!(c, NULL);
    assert_ne!(c, b);
    assert_eq!(h.read_byte(c, 0), Some(0));
    assert_eq!(re.errno, 0);
}

#[test]
fn malloc_beyond_budget_reports_out_of_memory() {
    let mut h = Heap::new(20);
    let mut re = Reent::new();
    assert_eq!(h.malloc_r(&mut re, 13), NULL);
    assert_eq!(re.errno, ENOMEM);
    assert_eq!(h.used(), 0);
    let mut re = Reent::new();
    let p = h.malloc_r(&mut re, 12);
    assert_ne!(p, NULL);
    assert_eq!(h.used(), 20);
    assert_eq!(h.malloc_r(&mut re, 0), NULL);
    assert_eq!(re.errno, ENOMEM);
}

#[test]
fn malloc_of_huge_length_does_not_overflow() {
    let mut h = Heap::new(usize::MAX);
    let mut re = Reent::new();
    assert_eq!(h.malloc_r(&mut re, usize::MAX - 3), NULL);
    assert_eq!(re.errno, ENOMEM);
}

#[test]
fn realloc_grows_keeping_content_and_rewriting_header() {
    let mut h = Heap::new(1024);
    let mut re = Reent::new();
    let p = h.malloc_r(&mut re, 3);
    for (i, b) in [1u8, 2, 3].iter().enumerate() {
        assert!(h.write_byte(p, i, *b));
    }
    let q = h.realloc_r(&mut re, p, 10);
    assert_ne!(q, NULL);
    assert_eq!(h.header(q), Some(10 + HEADER_SIZE));
    assert_eq!(h.used(), 18);
    for (i, b) in [1u8, 2, 3].iter().enumerate() {
        assert_eq!(h.read_byte(q, i), Some(*b));
    }
    assert_eq!(h.read_byte(q, 9), Some(0));
    assert_eq!(h.read_byte(q, 10), None);
}

#[test]
fn realloc_shrinks_keeping_prefix() {
    let mut h = Heap::new(1024);
    let mut re = Reent::new();
    let p = h.malloc_r(&mut re, 6);
    for i in 0..6 {
        assert!(h.write_byte(p, i, 10 + i as u8));
    }
    let q = h.realloc_r(&mut re, p, 2);
    assert_eq!(h.header(q), Some(2 + HEADER_SIZE));
    assert_eq!(h.read_byte(q, 0), Some(10));
    assert_eq!(h.read_byte(q, 1), Some(11));
    assert_eq!(h.read_byte(q, 2), None);
    assert_eq!(h.used(), 10);
}

#[test]
fn realloc_of_null_allocates() {
    let mut h = Heap::new(1024);
    let mut re = Reent::new();
    let p = h.realloc_r(&mut re, NULL, 5);
    assert_ne!(p, NULL);
    assert_eq!(h.header(p), Some(5 + HEADER_SIZE));
}

#[test]
fn realloc_beyond_budget_keeps_old_region() {
    let mut h = Heap::new(30);
    let mut re = Reent::new();
    let p = h.malloc_r(&mut re, 4);
    assert!(h.write_byte(p, 0, 9));
    assert_eq!(h.realloc_r(&mut re, p, 23), NULL);
    assert_eq!(re.errno, ENOMEM);
    assert_eq!(h.header(p), Some(4 + HEADER_SIZE));
    assert_eq!(h.read_byte(p, 0), Some(9));
    assert_eq!(h.used(), 12);
    let mut re = Reent::new();
    assert_eq!(h.realloc_r(&mut re, p, 22), p);
    assert_eq!(h.used(), 30);
}

#[test]
fn calloc_overflow_reports_out_of_memory() {
    let mut h = Heap::new(usize::MAX);
    let mut re = Reent::new();
    assert_eq!(h.calloc_r(&mut re, usize::MAX, 2), NULL);
    assert_eq!(re.errno, ENOMEM);
    assert_eq!(h.used(), 0);
    let p = h.malloc_r(&mut Reent::new(), 1);
    assert_eq!(p, 1);
}

#[test]
fn calloc_three_by_four_is_twelve_zero_bytes() {
    let mut h = Heap::new(1024);
    let mut re = Reent::new();
    let p = h.calloc_r(&mut re, 3, 4);
    assert_ne!(p, NULL);
    assert_eq!(h.header(p), Some(12 + HEADER_SIZE));
    for i in 0..12 {
        assert_eq!(h.read_byte(p, i), Some(0));
    }
    assert_eq!(h.read_byte(p, 12), None);
}

#[test]
fn free_of_null_changes_nothing() {
    let mut h = Heap::new(1024);
    let mut re = Reent::new();
    let p = h.malloc_r(&mut re, 8);
    h.free_r(NULL);
    assert_eq!(h.used(), 16);
    assert_eq!(h.header(p), Some(16));
    assert_eq!(h.limit(), 1024);
}

#[test]
fn writes_outside_a_payload_are_refused() {
    let mut h = Heap::new(1024);
    let mut re = Reent::new();
    let p = h.malloc_r(&mut re, 2);
    assert!(!h.write_byte(p, 2, 1));
    assert!(!h.write_byte(NULL, 0, 1));
    assert!(!h.write_byte(p + 1, 0, 1));
    assert_eq!(h.header(p), Some(2 + HEADER_SIZE));
    h.free_r(p);
    assert!(!h.write_byte(p, 0, 1));
    assert_eq!(h.read_byte(p, 0), None);
}
