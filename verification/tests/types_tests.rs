use layeredfs::types::heap_ptr;

#[test]
fn heap_ptr_holds_value() {
    let p = heap_ptr(41i32 + 1);
    assert_eq!(**p, 42);
    let q = p.clone();
    assert_eq!(**q, 42);
}
