use unsafe_fields::UnsafeField;

#[test]
fn read_after_new_gives_value() {
    let w = UnsafeField::new(42u32);
    assert_eq!(*w.get(), 42);
    let s = UnsafeField::new(String::from("abc"));
    assert_eq!(s.get(), "abc");
}

#[test]
fn set_and_get_mut_replace_value() {
    let mut w = UnsafeField::new(vec![1, 2]);
    w.set(vec![3]);
    assert_eq!(*w.get(), vec![3]);
    w.get_mut().push(4);
    assert_eq!(*w.get(), vec![3, 4]);
}

#[test]
fn get_clone_copies_value() {
    let w = UnsafeField::new(String::from("xy"));
    let c = w.get_clone();
    assert_eq!(c, "xy");
    assert_eq!(w.get(), "xy");
}

#[test]
fn wrapper_has_layout_of_value() {
    assert_eq!(std::mem::size_of::<UnsafeField<u64>>(), std::mem::size_of::<u64>());
    assert_eq!(std::mem::align_of::<UnsafeField<u16>>(), std::mem::align_of::<u16>());
    assert_eq!(std::mem::size_of::<UnsafeField<[u8; 3]>>(), 3);
}

#[test]
fn wrapper_address_is_value_address() {
    let w = UnsafeField::new(7u32);
    assert_eq!(format!("{:p}", &w), format!("{:p}", w.get()));
}
