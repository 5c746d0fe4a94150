use dbus_codec::align::align;

#[test]
fn alignment() {
    assert_eq!(align(23usize, 4usize), 24usize);
    assert_eq!(align(32usize, 4usize), 32usize);
    assert_eq!(align(31usize, 1usize), 31usize);
    assert_eq!(align(0usize, 1usize), 0usize);
    assert_eq!(align(25usize, 4usize), 28usize);
}
