use tag_water::add;

#[test]
fn lib_it_works() {
    let result = add(2, 2);
    assert_eq!(result, 4);
}

#[test]
fn util_it_works() {
    let result = add(2, 2);
    assert_eq!(result, 4);
}

#[test]
fn add_zero_changes_nothing() {
    assert_eq!(add(0, 0), 0);
    assert_eq!(add(17, 0), 17);
    assert_eq!(add(0, usize::MAX), usize::MAX);
}
