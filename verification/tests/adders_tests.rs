use toolbox::add_two;

#[test]
fn add_two_test() {
    assert_eq!(4, add_two(2));
}

#[test]
fn it_works() {
    assert_eq!(4, add_two(2));
}

#[test]
fn add_two_handles_negatives() {
    assert_eq!(0, add_two(-2));
    assert_eq!(i32::MAX, add_two(i32::MAX - 2));
}
