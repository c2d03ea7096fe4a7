use toolbox::largest::{largest, largest_stream};

/// A non-copyable type with a derived ordering.
#[derive(Debug, PartialEq, PartialOrd)]
enum Food {
    Apple,
    Carrot,
    Potato,
}

#[test]
fn test_largest() {
    let values = [1, 2, 3, 4, 5];
    assert_eq!(largest(&values), &5);

    let values = [-2, 1, 3, 4, 5];
    assert_eq!(largest(&values), &5);

    let values = [1.1, 5.5, 3.3, 4.4];
    assert_eq!(largest(&values), &5.5);

    let values = ['d', 'a', 'b', 'c'];
    assert_eq!(largest(&values), &'d');

    let values = [Food::Carrot, Food::Potato, Food::Apple];
    assert_eq!(largest(&values), &Food::Potato);
}

#[test]
fn test_largest_stream() {
    let values = [1, 2, 3, 4, 5];
    assert_eq!(largest_stream(&values), &5);

    let values = [-2, 1, 3, 4, 5];
    assert_eq!(largest_stream(&values), &5);

    let values = [1.1, 5.5, 3.3, 4.4];
    assert_eq!(largest_stream(&values), &5.5);

    let values = ['d', 'a', 'b', 'c'];
    assert_eq!(largest_stream(&values), &'d');

    let values = [Food::Carrot, Food::Potato, Food::Apple];
    assert_eq!(largest_stream(&values), &Food::Potato);
}

#[test]
fn single_element_is_largest() {
    let values = [7];
    assert_eq!(largest(&values), &7);
    assert_eq!(largest_stream(&values), &7);
}
