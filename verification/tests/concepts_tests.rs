use toolbox::carol::song;
use toolbox::fib;

fn first_twenty(function: fn(u32) -> u32) {
    let expected: Vec<u32> = vec![
        0, 1, 1, 2, 3, 5, 8, 13, 21, 34, 55, 89, 144, 233, 377, 610, 987, 1597, 2584, 4181,
    ];
    for (i, &value) in expected.iter().enumerate() {
        assert_eq!(function(i as u32), value);
    }
}

#[test]
fn test_recursive() {
    first_twenty(fib::recursive);
}

#[test]
fn test_iterative() {
    first_twenty(fib::iterative);
}

#[test]
fn test_iterative_storing() {
    first_twenty(fib::iterative_storing);
}

#[test]
fn test_stream() {
    first_twenty(fib::stream);
}

#[test]
fn test_song() {
    let lyrics = "\
On the first day of Christmas, my true love sent to me
A partridge in a pear tree.

On the second day of Christmas, my true love sent to me
Two turtle doves, and
A partridge in a pear tree.

On the third day of Christmas, my true love sent to me
Three french hens
Two turtle doves, and
A partridge in a pear tree.

On the fourth day of Christmas, my true love sent to me
Four calling birds
Three french hens
Two turtle doves, and
A partridge in a pear tree.

On the fifth day of Christmas, my true love sent to me
Five golden rings
Four calling birds
Three french hens
Two turtle doves, and
A partridge in a pear tree.

On the sixth day of Christmas, my true love sent to me
Six geese a-laying
Five golden rings
Four calling birds
Three french hens
Two turtle doves, and
A partridge in a pear tree.

On the seventh day of Christmas, my true love sent to me
Seven swans a-swimming
Six geese a-laying
Five golden rings
Four calling birds
Three french hens
Two turtle doves, and
A partridge in a pear tree.

On the eighth day of Christmas, my true love sent to me
Eight maids a-milking
Seven swans a-swimming
Six geese a-laying
Five golden rings
Four calling birds
Three french hens
Two turtle doves, and
A partridge in a pear tree.

On the ninth day of Christmas, my true love sent to me
Nine ladies dancing
Eight maids a-milking
Seven swans a-swimming
Six geese a-laying
Five golden rings
Four calling birds
Three french hens
Two turtle doves, and
A partridge in a pear tree.

On the tenth day of Christmas, my true love sent to me
Ten lords a-leaping
Nine ladies dancing
Eight maids a-milking
Seven swans a-swimming
Six geese a-laying
Five golden rings
Four calling birds
Three french hens
Two turtle doves, and
A partridge in a pear tree.

On the eleventh day of Christmas, my true love sent to me
Eleven pipers piping
Ten lords a-leaping
Nine ladies dancing
Eight maids a-milking
Seven swans a-swimming
Six geese a-laying
Five golden rings
Four calling birds
Three french hens
Two turtle doves, and
A partridge in a pear tree.

On the twelfth day of Christmas, my true love sent to me
Twelve drummers drumming
Eleven pipers piping
Ten lords a-leaping
Nine ladies dancing
Eight maids a-milking
Seven swans a-swimming
Six geese a-laying
Five golden rings
Four calling birds
Three french hens
Two turtle doves, and
A partridge in a pear tree."
        .to_string();
    assert_eq!(lyrics, song());
}
