use scanmem::{extra_greet, greet};

#[test]
fn lib_greet_works() {
    assert_eq!(greet("world"), "Hello, world!");
}

#[test]
fn extra_greet_works() {
    assert_eq!(extra_greet("world"), "Hello again, world!");
}

#[test]
fn tests_greet_works() {
    assert_eq!(greet("world"), "Hello, world!");
}

#[test]
fn greet_keeps_an_empty_name() {
    assert_eq!(greet(""), "Hello, !");
    assert_eq!(extra_greet(""), "Hello again, !");
}
