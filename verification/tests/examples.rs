use distributed_system_challenges::animals::{name, name2, Animal, Cat, Dog};
use distributed_system_challenges::ownership::{add, printer};

#[test]
fn add_sums_its_arguments() {
    assert_eq!(add(1, 2), 3);
    assert_eq!(add(-5, 2), -3);
    assert_eq!(add(i32::MAX, 0), i32::MAX);
}

#[test]
fn printer_always_answers_three() {
    assert_eq!(printer(String::from("Hello")), "3");
    assert_eq!(printer(String::new()), "3");
}

#[test]
fn dogs_and_cats_name_their_young() {
    assert_eq!(Dog.baby_name(), "Spot");
    assert_eq!(Cat.baby_name(), "Kitten");
    assert_eq!(name(&Dog), "Spot");
    assert_eq!(name2(&Cat), "Kitten");
    assert_eq!(name2(&Dog), "Spot");
}

struct Cow;

impl Animal for Cow {}

#[test]
fn the_default_name_is_baby() {
    assert_eq!(Cow.baby_name(), "baby");
    assert_eq!(name(&Cow), "baby");
    assert_eq!(name2(&Cow), "baby");
}
