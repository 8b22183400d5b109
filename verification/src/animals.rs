use vstd::prelude::*;

verus! {

/// Animals that can say what their young are called.
pub trait Animal {
    /// The name of this animal's young: "baby", unless the kind of animal
    /// says otherwise.
    fn baby_name(&self) -> (name: String)
        default_ensures
            name@ == "baby"@,
    {
        String::from_str("baby")
    }
}

/// A dog; its young are called "Spot".
pub struct Dog;

/// A cat; its young are called "Kitten".
pub struct Cat;

impl Animal for Dog {
    fn baby_name(&self) -> (name: String)
        ensures
            name@ == "Spot"@,
    {
        String::from_str("Spot")
    }
}

impl Animal for Cat {
    fn baby_name(&self) -> (name: String)
        ensures
            name@ == "Kitten"@,
    {
        String::from_str("Kitten")
    }
}

/// The name of the young of `ani`, taken through an `impl Animal` argument:
/// whatever `ani`'s kind answers.
pub fn name(ani: &impl Animal) -> (n: String)
    ensures
        call_ensures(Animal::baby_name, (ani,), n),
{
    ani.baby_name()
}

/// The name of the young of `ani`, taken through a generic argument:
/// whatever `T` answers.
pub fn name2<T: Animal>(ani: &T) -> (n: String)
    ensures
        call_ensures(T::baby_name, (ani,), n),
{
    ani.baby_name()
}

} // verus!
