//! A growable list of numbers that reports its length after every change.

use vstd::prelude::*;

verus! {

/// A list of numbers.
pub struct CustomVector {
    vector: Vec<i32>,
}

impl View for CustomVector {
    type V = Seq<i32>;

    closed spec fn view(&self) -> Seq<i32> {
        self.vector@
    }
}

/// What `remove_item` says of an empty list.
pub open spec fn nothing_to_remove() -> Seq<char> {
    "No more items to remove!"@
}

/// An empty list.
pub fn create_vec() -> (list: CustomVector)
    ensures
        list@ == Seq::<i32>::empty(),
{
    CustomVector { vector: Vec::new() }
}

impl CustomVector {
    /// Appends `item` and gives the new length, cut to an `i32`.
    pub fn add_item(&mut self, item: i32) -> (len: i32)
        ensures
            final(self)@ == old(self)@.push(item),
            len == final(self)@.len() as i32,
    {
        self.vector.push(item);
        #[verifier::truncate]
        (self.vector.len() as i32)
    }

    /// The item at `idx`.
    pub fn get_item(&self, idx: usize) -> (item: &i32)
        requires
            idx < self@.len(),
        ensures
            *item == self@[idx as int],
    {
        &self.vector[idx]
    }

    /// Removes the last item and gives the new length, cut to an `i32`.
    /// An empty list stays empty and the call fails.
    pub fn remove_item(&mut self) -> (res: Result<i32, &'static str>)
        ensures
            old(self)@.len() == 0 ==> res is Err && res->Err_0@ == nothing_to_remove()
                && final(self)@ == old(self)@,
            old(self)@.len() > 0 ==> res == Ok::<i32, &'static str>(final(self)@.len() as i32)
                && final(self)@ == old(self)@.drop_last(),
    {
        if self.vector.len() == 0 {
            Err("No more items to remove!")
        } else {
            self.vector.pop();
            Ok(
                #[verifier::truncate]
                (self.vector.len() as i32),
            )
        }
    }
}

} // verus!
