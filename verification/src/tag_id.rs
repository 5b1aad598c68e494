use crate::digital::Digital;
use std::marker::PhantomData;
use vstd::prelude::*;

verus! {

/// The handle of the group of channels that trace one value of type `T`.
#[derive(Debug, PartialEq, Eq)]
pub struct TagID<T: Digital> {
    pub context: usize,
    pub id: usize,
    pub _marker: PhantomData<T>,
}

impl<T: Digital> Clone for TagID<T> {
    fn clone(&self) -> (r: Self)
        ensures
            r.context == self.context,
            r.id == self.id,
    {
        TagID { context: self.context, id: self.id, _marker: PhantomData }
    }
}

impl<T: Digital> Copy for TagID<T> {

}

} // verus!
