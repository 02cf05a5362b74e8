//! A fixed collection with a cursor that wraps around at both ends.

use vstd::prelude::*;

verus! {

/// Construction of a ring was asked for with no elements at all.
#[derive(Debug, Clone, Copy, PartialEq, Eq, Structural)]
pub struct EmptyRingError;

/// Some structure with a static amount of data and a movable cursor.
#[derive(Debug)]
pub struct Ring<T> {
    pub cursor: usize,
    pub data: Vec<T>,
}

impl<T> Ring<T> {
    /// Structural invariant: at least one element and a cursor that points
    /// at one of them.
    pub open spec fn wf(self) -> bool {
        &&& self.data@.len() >= 1
        &&& self.data@.len() <= usize::MAX
        &&& self.cursor < self.data@.len()
    }

    /// Initialize the ring with a static array of data.
    /// The array may not be empty.
    pub fn new(data: Vec<T>) -> (r: Result<Ring<T>, EmptyRingError>)
        ensures
            r is Err <==> data@.len() == 0,
            r matches Ok(g) ==> g.wf() && g.data == data && g.cursor == 0,
    {
        if data.len() == 0 {
            return Err(EmptyRingError);
        }
        Ok(Ring { cursor: 0, data })
    }

    /// Get the current entry in the ring.
    pub fn get(&mut self) -> (r: &T)
        requires
            old(self).wf(),
        ensures
            *final(self) == *old(self),
            *r == old(self).data@[old(self).cursor as int],
    {
        &self.data[self.cursor]
    }

    /// Move the cursor to the next element and return the element.
    /// At the end of the array the cursor wraps to the start.
    pub fn next(&mut self) -> (r: &T)
        requires
            old(self).wf(),
        ensures
            final(self).wf(),
            final(self).data == old(self).data,
            final(self).cursor == if old(self).cursor + 1 == old(self).data@.len() {
                0int
            } else {
                old(self).cursor + 1
            },
            *r == old(self).data@[final(self).cursor as int],
    {
        // If we're at the end of the array, move to the start.
        if self.cursor + 1 >= self.data.len() {
            self.cursor = 0;
        } else {
            self.cursor = self.cursor + 1;
        }

        &self.data[self.cursor]
    }

    /// Move the cursor to the previous element and return the element.
    /// At the start of the array the cursor wraps to the end.
    pub fn prev(&mut self) -> (r: &T)
        requires
            old(self).wf(),
        ensures
            final(self).wf(),
            final(self).data == old(self).data,
            final(self).cursor == if old(self).cursor == 0 {
                old(self).data@.len() - 1
            } else {
                old(self).cursor - 1
            },
            *r == old(self).data@[final(self).cursor as int],
    {
        // If we're at the start of the array, move to the end.
        if self.cursor == 0 {
            self.cursor = self.data.len() - 1;
        } else {
            self.cursor = self.cursor - 1;
        }

        &self.data[self.cursor]
    }

    /// Move the cursor to the first element that matches the given criteria.
    /// If none is found, do nothing and return `None`.
    pub fn find<F: Fn(usize, &T) -> bool>(&mut self, pred: F) -> (r: Option<&T>)
        requires
            old(self).wf(),
            forall|i: usize, t: &T| #[trigger] call_requires(pred, (i, t)),
        ensures
            final(self).wf(),
            final(self).data == old(self).data,
            r matches Some(v) ==> {
                &&& final(self).cursor < old(self).data@.len()
                &&& *v == old(self).data@[final(self).cursor as int]
                &&& call_ensures(
                    pred,
                    (final(self).cursor, &old(self).data@[final(self).cursor as int]),
                    true,
                )
                &&& forall|j: int|
                    0 <= j < final(self).cursor ==> call_ensures(
                        pred,
                        (j as usize, &old(self).data@[j]),
                        false,
                    )
            },
            r is None ==> *final(self) == *old(self) && forall|j: int|
                0 <= j < old(self).data@.len() ==> call_ensures(
                    pred,
                    (j as usize, &old(self).data@[j]),
                    false,
                ),
    {
        let n = self.data.len();
        let mut i: usize = 0;
        while i < n
            invariant
                self == old(self),
                self.wf(),
                n == self.data@.len(),
                i <= n,
                forall|i2: usize, t: &T| #[trigger] call_requires(pred, (i2, t)),
                forall|j: int|
                    0 <= j < i ==> call_ensures(pred, (j as usize, &self.data@[j]), false),
            decreases n - i,
        {
            if pred(i, &self.data[i]) {
                self.cursor = i;
                return Some(&self.data[self.cursor]);
            }
            i = i + 1;
        }
        None
    }
}

} // verus!
