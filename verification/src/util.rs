//! Small general-purpose pieces: a two-slot history for interpolation
//! sources, and an exact integer sign.

use vstd::prelude::*;

verus! {

/// The previous and current value of something updated once per tick, so a
/// renderer can interpolate between them.
pub struct LookBack<T> {
    pub prev: T,
    pub curr: T,
}

impl<T> LookBack<T> {
    pub fn new(prev: T, curr: T) -> (r: LookBack<T>)
        ensures
            r.prev == prev,
            r.curr == curr,
    {
        LookBack { prev, curr }
    }

    /// Shift the current value into the previous slot and adopt `new`.
    pub fn push(&mut self, new: T)
        ensures
            final(self).prev == old(self).curr,
            final(self).curr == new,
    {
        let mut tmp = new;
        core::mem::swap(&mut self.curr, &mut tmp);
        core::mem::swap(&mut self.prev, &mut tmp);
    }
}

impl<T: Clone> LookBack<T> {
    /// A history whose both slots start from the same value.
    pub fn new_identical(curr: T) -> (r: LookBack<T>)
        ensures
            r.curr == curr,
            cloned::<T>(curr, r.prev),
    {
        let prev = curr.clone();
        LookBack { prev, curr }
    }

    /// Compute the next value from the previous and current ones, and push
    /// it.
    pub fn push_from<F: FnOnce(&T, &T) -> T>(&mut self, f: F)
        requires
            call_requires(f, (&old(self).prev, &old(self).curr)),
        ensures
            final(self).prev == old(self).curr,
            call_ensures(f, (&old(self).prev, &old(self).curr), final(self).curr),
    {
        let new = f(&self.prev, &self.curr);
        self.push(new);
    }
}

/// An exact three-way sign, including for types whose standard sign
/// operation treats zero differently.
pub trait SignNum2: Sized {
    /// The sign in contracts: -1, 0 or 1.
    spec fn spec_signum2(&self) -> Self;

    /// The sign: -1, 0 or 1.
    fn signum2(&self) -> (r: Self)
        ensures
            r == self.spec_signum2(),
    ;
}

impl SignNum2 for i32 {
    open spec fn spec_signum2(&self) -> i32 {
        if *self > 0 {
            1i32
        } else if *self < 0 {
            -1i32
        } else {
            0i32
        }
    }

    fn signum2(&self) -> i32 {
        if *self > 0 {
            1
        } else if *self < 0 {
            -1
        } else {
            0
        }
    }
}

impl SignNum2 for i64 {
    open spec fn spec_signum2(&self) -> i64 {
        if *self > 0 {
            1i64
        } else if *self < 0 {
            -1i64
        } else {
            0i64
        }
    }

    fn signum2(&self) -> i64 {
        if *self > 0 {
            1
        } else if *self < 0 {
            -1
        } else {
            0
        }
    }
}

} // verus!
