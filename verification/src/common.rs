//! Small helpers that chain a step onto any value.

use vstd::prelude::*;

verus! {

/// Methods that run a function on a value in the middle of an expression.
pub trait ScopeMethods: Sized {
    /// Hands the value to `func` and returns what `func` returns.
    fn scope<F, R>(self, func: F) -> (result: R) where F: FnOnce(&Self) -> R
        requires
            call_requires(func, (&self,)),
        ensures
            call_ensures(func, (&self,), result),
    ;

    /// Hands the value to `func` to change and returns what `func` returns.
    fn scope_mut<F, R>(self, func: F) -> (result: R) where F: FnOnce(&mut Self) -> R
        requires
            forall|given: &mut Self| *given == self ==> #[trigger] call_requires(func, (given,)),
        ensures
            exists|given: &mut Self| *given == self && #[trigger] call_ensures(
                func,
                (given,),
                result,
            ),
    ;

    /// Shows the value to `func` and returns the value.
    fn also<F>(self, func: F) -> (same: Self) where F: FnOnce(&Self)
        requires
            call_requires(func, (&self,)),
        ensures
            same == self,
            call_ensures(func, (&self,), ()),
    ;

    /// Hands the value to `func` to change and returns what `func` made of it.
    fn also_mut<F>(self, func: F) -> (changed: Self) where F: FnOnce(&mut Self)
        requires
            forall|given: &mut Self| *given == self ==> #[trigger] call_requires(func, (given,)),
        ensures
            exists|given: &mut Self|
                *given == self && #[trigger] call_ensures(func, (given,), ()) && changed
                    == *final(given),
    ;
}

impl<T> ScopeMethods for T {
    fn scope<F, R>(self, func: F) -> (result: R) where F: FnOnce(&Self) -> R {
        func(&self)
    }

    fn scope_mut<F, R>(self, func: F) -> (result: R) where F: FnOnce(&mut Self) -> R {
        let mut value = self;
        func(&mut value)
    }

    fn also<F>(self, func: F) -> (same: Self) where F: FnOnce(&Self) {
        func(&self);
        self
    }

    fn also_mut<F>(self, func: F) -> (changed: Self) where F: FnOnce(&mut Self) {
        let mut value = self;
        func(&mut value);
        value
    }
}

} // verus!
