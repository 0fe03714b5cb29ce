//! Small helpers on collections: a cache slot filled on first use, and a
//! conditional pop.

use vstd::prelude::*;

verus! {

/// Types can implement this trait for include cache functionality.
pub trait TryGetOrInsert<T>: Sized {
    /// Returns inner value if exists, otherwise execute function `f`, then save returned value and return it.
    ///
    /// # Arguments
    ///
    /// * `f`: function executed if inner value not exists.
    fn try_get_or_insert_with<E, F: FnOnce() -> Result<T, E>>(&mut self, f: F) -> Result<&T, E>
        requires
            f.requires(()),
    ;
}

impl<T> TryGetOrInsert<T> for Option<T> {
    fn try_get_or_insert_with<E, F: FnOnce() -> Result<T, E>>(&mut self, f: F) -> (r: Result<&T, E>)
        ensures
            *old(self) matches Some(v) ==> r == Ok::<&T, E>(&v) && *final(self) == *old(self),
            *old(self) is None ==> exists|res: Result<T, E>|
                #[trigger] f.ensures((), res) && match res {
                    Ok(v) => r == Ok::<&T, E>(&v) && *final(self) == Some(v),
                    Err(e) => r == Err::<&T, E>(e) && *final(self) is None,
                },
    {
        if self.is_none() {
            match f() {
                Ok(v) => {
                    *self = Some(v);
                },
                Err(e) => {
                    return Err(e);
                },
            }
        }
        match self {
            Some(v) => Ok(v),
            None => vstd::pervasive::unreached(),
        }
    }
}

pub trait PopIf<T>: Sized {
    /// Pop the last element if the predicate holds of the whole collection.
    fn pop_if_cond<F: FnOnce(&Self) -> bool>(&mut self, pred: F) -> Option<T>
        requires
            pred.requires((&*old(self),)),
    ;

    /// Pop the element of a collection that holds exactly one.
    fn pop_if_single_el(&mut self) -> Option<T>;
}

impl<T> PopIf<T> for Vec<T> {
    fn pop_if_cond<F: FnOnce(&Self) -> bool>(&mut self, pred: F) -> (r: Option<T>)
        ensures
            exists|b: bool|
                #[trigger] pred.ensures((&*old(self),), b) && if b && old(self)@.len() > 0 {
                    r == Some(old(self)@.last()) && final(self)@ == old(self)@.drop_last()
                } else {
                    r is None && final(self)@ == old(self)@
                },
    {
        if pred(self) {
            self.pop()
        } else {
            None
        }
    }

    fn pop_if_single_el(&mut self) -> (r: Option<T>)
        ensures
            old(self)@.len() == 1 ==> r == Some(old(self)@[0]) && final(self)@.len() == 0,
            old(self)@.len() != 1 ==> r is None && final(self)@ == old(self)@,
    {
        if self.len() == 1 {
            self.pop()
        } else {
            None
        }
    }
}

} // verus!
