//! A value that is set once during boot, possibly over a default.

use vstd::prelude::*;

verus! {

/// A value that is initialized once. It may start out with a default,
/// which the one initialization replaces.
pub struct LazyStatic<T> {
    value: Option<T>,
    initialized: bool,
}

impl<T> LazyStatic<T> {
    /// The held value, if any.
    pub closed spec fn value(&self) -> Option<T> {
        self.value
    }

    /// Whether `init` or `try_init` has succeeded.
    pub closed spec fn is_initialized(&self) -> bool {
        self.initialized
    }

    /// Empty and not initialized.
    pub fn new() -> (r: Self)
        ensures
            r.value() == None::<T>,
            !r.is_initialized(),
    {
        LazyStatic { value: None, initialized: false }
    }

    /// Holding `value` as a default, and not initialized.
    pub fn with_default(value: T) -> (r: Self)
        ensures
            r.value() == Some(value),
            !r.is_initialized(),
    {
        LazyStatic { value: Some(value), initialized: false }
    }

    /// Whether `init` or `try_init` has succeeded.
    pub fn initialized(&self) -> (r: bool)
        ensures
            r == self.is_initialized(),
    {
        self.initialized
    }

    /// Empties the value and forgets the initialization.
    pub fn clean(&mut self)
        ensures
            final(self).value() == None::<T>,
            !final(self).is_initialized(),
    {
        self.value = None;
        self.initialized = false;
    }

    /// Sets the value, unless it was initialized before.
    pub fn try_init(&mut self, value: T) -> (r: Result<(), &'static str>)
        ensures
            old(self).is_initialized() ==> r == Err::<(), &'static str>("StaticOnce has already been initialized")
                && *final(self) == *old(self),
            !old(self).is_initialized() ==> r is Ok && final(self).value() == Some(value)
                && final(self).is_initialized(),
    {
        if self.initialized {
            return Err("StaticOnce has already been initialized");
        }
        self.initialized = true;
        self.value = Some(value);
        Ok(())
    }

    /// Sets the value; it must not have been initialized before.
    pub fn init(&mut self, value: T)
        requires
            !old(self).is_initialized(),
        ensures
            final(self).value() == Some(value),
            final(self).is_initialized(),
    {
        let _ = self.try_init(value);
    }

    /// The value, lent for changing; there must be one. Whatever is written
    /// through the reference becomes the held value.
    pub fn edit(&mut self) -> (r: &mut T)
        requires
            old(self).value() is Some,
        ensures
            *r == old(self).value()->0,
            final(self).value() == Some(*final(r)),
            final(self).is_initialized() == old(self).is_initialized(),
    {
        match &mut self.value {
            Some(v) => v,
            None => vstd::pervasive::unreached(),
        }
    }

    /// The value; there must be one.
    pub fn get(&self) -> (r: &T)
        requires
            self.value() is Some,
        ensures
            Some(*r) == self.value(),
    {
        match &self.value {
            Some(v) => v,
            None => vstd::pervasive::unreached(),
        }
    }
}

} // verus!
