use vstd::prelude::*;

verus! {

/// A value set up once, on demand, from a pending initial value: until
/// `init_once` runs it holds only the initial value, afterwards only the
/// value.
pub struct UnsafeStaticInit<T> {
    cell: Option<T>,
    init: Option<T>,
}

impl<T> UnsafeStaticInit<T> {
    /// The value, once set up.
    pub closed spec fn value(&self) -> Option<T> {
        self.cell
    }

    /// The initial value still waiting to be installed.
    pub closed spec fn pending(&self) -> Option<T> {
        self.init
    }

    /// Exactly one of the two is there.
    pub closed spec fn wf(&self) -> bool {
        self.cell is Some <==> self.init is None
    }

    /// Not set up yet, with `init` as the value to install.
    pub fn new(init: T) -> (s: Self)
        ensures
            s.wf(),
            s.value() is None,
            s.pending() == Some(init),
    {
        UnsafeStaticInit { cell: None, init: Some(init) }
    }

    /// Whether the value was set up.
    pub fn is_inited(&self) -> (b: bool)
        ensures
            b <==> self.value() is Some,
    {
        self.cell.is_some()
    }

    /// Installs the initial value. It must not have been done before.
    pub fn init_once(&mut self)
        requires
            old(self).wf(),
            old(self).value() is None,
        ensures
            final(self).wf(),
            final(self).value() == old(self).pending(),
            final(self).pending() is None,
    {
        let v = self.init.take();
        self.cell = v;
    }

    /// The value. It must have been set up.
    pub fn get(&self) -> (r: &T)
        requires
            self.value() is Some,
        ensures
            *r == self.value().unwrap(),
    {
        self.cell.as_ref().unwrap()
    }
}

/// A value set up the first time it is read.
pub struct StaticInit<T> {
    inner: UnsafeStaticInit<T>,
}

impl<T> StaticInit<T> {
    /// The value, once set up.
    pub closed spec fn value(&self) -> Option<T> {
        self.inner.value()
    }

    /// The initial value still waiting to be installed.
    pub closed spec fn pending(&self) -> Option<T> {
        self.inner.pending()
    }

    pub closed spec fn wf(&self) -> bool {
        self.inner.wf()
    }

    /// Not set up yet, with `init` as the value to install.
    pub fn new(init: T) -> (s: Self)
        ensures
            s.wf(),
            s.value() is None,
            s.pending() == Some(init),
    {
        StaticInit { inner: UnsafeStaticInit::new(init) }
    }

    /// The value, set up first if it was not.
    pub fn get(&mut self) -> (r: &T)
        requires
            old(self).wf(),
        ensures
            final(self).wf(),
            old(self).value() is Some ==> *final(self) == *old(self),
            old(self).value() is None ==> final(self).value() == old(self).pending()
                && final(self).pending() is None,
            *r == final(self).value().unwrap(),
    {
        if !self.inner.is_inited() {
            self.inner.init_once();
        }
        self.inner.get()
    }
}

} // verus!
