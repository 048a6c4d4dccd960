use vstd::prelude::*;

verus! {

/// A configuration cell: read with `get`, replaced with `set`.
pub trait EasyAtomic<T> {
    /// What the cell holds.
    spec fn current(&self) -> T;

    fn get(&self) -> (r: T)
        ensures
            r == self.current(),
    ;

    fn set(&mut self, value: T)
        ensures
            final(self).current() == value,
    ;
}

/// A configuration value, set once before a frame is sampled and read
/// while it is.
#[derive(Debug, Clone, Copy)]
pub struct Setting<T> {
    value: T,
}

impl<T: Copy> Setting<T> {
    pub fn new(value: T) -> (r: Setting<T>)
        ensures
            r.current() == value,
    {
        Setting { value }
    }
}

impl<T: Copy> EasyAtomic<T> for Setting<T> {
    closed spec fn current(&self) -> T {
        self.value
    }

    fn get(&self) -> (r: T) {
        self.value
    }

    fn set(&mut self, value: T) {
        self.value = value;
    }
}

/// The configuration of one frame: how many strips tile the sphere, and
/// whether the geometry is written as Bezier patches and in binary.
#[derive(Debug, Clone, Copy)]
pub struct Config {
    pub n_strips: Setting<u32>,
    pub bezier: Setting<bool>,
    pub binary: Setting<bool>,
}

impl Config {
    pub fn new(n_strips: u32, bezier: bool, binary: bool) -> (r: Config)
        ensures
            r.n_strips.current() == n_strips,
            r.bezier.current() == bezier,
            r.binary.current() == binary,
    {
        Config {
            n_strips: Setting::new(n_strips),
            bezier: Setting::new(bezier),
            binary: Setting::new(binary),
        }
    }
}

} // verus!
