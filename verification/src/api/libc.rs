//! libc identity carried as data, not an enum, so a new libc adds no code
//! branch. the core reads the loader path and the layer's namespace resolves it

use vstd::prelude::*;

verus! {

#[derive(Debug, PartialEq, Eq)]
pub struct Libc {
    /// free form: "glibc", "musl", "uclibc", "static"
    pub name: String,
    /// loader inside the layer, or none for a static layer
    pub loader: Option<String>,
}

impl Clone for Libc {
    fn clone(&self) -> (r: Self)
        ensures
            r == *self,
    {
        let loader = match &self.loader {
            Some(l) => Some(l.clone()),
            None => None,
        };
        Libc { name: self.name.clone(), loader }
    }
}

impl Libc {
    pub fn is_static(&self) -> (b: bool)
        ensures
            b == (self.loader is None),
    {
        self.loader.is_none()
    }
}

} // verus!
