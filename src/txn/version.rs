use vstd::prelude::*;

verus! {

/// A set entry naming a transactional variable by its id, as read or as written.
#[derive(Clone, Copy, Debug, PartialEq, Eq, Structural)]
pub enum Version {
    Read(u64),
    Write(u64),
}

impl Version {
    /// The id of the variable the entry names.
    pub open spec fn id(&self) -> u64 {
        match self {
            Version::Read(x) => *x,
            Version::Write(x) => *x,
        }
    }

    /// The id the entry names, by reference.
    pub fn extract(&self) -> (r: &u64)
        ensures
            *r == self.id(),
    {
        match self {
            Version::Read(x) => x,
            Version::Write(x) => x,
        }
    }

    /// The id the entry names.
    pub fn read(&self) -> (r: u64)
        ensures
            r == self.id(),
    {
        match self {
            Version::Read(x) => *x,
            Version::Write(x) => *x,
        }
    }

    /// Turns the entry into a write entry naming `w`.
    pub fn write(&mut self, w: u64)
        ensures
            *final(self) == Version::Write(w),
    {
        *self = Version::Write(w);
    }
}

} // verus!
