//! Access permissions: the read/write/execute triple decoded from an entry,
//! and the permission set attached to a memory region.
use vstd::prelude::*;

verus! {

/// Read, write and execute rights as an entry grants them.
#[derive(Clone, Copy, Debug, PartialEq, Eq, Structural, Hash)]
pub struct Permissions {
    pub read: bool,
    pub write: bool,
    pub execute: bool,
}

impl Permissions {
    /// The rights, unless they are the reserved combination write without
    /// read.
    pub fn try_new(read: bool, write: bool, execute: bool) -> (r: Option<Permissions>)
        ensures
            r == (if write && !read {
                None
            } else {
                Some(Permissions { read, write, execute })
            }),
    {
        if write && !read {
            None
        } else {
            Some(Permissions { read, write, execute })
        }
    }

    /// Whether no right is granted.
    pub fn is_none(&self) -> (r: bool)
        ensures
            r == !(self.read || self.write || self.execute),
    {
        !(self.read || self.write || self.execute)
    }
}

/// A set of the rights R (bit 0), W (bit 1) and X (bit 2) for a memory
/// region.
#[derive(Clone, Copy, Debug, PartialEq, Eq, Structural, Hash)]
pub struct Permission {
    pub bits: u8,
}

/// The full set grants all three rights.
pub proof fn lemma_rwx()
    ensures
        Permission::rwx_spec().spec_readable(),
        Permission::rwx_spec().spec_writable(),
        Permission::rwx_spec().spec_executable(),
{
    assert(7u8 & 1u8 == 1u8 && 7u8 & 2u8 == 2u8 && 7u8 & 4u8 == 4u8) by (bit_vector);
}

impl Permission {
    /// No access at all (guard pages, firmware-reserved memory).
    pub fn none() -> (r: Permission)
        ensures
            r.spec_bits() == 0,
    {
        Permission { bits: 0 }
    }

    /// Readable.
    pub fn r() -> (r: Permission)
        ensures
            r.spec_bits() == 1,
    {
        Permission { bits: 1 }
    }

    /// Writable.
    pub fn w() -> (r: Permission)
        ensures
            r.spec_bits() == 2,
    {
        Permission { bits: 2 }
    }

    /// Executable.
    pub fn x() -> (r: Permission)
        ensures
            r.spec_bits() == 4,
    {
        Permission { bits: 4 }
    }

    /// Readable and writable.
    pub fn rw() -> (r: Permission)
        ensures
            r.spec_bits() == 3,
    {
        Permission { bits: 3 }
    }

    /// Readable and executable.
    pub fn rx() -> (r: Permission)
        ensures
            r.spec_bits() == 5,
    {
        Permission { bits: 5 }
    }

    /// The set of all three rights.
    pub open spec fn rwx_spec() -> Permission {
        Permission { bits: 7 }
    }

    /// Readable, writable and executable.
    pub fn rwx() -> (r: Permission)
        ensures
            r.spec_bits() == 7,
            r == Permission::rwx_spec(),
    {
        Permission { bits: 7 }
    }

    /// The raw bits.
    pub open spec fn spec_bits(self) -> u8 {
        self.bits
    }

    /// Whether R is in the set.
    pub open spec fn spec_readable(self) -> bool {
        self.bits & 1 == 1
    }

    /// Whether W is in the set.
    pub open spec fn spec_writable(self) -> bool {
        self.bits & 2 == 2
    }

    /// Whether X is in the set.
    pub open spec fn spec_executable(self) -> bool {
        self.bits & 4 == 4
    }

    /// The rights of this set as an entry grants them.
    pub open spec fn permissions_spec(self) -> Permissions {
        Permissions {
            read: self.spec_readable(),
            write: self.spec_writable(),
            execute: self.spec_executable(),
        }
    }

    /// The set with the given bits, if no bit above the three rights is set.
    pub fn from_bits(bits: u8) -> (r: Option<Permission>)
        ensures
            r.is_some() == (bits < 8),
            r.is_some() ==> r.unwrap().spec_bits() == bits,
    {
        if bits < 8 {
            Some(Permission { bits })
        } else {
            None
        }
    }

    /// The raw bits.
    pub fn bits(&self) -> (r: u8)
        ensures
            r == self.spec_bits(),
    {
        self.bits
    }

    /// Whether R is in the set.
    pub fn readable(&self) -> (r: bool)
        ensures
            r == self.spec_readable(),
    {
        self.bits & 1 == 1
    }

    /// Whether W is in the set.
    pub fn writable(&self) -> (r: bool)
        ensures
            r == self.spec_writable(),
    {
        self.bits & 2 == 2
    }

    /// Whether X is in the set.
    pub fn executable(&self) -> (r: bool)
        ensures
            r == self.spec_executable(),
    {
        self.bits & 4 == 4
    }

    /// The rights as an entry would grant them.
    pub fn permissions(&self) -> (r: Permissions)
        ensures
            r == self.permissions_spec(),
    {
        Permissions { read: self.readable(), write: self.writable(), execute: self.executable() }
    }
}

} // verus!
