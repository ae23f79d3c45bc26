//! A small ELF64 toolchain: a byte-exact reader and writer for the ELF
//! object/executable format, and a linker that merges relocatable objects
//! into a loadable executable image.

use vstd::prelude::*;

pub mod align;
pub mod codec;
pub mod consts;
pub mod linker;
pub mod opts;
pub mod read;
pub mod size;
pub mod storage;
pub mod write;

verus! {

/// A run-time address inside an object file.
#[derive(Debug, Clone, Copy, PartialEq, Eq, Structural, Hash)]
pub struct Addr(pub u64);

/// An offset into an object file, either absolute or relative to a section.
#[derive(Debug, Clone, Copy, PartialEq, Eq, Structural, Hash)]
pub struct Offset(pub u64);

impl Offset {
    pub fn usize(self) -> (r: usize)
        requires
            self.0 <= usize::MAX,
        ensures
            r == self.0,
    {
        self.0 as usize
    }

    pub fn u64(self) -> (r: u64)
        ensures
            r == self.0,
    {
        self.0
    }
}

impl Addr {
    pub fn u64(self) -> (r: u64)
        ensures
            r == self.0,
    {
        self.0
    }
}

} // verus!
