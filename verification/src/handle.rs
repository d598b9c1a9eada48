//! A counter-based handle and the mint that issues it, for hosts that have
//! no identity scheme of their own. The page does not depend on it.
use vstd::prelude::*;

verus! {

/// A handle issued by a `HandleMint`: a number above zero.
#[derive(Clone, Copy, PartialEq, Eq, Structural, Hash, Debug)]
pub struct AtlasHandle(usize);

impl AtlasHandle {
    /// The number that the handle carries.
    pub closed spec fn id(self) -> nat {
        self.0 as nat
    }

    /// The number that the handle carries, usable as the key of a page.
    pub fn index(&self) -> (n: usize)
        ensures
            n == self.id(),
    {
        self.0
    }

    /// Handles are equal exactly when their numbers are.
    pub proof fn lemma_id_decides(self, other: AtlasHandle)
        ensures
            self == other <==> self.id() == other.id(),
    {
    }
}

/// A source of handles that never issues the same one twice.
pub struct HandleMint {
    issued: usize,
}

impl HandleMint {
    /// How many handles the mint has issued so far.
    pub closed spec fn issued(&self) -> nat {
        self.issued as nat
    }

    /// A mint that has issued nothing.
    pub fn new() -> (mint: Self)
        ensures
            mint.issued() == 0,
    {
        HandleMint { issued: 0 }
    }

    /// Issues the next handle: the first carries one and each later one
    /// carries one more than the one before. `None` once the counter is
    /// exhausted, and the mint is then unchanged.
    pub fn create_handle(&mut self) -> (r: Option<AtlasHandle>)
        ensures
            match r {
                Some(h) => h.id() == old(self).issued() + 1 && final(self).issued() == old(
                    self,
                ).issued() + 1,
                None => old(self).issued() == usize::MAX && final(self).issued() == old(
                    self,
                ).issued(),
            },
    {
        if self.issued == usize::MAX {
            return None;
        }
        self.issued = self.issued + 1;
        Some(AtlasHandle(self.issued))
    }
}

} // verus!
