use vstd::prelude::*;

verus! {

/// Handle of a token class.
pub type ClassId = u64;

/// Handle of a token within its class.
pub type TokenId = u64;

/// A counter that hands out the identities `1, 2, 3, ...` of one scope, each
/// exactly once.
#[derive(Clone, Copy, Debug)]
pub struct IdAllocator {
    issued: u64,
}

impl View for IdAllocator {
    /// How many identities have been handed out; they are `1..=self@`.
    type V = nat;

    closed spec fn view(&self) -> nat {
        self.issued as nat
    }
}

impl IdAllocator {
    /// Whether `id` has already been handed out.
    pub open spec fn was_issued(self, id: u64) -> bool {
        1 <= id <= self@
    }

    /// A counter that has handed out nothing yet.
    pub fn new() -> (r: IdAllocator)
        ensures
            r@ == 0,
    {
        IdAllocator { issued: 0 }
    }

    /// How many identities have been handed out.
    pub fn issued(&self) -> (r: u64)
        ensures
            r == self@,
    {
        self.issued
    }

    /// The next identity, one above every earlier one, or `None` once the
    /// 64-bit range is used up (the counter then stays as it is).
    pub fn issue(&mut self) -> (r: Option<u64>)
        ensures
            match r {
                Some(id) => {
                    &&& old(self)@ < u64::MAX
                    &&& id == old(self)@ + 1
                    &&& final(self)@ == old(self)@ + 1
                    &&& !old(self).was_issued(id)
                    &&& final(self).was_issued(id)
                    &&& forall|x: u64| old(self).was_issued(x) ==> x < id
                },
                None => old(self)@ == u64::MAX && final(self)@ == old(self)@,
            },
    {
        if self.issued == u64::MAX {
            None
        } else {
            self.issued = self.issued + 1;
            Some(self.issued)
        }
    }
}

} // verus!
