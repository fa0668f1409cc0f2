//! The part of a record that did not fit into the last read.

use vstd::prelude::*;

verus! {

/// Holds at most one fragment.
pub struct ArrayHolder(Option<Vec<u8>>);

impl ArrayHolder {
    /// The saved fragment.
    pub closed spec fn view(&self) -> Option<Seq<u8>> {
        match self.0 {
            Some(data) => Some(data@),
            None => None,
        }
    }

    /// Creates a holder without a fragment.
    pub fn default() -> (holder: Self)
        ensures
            holder@ is None,
    {
        ArrayHolder(None)
    }

    /// Saves a fragment in place of any other.
    pub fn save(&mut self, data: &[u8])
        ensures
            final(self)@ == Some(data@),
    {
        let mut copy: Vec<u8> = Vec::with_capacity(data.len());
        copy.extend_from_slice(data);
        assert(copy@ =~= data@);
        self.0 = Some(copy);
    }

    /// Takes the saved fragment.
    pub fn load(&mut self) -> (data: Option<Vec<u8>>)
        ensures
            final(self)@ is None,
            match data {
                Some(d) => old(self)@ == Some(d@),
                None => old(self)@ is None,
            },
    {
        self.0.take()
    }

    /// Discards the saved fragment.
    pub fn clear(&mut self)
        ensures
            final(self)@ is None,
    {
        self.0 = None;
    }
}

} // verus!
