use vstd::prelude::*;

verus! {

/// A 256-bit digest, held as four 64-bit words with the most significant
/// word first.  Reading each word big-endian, the byte-lexicographic order
/// of the digest is exactly the lexicographic order of the word tuple
/// `(w0, w1, w2, w3)`, which is the order `spec_lt` defines.
#[derive(Clone, Copy, PartialEq, Eq, Structural, Debug)]
pub struct Hash256 {
    pub w0: u64,
    pub w1: u64,
    pub w2: u64,
    pub w3: u64,
}

impl Hash256 {
    /// Strict lexicographic order over the word tuple.
    pub open spec fn spec_lt(self, other: Hash256) -> bool {
        self.w0 < other.w0 || (self.w0 == other.w0 && (self.w1 < other.w1 || (self.w1
            == other.w1 && (self.w2 < other.w2 || (self.w2 == other.w2 && self.w3 < other.w3)))))
    }

    pub open spec fn spec_le(self, other: Hash256) -> bool {
        self.spec_lt(other) || self == other
    }

    /// Strict byte-lexicographic comparison.
    pub fn lt(&self, other: &Hash256) -> (r: bool)
        ensures
            r == self.spec_lt(*other),
    {
        if self.w0 != other.w0 {
            self.w0 < other.w0
        } else if self.w1 != other.w1 {
            self.w1 < other.w1
        } else if self.w2 != other.w2 {
            self.w2 < other.w2
        } else {
            self.w3 < other.w3
        }
    }
}

} // verus!
