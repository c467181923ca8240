//! Trader identity: a 32-byte public key. The engine trusts callers to have
//! authenticated it; here it is only an identifier compared for equality.

use vstd::prelude::*;

verus! {

broadcast use vstd::array::group_array_axioms;

/// A 32-byte account identifier, compared byte-for-byte.
#[derive(Clone, Copy, Debug)]
pub struct Pubkey {
    pub bytes: [u8; 32],
}

impl Pubkey {
    /// The all-zero key.
    pub fn new() -> (r: Self)
        ensures
            r.bytes@ == Seq::<u8>::new(32, |i: int| 0u8),
    {
        let r = Pubkey { bytes: [0u8; 32] };
        proof {
            assert(r.bytes@ =~= Seq::<u8>::new(32, |i: int| 0u8));
        }
        r
    }

    /// A key with the given bytes.
    pub fn new_from_array(bytes: [u8; 32]) -> (r: Self)
        ensures
            r.bytes == bytes,
    {
        Pubkey { bytes }
    }
}

impl PartialEq for Pubkey {
    fn eq(&self, other: &Pubkey) -> (r: bool) {
        let mut i: usize = 0;
        while i < 32
            invariant
                i <= 32,
                forall|j: int| 0 <= j < i ==> self.bytes[j] == other.bytes[j],
            decreases 32 - i,
        {
            if self.bytes[i] != other.bytes[i] {
                assert(self.bytes != other.bytes) by {
                    assert(self.bytes[i as int] != other.bytes[i as int]);
                }
                return false;
            }
            i += 1;
        }
        proof {
            assert(self.bytes =~= other.bytes);
        }
        true
    }
}

impl Eq for Pubkey {}

impl vstd::std_specs::cmp::PartialEqSpecImpl for Pubkey {
    open spec fn obeys_eq_spec() -> bool {
        true
    }

    open spec fn eq_spec(&self, other: &Pubkey) -> bool {
        self.bytes == other.bytes
    }
}

} // verus!
