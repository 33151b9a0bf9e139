use vstd::prelude::*;

verus! {

/// A participant's 32-byte address on the ledger platform.
#[derive(Debug, Clone, Copy)]
pub struct Identity {
    pub bytes: [u8; 32],
}

impl Identity {
    pub fn new(bytes: [u8; 32]) -> (r: Identity)
        ensures
            r.bytes == bytes,
    {
        Identity { bytes }
    }

    /// Byte-wise comparison of two identities.
    pub fn same(&self, other: &Identity) -> (r: bool)
        ensures
            r == (*self == *other),
    {
        let mut i: usize = 0;
        while i < 32
            invariant
                0 <= i <= 32,
                forall|j: int| 0 <= j < i ==> self.bytes@[j] == other.bytes@[j],
            decreases 32 - i,
        {
            if self.bytes[i] != other.bytes[i] {
                return false;
            }
            i = i + 1;
        }
        proof {
            assert(self.bytes =~= other.bytes);
        }
        true
    }
}

/// Two identities with the same bytes are the same identity.
pub proof fn lemma_identity_bytes(a: Identity, b: Identity)
    requires
        a.bytes@ == b.bytes@,
    ensures
        a == b,
{
    assert(a.bytes =~= b.bytes);
}

/// The little-endian bytes of a counter value, used as a derivation seed.
pub open spec fn count_seed(n: u64) -> Seq<u8> {
    Seq::new(8, |i: int| ((n >> ((8 * i) as u64)) & 0xff) as u8)
}

/// The eight little-endian bytes of `n`.
pub fn count_seed_bytes(n: u64) -> (r: Vec<u8>)
    ensures
        r@ == count_seed(n),
{
    let mut r: Vec<u8> = Vec::new();
    let mut i: u64 = 0;
    while i < 8
        invariant
            0 <= i <= 8,
            r@.len() == i,
            forall|j: int| 0 <= j < i ==> r@[j] == count_seed(n)[j],
        decreases 8 - i,
    {
        r.push(((n >> (8 * i)) & 0xff) as u8);
        i = i + 1;
    }
    assert(r@ =~= count_seed(n));
    r
}

} // verus!
