use vstd::prelude::*;

verus! {

/// Length in bytes of a public identity on the host ledger.
pub const IDENTITY_LEN: usize = 32;

/// A 32-byte public identity on the host ledger: the address of an account,
/// a signer, or a token mint.
pub struct Identity {
    bytes: Vec<u8>,
}

impl View for Identity {
    type V = Seq<u8>;

    closed spec fn view(&self) -> Seq<u8> {
        self.bytes@
    }
}

impl Identity {
    /// A well-formed identity holds exactly 32 bytes.
    pub open spec fn wf(self) -> bool {
        self@.len() == IDENTITY_LEN
    }

    /// Builds an identity from exactly 32 bytes; any other length is rejected.
    pub fn from_bytes(bytes: Vec<u8>) -> (r: Option<Identity>)
        ensures
            bytes@.len() == IDENTITY_LEN ==> (r matches Some(id) && id@ == bytes@ && id.wf()),
            bytes@.len() != IDENTITY_LEN ==> r is None,
    {
        if bytes.len() == IDENTITY_LEN {
            Some(Identity { bytes })
        } else {
            None
        }
    }

    /// An identity whose 32 bytes all equal `b`.
    pub fn filled(b: u8) -> (r: Identity)
        ensures
            r.wf(),
            r@ == Seq::new(IDENTITY_LEN as nat, |i: int| b),
    {
        let mut bytes: Vec<u8> = Vec::new();
        let mut i: usize = 0;
        while i < IDENTITY_LEN
            invariant
                i <= IDENTITY_LEN,
                bytes@.len() == i,
                forall|j: int| 0 <= j < i ==> bytes@[j] == b,
            decreases IDENTITY_LEN - i,
        {
            bytes.push(b);
            i += 1;
        }
        let r = Identity { bytes };
        proof {
            assert(r@ =~= Seq::new(IDENTITY_LEN as nat, |i: int| b));
        }
        r
    }

    /// Reads one byte of the identity.
    pub fn byte_at(&self, i: usize) -> (r: u8)
        requires
            i < self@.len(),
        ensures
            r == self@[i as int],
    {
        self.bytes[i]
    }

    /// An independent copy holding the same bytes.
    pub fn dup(&self) -> (r: Identity)
        ensures
            r@ == self@,
    {
        let mut bytes: Vec<u8> = Vec::new();
        let mut i: usize = 0;
        while i < self.bytes.len()
            invariant
                i <= self.bytes@.len(),
                bytes@ == self.bytes@.subrange(0, i as int),
            decreases self.bytes@.len() - i,
        {
            bytes.push(self.bytes[i]);
            proof {
                assert(bytes@ =~= self.bytes@.subrange(0, i + 1));
            }
            i += 1;
        }
        proof {
            assert(bytes@ =~= self.bytes@);
        }
        Identity { bytes }
    }

    /// Byte-for-byte equality of two identities.
    pub fn eq_id(&self, other: &Identity) -> (r: bool)
        ensures
            r == (self@ == other@),
    {
        if self.bytes.len() != other.bytes.len() {
            return false;
        }
        let mut i: usize = 0;
        while i < self.bytes.len()
            invariant
                i <= self.bytes@.len(),
                self.bytes@.len() == other.bytes@.len(),
                forall|j: int| 0 <= j < i ==> self.bytes@[j] == other.bytes@[j],
            decreases self.bytes@.len() - i,
        {
            if self.bytes[i] != other.bytes[i] {
                return false;
            }
            i += 1;
        }
        proof {
            assert(self@ =~= other@);
        }
        true
    }
}

} // verus!
