use vstd::prelude::*;

verus! {

/// A protocol-level identifier of an identity or account, held as its bytes.
/// Two addresses are the same exactly when their bytes are.
#[derive(Clone, Debug)]
pub struct Address {
    pub bytes: Vec<u8>,
}

/// The bytes of the anonymous address.
pub open spec fn anonymous_bytes() -> Seq<u8> {
    seq![0u8]
}

impl View for Address {
    type V = Seq<u8>;

    open spec fn view(&self) -> Seq<u8> {
        self.bytes@
    }
}

impl Address {
    pub fn from_bytes(bytes: Vec<u8>) -> (r: Address)
        ensures
            r@ == bytes@,
    {
        Address { bytes }
    }

    pub fn anonymous() -> (r: Address)
        ensures
            r@ == anonymous_bytes(),
    {
        Address { bytes: vec![0u8] }
    }

    pub fn is_anonymous(&self) -> (r: bool)
        ensures
            r == (self@ == anonymous_bytes()),
    {
        let r = self.bytes.len() == 1 && self.bytes[0] == 0u8;
        proof {
            if r {
                assert(self@ =~= anonymous_bytes());
            }
        }
        r
    }

    pub fn duplicate(&self) -> (r: Address)
        ensures
            r@ == self@,
    {
        Address { bytes: self.bytes.clone() }
    }

    /// Byte-exact comparison.
    pub fn same_as(&self, other: &Address) -> (r: bool)
        ensures
            r == (self@ == other@),
    {
        if self.bytes.len() != other.bytes.len() {
            return false;
        }
        let mut i: usize = 0;
        while i < self.bytes.len()
            invariant
                self.bytes.len() == other.bytes.len(),
                i <= self.bytes.len(),
                forall|j: int| 0 <= j < i ==> self.bytes@[j] == other.bytes@[j],
            decreases self.bytes.len() - i,
        {
            if self.bytes[i] != other.bytes[i] {
                return false;
            }
            i = i + 1;
        }
        assert(self@ =~= other@);
        true
    }
}

} // verus!
