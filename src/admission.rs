use vstd::prelude::*;
use crate::address::Address;

verus! {

/// How a method touches state: read-only methods bypass the allow-list.
#[derive(Clone, Copy, Debug, PartialEq, Eq, Structural)]
pub enum Access {
    ReadOnly,
    Mutating,
}

/// A mutating call from an address that is not on the list.
#[derive(Debug, PartialEq, Eq, Structural)]
pub enum AdmissionError {
    PermissionDenied,
}

/// The addresses allowed to invoke mutating methods, fixed when it is made.
pub struct AllowList {
    addrs: Vec<Address>,
}

impl AllowList {
    pub closed spec fn members(&self) -> Seq<Address> {
        self.addrs@
    }

    pub open spec fn allows(&self, a: Seq<u8>) -> bool {
        exists|i: int| 0 <= i < self.members().len() && self.members()[i]@ == a
    }

    pub fn new(addrs: Vec<Address>) -> (r: AllowList)
        ensures
            r.members() == addrs@,
    {
        AllowList { addrs }
    }

    pub fn contains(&self, a: &Address) -> (r: bool)
        ensures
            r == self.allows(a@),
    {
        let mut i: usize = 0;
        while i < self.addrs.len()
            invariant
                i <= self.addrs.len(),
                forall|j: int| 0 <= j < i ==> self.addrs@[j]@ != a@,
            decreases self.addrs.len() - i,
        {
            if self.addrs[i].same_as(a) {
                assert(self.members()[i as int]@ == a@);
                return true;
            }
            i = i + 1;
        }
        false
    }

    /// Whether a call of kind `access` from `sender` may go ahead.
    pub open spec fn admits(&self, access: Access, sender: Seq<u8>) -> bool {
        access == Access::ReadOnly || self.allows(sender)
    }

    /// Checks a call before any side effect: read-only calls pass, mutating
    /// calls pass only from a listed sender.
    pub fn check(&self, access: Access, sender: &Address) -> (r: Result<(), AdmissionError>)
        ensures
            r is Ok <==> self.admits(access, sender@),
            r is Err ==> r == Err::<(), AdmissionError>(AdmissionError::PermissionDenied),
    {
        match access {
            Access::ReadOnly => Ok(()),
            Access::Mutating => {
                if self.contains(sender) {
                    Ok(())
                } else {
                    Err(AdmissionError::PermissionDenied)
                }
            },
        }
    }

    /// Runs `call` for `sender` if the list admits it, and hands back its
    /// output untouched; otherwise `call` is not run at all.
    pub fn guarded_call<R, F: FnOnce() -> R>(&self, access: Access, sender: &Address, call: F) -> (r: Result<R, AdmissionError>)
        requires
            call.requires(()),
        ensures
            r is Ok <==> self.admits(access, sender@),
            r is Err ==> r == Err::<R, AdmissionError>(AdmissionError::PermissionDenied),
            r matches Ok(v) ==> call.ensures((), v),
    {
        match self.check(access, sender) {
            Ok(()) => Ok(call()),
            Err(e) => Err(e),
        }
    }
}

/// A mutating call from an unlisted sender is denied, the same call from a
/// listed sender goes ahead, and a read-only call goes ahead for anyone.
pub proof fn lemma_admission(list: AllowList, sender: Seq<u8>)
    ensures
        list.admits(Access::ReadOnly, sender),
        list.admits(Access::Mutating, sender) <==> list.allows(sender),
{
}

} // verus!
