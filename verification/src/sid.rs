//! The security identifier (SID): a self-describing record of a 6-byte
//! identifier authority and 1 to 8 sub-authority values, constructed
//! checked and exposed through bounds-checked accessors.

use vstd::prelude::*;

use crate::error::Error;

verus! {

use vstd::std_specs::cmp::PartialEqSpec;

/// The mathematical content of a SID: its identifier authority bytes and
/// its sub-authority values.
pub ghost struct SidView {
    pub auth: Seq<u8>,
    pub subs: Seq<u32>,
}

impl SidView {
    /// A SID is well formed when its authority is exactly 6 bytes and it
    /// carries between 1 and 8 sub-authorities.
    pub open spec fn wf(self) -> bool {
        &&& self.auth.len() == 6
        &&& 1 <= self.subs.len() <= 8
    }
}

/// A security identifier held as plain values.
///
/// The native record this stands for is a variable-length buffer whose
/// true size is given by the sub-authority count stored inside it; here
/// the count is the length of `sub_auths`, so the two cannot disagree.
#[derive(Debug)]
pub struct Sid {
    id_auth: [u8; 6],
    sub_auths: Vec<u32>,
}

impl View for Sid {
    type V = SidView;

    closed spec fn view(&self) -> SidView {
        SidView { auth: self.id_auth@, subs: self.sub_auths@ }
    }
}

impl Sid {
    /// Create a new `Sid` from an identifier authority and between 1 and
    /// 8 sub-authorities; any other count is refused with a recoverable
    /// error, and a constructed `Sid` reports exactly the given values
    /// back through its accessors.
    pub fn new(id_auth: [u8; 6], sub_auths: &[u32]) -> (r: Result<Sid, Error>)
        ensures
            match r {
                Ok(sid) => {
                    &&& 1 <= sub_auths@.len() <= 8
                    &&& sid@.auth == id_auth@
                    &&& sid@.subs == sub_auths@
                    &&& sid@.wf()
                },
                Err(e) => {
                    &&& e == Error::InvalidSubAuthorityCount
                    &&& !(1 <= sub_auths@.len() <= 8)
                },
            },
    {
        let n = sub_auths.len();
        if n < 1 || n > 8 {
            return Err(Error::InvalidSubAuthorityCount);
        }
        let mut subs: Vec<u32> = Vec::new();
        let mut i: usize = 0;
        while i < n
            invariant
                i <= n,
                n == sub_auths@.len(),
                subs@ == sub_auths@.subrange(0, i as int),
            decreases n - i,
        {
            subs.push(sub_auths[i]);
            proof {
                assert(subs@ =~= sub_auths@.subrange(0, i + 1));
            }
            i += 1;
        }
        proof {
            assert(subs@ =~= sub_auths@);
        }
        Ok(Sid { id_auth, sub_auths: subs })
    }

    /// The number of sub-authorities in the SID.
    pub fn sub_authority_count(&self) -> (r: u8)
        requires
            self@.wf(),
        ensures
            r as nat == self@.subs.len(),
    {
        self.sub_auths.len() as u8
    }

    /// The identifier authority of the SID.
    pub fn id_authority(&self) -> (r: &[u8; 6])
        ensures
            r@ == self@.auth,
    {
        &self.id_auth
    }

    /// The sub-authority at `index`: present exactly when `index` is
    /// below the sub-authority count; no out-of-range index is ever read.
    pub fn sub_authority(&self, index: u8) -> (r: Option<u32>)
        ensures
            (index as nat) < self@.subs.len() ==> r == Some(self@.subs[index as int]),
            (index as nat) >= self@.subs.len() ==> r is None,
    {
        if (index as usize) < self.sub_auths.len() {
            Some(self.sub_auths[index as usize])
        } else {
            None
        }
    }
}

impl PartialEq for Sid {
    /// Deep content comparison: authorities byte for byte and
    /// sub-authorities value for value.
    fn eq(&self, other: &Sid) -> (r: bool) {
        let mut i: usize = 0;
        while i < 6
            invariant
                i <= 6,
                forall|k: int| 0 <= k < i ==> self@.auth[k] == other@.auth[k],
            decreases 6 - i,
        {
            if self.id_auth[i] != other.id_auth[i] {
                return false;
            }
            i += 1;
        }
        proof {
            assert(self@.auth =~= other@.auth);
        }
        if self.sub_auths.len() != other.sub_auths.len() {
            return false;
        }
        let n = self.sub_auths.len();
        let mut j: usize = 0;
        while j < n
            invariant
                j <= n,
                n == self@.subs.len(),
                n == other@.subs.len(),
                self@.auth == other@.auth,
                forall|k: int| 0 <= k < j ==> self@.subs[k] == other@.subs[k],
            decreases n - j,
        {
            if self.sub_auths[j] != other.sub_auths[j] {
                return false;
            }
            j += 1;
        }
        proof {
            assert(self@.subs =~= other@.subs);
        }
        true
    }
}

impl vstd::std_specs::cmp::PartialEqSpecImpl for Sid {
    open spec fn obeys_eq_spec() -> bool {
        true
    }

    open spec fn eq_spec(&self, other: &Sid) -> bool {
        self@.auth == other@.auth && self@.subs == other@.subs
    }
}

/// Equality of SIDs is reflexive.
pub proof fn lemma_sid_eq_reflexive(a: &Sid)
    ensures
        a.eq_spec(a),
{
}

/// Equality of SIDs is symmetric.
pub proof fn lemma_sid_eq_symmetric(a: &Sid, b: &Sid)
    ensures
        a.eq_spec(b) == b.eq_spec(a),
{
}

/// Two SIDs with identical content are equal, and a difference in any
/// one sub-authority makes them unequal.
pub proof fn lemma_sid_eq_content(a: &Sid, b: &Sid)
    ensures
        a@.auth == b@.auth && a@.subs == b@.subs ==> a.eq_spec(b),
        forall|i: int|
            0 <= i < a@.subs.len() && 0 <= i < b@.subs.len() && a@.subs[i] != b@.subs[i]
                ==> !a.eq_spec(b),
{
}

} // verus!
