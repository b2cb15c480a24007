//! The security descriptor: one owned buffer plus up to four optional
//! references into it — owner SID, group SID, DACL, SACL — any of which
//! may be absent. The buffer is held by value, so it lives exactly as
//! long as the descriptor and every reference handed out is scoped to it.

use vstd::prelude::*;

use crate::error::Error;
use crate::record::record_at;
use crate::record::sid_from_record;
use crate::sid::{Sid, SidView};

verus! {

/// The mathematical content of a security descriptor: the owned buffer's
/// bytes and the four optional offsets into it.
pub ghost struct SecurityDescriptorView {
    pub bytes: Seq<u8>,
    pub owner: Option<int>,
    pub group: Option<int>,
    pub dacl: Option<int>,
    pub sacl: Option<int>,
}

impl SecurityDescriptorView {
    /// A descriptor is well formed when each present SID offset addresses
    /// a well-formed SID record lying entirely inside the buffer, and each
    /// present ACL offset lies inside the buffer.
    pub open spec fn wf(self) -> bool {
        &&& (self.owner matches Some(o) ==> record_at(self.bytes, o) is Some)
        &&& (self.group matches Some(o) ==> record_at(self.bytes, o) is Some)
        &&& (self.dacl matches Some(o) ==> 0 <= o <= self.bytes.len())
        &&& (self.sacl matches Some(o) ==> 0 <= o <= self.bytes.len())
    }

    /// The owner SID the descriptor names, if any.
    pub open spec fn owner_sid(self) -> Option<SidView> {
        match self.owner {
            Some(o) => record_at(self.bytes, o),
            None => None,
        }
    }

    /// The group SID the descriptor names, if any.
    pub open spec fn group_sid(self) -> Option<SidView> {
        match self.group {
            Some(o) => record_at(self.bytes, o),
            None => None,
        }
    }
}

/// The offset view of an optional buffer position.
pub open spec fn offset_view(o: Option<usize>) -> Option<int> {
    match o {
        Some(x) => Some(x as int),
        None => None,
    }
}

/// A security descriptor held as one owned buffer of bytes plus four
/// optional offsets into it.
pub struct SecurityDescriptor {
    buffer: Vec<u8>,
    owner: Option<usize>,
    group: Option<usize>,
    dacl: Option<usize>,
    sacl: Option<usize>,
}

impl View for SecurityDescriptor {
    type V = SecurityDescriptorView;

    closed spec fn view(&self) -> SecurityDescriptorView {
        SecurityDescriptorView {
            bytes: self.buffer@,
            owner: offset_view(self.owner),
            group: offset_view(self.group),
            dacl: offset_view(self.dacl),
            sacl: offset_view(self.sacl),
        }
    }
}

impl SecurityDescriptor {
    /// Construct a security descriptor from the parts a native retrieval
    /// call hands back: the descriptor buffer (absent when the call left
    /// a null pointer) and the four optional positions of its owner SID,
    /// group SID, DACL and SACL.
    ///
    /// An absent buffer marks a prior unchecked failure by the caller; it
    /// is rejected with the contract-violation error kind before any of
    /// the four positions is looked at. The caller owes it that each
    /// present position addresses, inside the buffer, a well-formed SID
    /// record (owner, group) or lies within the buffer (DACL, SACL).
    pub fn from_raw(
        buffer: Option<Vec<u8>>,
        owner: Option<usize>,
        group: Option<usize>,
        dacl: Option<usize>,
        sacl: Option<usize>,
    ) -> (r: Result<SecurityDescriptor, Error>)
        requires
            buffer matches Some(b) ==> {
                &&& (owner matches Some(o) ==> record_at(b@, o as int) is Some)
                &&& (group matches Some(o) ==> record_at(b@, o as int) is Some)
                &&& (dacl matches Some(o) ==> o <= b@.len())
                &&& (sacl matches Some(o) ==> o <= b@.len())
            },
        ensures
            match r {
                Ok(sd) => {
                    &&& buffer matches Some(b) && sd@.bytes == b@
                    &&& sd@.owner == offset_view(owner)
                    &&& sd@.group == offset_view(group)
                    &&& sd@.dacl == offset_view(dacl)
                    &&& sd@.sacl == offset_view(sacl)
                    &&& sd@.wf()
                },
                Err(e) => {
                    &&& e == Error::NullDescriptorBuffer
                    &&& buffer is None
                },
            },
    {
        let buffer = match buffer {
            None => {
                return Err(Error::NullDescriptorBuffer);
            },
            Some(b) => b,
        };
        Ok(SecurityDescriptor { buffer, owner, group, dacl, sacl })
    }

    /// The owner SID, if the descriptor names one: a SID read from the
    /// descriptor's own buffer, absent exactly when the owner position is.
    pub fn owner(&self) -> (r: Option<Sid>)
        requires
            self@.wf(),
        ensures
            match r {
                Some(sid) => self@.owner_sid() == Some(sid@) && sid@.wf(),
                None => self@.owner_sid() is None && self@.owner is None,
            },
    {
        match self.owner {
            None => None,
            Some(off) => sid_from_record(&self.buffer, off),
        }
    }

    /// The group SID, if the descriptor names one: a SID read from the
    /// descriptor's own buffer, absent exactly when the group position is.
    pub fn group(&self) -> (r: Option<Sid>)
        requires
            self@.wf(),
        ensures
            match r {
                Some(sid) => self@.group_sid() == Some(sid@) && sid@.wf(),
                None => self@.group_sid() is None && self@.group is None,
            },
    {
        match self.group {
            None => None,
            Some(off) => sid_from_record(&self.buffer, off),
        }
    }
}

} // verus!
