//! Individually named accessor bindings in the style of the native call
//! surface, each delegating to the checked accessor it stands for.

use vstd::prelude::*;

use crate::sid::Sid;

verus! {

/// The identifier authority of `sid`, under the native accessor's name.
#[allow(non_snake_case)]
pub fn GetSidIdentifierAuthority(sid: &Sid) -> (r: &[u8; 6])
    ensures
        r@ == sid@.auth,
{
    sid.id_authority()
}

} // verus!
