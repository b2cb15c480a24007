//! The debug rendering of a SID: a labeled mapping of its identifier
//! authority, its sub-authority count, and all 8 sub-authority slots,
//! the absent ones shown as `None`.

use vstd::prelude::*;

use crate::chars::{append_dec_u64, dec_of};
use crate::sid::{Sid, SidView};

verus! {

use vstd::string::StringExecFns;

/// The characters of one optional sub-authority value: `Some(v)` when
/// present, `None` when absent.
pub open spec fn debug_slot_chars(subs: Seq<u32>, k: int) -> Seq<char> {
    if 0 <= k < subs.len() {
        "Some("@ + dec_of(subs[k] as nat) + ")"@
    } else {
        "None"@
    }
}

/// The characters of the labeled slots `sub_auths[k]` through
/// `sub_auths[7]`.
pub open spec fn debug_slots_chars(subs: Seq<u32>, k: int) -> Seq<char>
    decreases 8 - k,
{
    if k < 0 || k >= 8 {
        Seq::empty()
    } else {
        ", sub_auths["@ + dec_of(k as nat) + "]: "@ + debug_slot_chars(subs, k)
            + debug_slots_chars(subs, k + 1)
    }
}

/// The full debug rendering: identifier authority bytes, sub-authority
/// count, then the 8 slots.
pub open spec fn debug_chars(v: SidView) -> Seq<char> {
    "{id_auth: ["@ + dec_of(v.auth[0] as nat) + ", "@ + dec_of(v.auth[1] as nat) + ", "@ + dec_of(
        v.auth[2] as nat,
    ) + ", "@ + dec_of(v.auth[3] as nat) + ", "@ + dec_of(v.auth[4] as nat) + ", "@ + dec_of(
        v.auth[5] as nat,
    ) + "], sub_auth_count: "@ + dec_of(v.subs.len()) + debug_slots_chars(v.subs, 0) + "}"@
}

/// Append the labeled slots from `k` on.
fn append_debug_slots(s: &mut String, sid: &Sid, k: u8)
    requires
        sid@.wf(),
        k <= 8,
    ensures
        final(s)@ == old(s)@ + debug_slots_chars(sid@.subs, k as int),
    decreases 8 - k,
{
    if k == 8 {
        proof {
            assert(s@ =~= old(s)@ + debug_slots_chars(sid@.subs, 8));
        }
        return ;
    }
    s.append(", sub_auths[");
    append_dec_u64(s, k as u64);
    s.append("]: ");
    match sid.sub_authority(k) {
        Some(x) => {
            s.append("Some(");
            append_dec_u64(s, x as u64);
            s.append(")");
            proof {
                assert(debug_slot_chars(sid@.subs, k as int) == "Some("@ + dec_of(
                    sid@.subs[k as int] as nat,
                ) + ")"@);
            }
        },
        None => {
            s.append("None");
            proof {
                assert(debug_slot_chars(sid@.subs, k as int) == "None"@);
            }
        },
    }
    append_debug_slots(s, sid, k + 1);
    proof {
        assert(s@ =~= old(s)@ + debug_slots_chars(sid@.subs, k as int));
    }
}

impl Sid {
    /// The debug rendering of this SID: its identifier authority, its
    /// sub-authority count, and sub-authority slots 0 through 7 as a
    /// labeled mapping, absent slots shown as `None`.
    pub fn debug_string(&self) -> (r: String)
        requires
            self@.wf(),
        ensures
            r@ == debug_chars(self@),
    {
        let mut s = String::new();
        s.append("{id_auth: [");
        let auth = self.id_authority();
        append_dec_u64(&mut s, auth[0] as u64);
        s.append(", ");
        append_dec_u64(&mut s, auth[1] as u64);
        s.append(", ");
        append_dec_u64(&mut s, auth[2] as u64);
        s.append(", ");
        append_dec_u64(&mut s, auth[3] as u64);
        s.append(", ");
        append_dec_u64(&mut s, auth[4] as u64);
        s.append(", ");
        append_dec_u64(&mut s, auth[5] as u64);
        s.append("], sub_auth_count: ");
        append_dec_u64(&mut s, self.sub_authority_count() as u64);
        append_debug_slots(&mut s, self, 0);
        s.append("}");
        proof {
            assert(s@ =~= debug_chars(self@));
        }
        s
    }
}

} // verus!
