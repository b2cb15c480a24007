//! The canonical string form of a SID, `S-1-<authority>-<sub>-...`:
//! the authority in decimal when it fits 32 bits and otherwise as `0x`
//! and 12 hexadecimal digits, then each sub-authority in decimal. The
//! matching parser, and the proof that rendering round-trips through
//! it, are with the parser.

use vstd::prelude::*;

use crate::chars::{append_dec_u64, append_hex_u64, dec_of, hex_of};
use crate::sid::{Sid, SidView};

verus! {

use vstd::string::StringExecFns;

/// The numeric value of a 6-byte identifier authority, big-endian.
pub open spec fn auth_value(auth: Seq<u8>) -> nat {
    (auth[0] * 1099511627776 + auth[1] * 4294967296 + auth[2] * 16777216 + auth[3] * 65536
        + auth[4] * 256 + auth[5]) as nat
}

/// The 6 big-endian bytes of an authority value below `2^48`.
pub open spec fn auth_bytes(v: nat) -> Seq<u8> {
    seq![
        ((v / 1099511627776) % 256) as u8,
        ((v / 4294967296) % 256) as u8,
        ((v / 16777216) % 256) as u8,
        ((v / 65536) % 256) as u8,
        ((v / 256) % 256) as u8,
        (v % 256) as u8,
    ]
}

/// The canonical characters of an authority value: decimal when it fits
/// 32 bits, else `0x` and exactly 12 hexadecimal digits.
pub open spec fn auth_chars(v: nat) -> Seq<char> {
    if v < 4294967296 {
        dec_of(v)
    } else {
        seq!['0', 'x'] + hex_of(v, 12)
    }
}

/// The canonical characters of a run of sub-authorities: `-` then the
/// decimal value, for each in order.
pub open spec fn subs_chars(subs: Seq<u32>) -> Seq<char>
    decreases subs.len(),
{
    if subs.len() == 0 {
        Seq::empty()
    } else {
        seq!['-'] + dec_of(subs[0] as nat) + subs_chars(subs.drop_first())
    }
}

/// The canonical string form of a SID.
pub open spec fn sid_chars(v: SidView) -> Seq<char> {
    seq!['S', '-', '1', '-'] + auth_chars(auth_value(v.auth)) + subs_chars(v.subs)
}

/// The authority value of `auth`, computed exactly.
fn auth_value_u64(auth: &[u8; 6]) -> (r: u64)
    ensures
        r as nat == auth_value(auth@),
        r < 281474976710656,
{
    (auth[0] as u64) * 1099511627776 + (auth[1] as u64) * 4294967296 + (auth[2] as u64) * 16777216
        + (auth[3] as u64) * 65536 + (auth[4] as u64) * 256 + (auth[5] as u64)
}

/// Append the canonical form of the sub-authorities of `sid` from `i` on.
fn append_subs_chars(s: &mut String, sid: &Sid, i: u8)
    requires
        sid@.wf(),
        i as nat <= sid@.subs.len(),
    ensures
        final(s)@ == old(s)@ + subs_chars(sid@.subs.skip(i as int)),
    decreases sid@.subs.len() - i as nat,
{
    match sid.sub_authority(i) {
        None => {
            proof {
                assert(s@ =~= old(s)@ + subs_chars(sid@.subs.skip(i as int)));
            }
        },
        Some(x) => {
            s.append("-");
            proof {
                reveal_strlit("-");
                assert("-"@ =~= seq!['-']);
            }
            append_dec_u64(s, x as u64);
            append_subs_chars(s, sid, i + 1);
            proof {
                assert(sid@.subs.skip(i as int).drop_first() =~= sid@.subs.skip(i as int + 1));
                assert(sid@.subs.skip(i as int)[0] == sid@.subs[i as int]);
                assert(s@ =~= old(s)@ + subs_chars(sid@.subs.skip(i as int)));
            }
        },
    }
}

impl Sid {
    /// The canonical string form of this SID, as the native
    /// string-conversion call would render it.
    pub fn string_sid(&self) -> (r: String)
        requires
            self@.wf(),
        ensures
            r@ == sid_chars(self@),
    {
        let mut s = String::new();
        s.append("S-1-");
        proof {
            reveal_strlit("S-1-");
            assert("S-1-"@ =~= seq!['S', '-', '1', '-']);
        }
        let a = auth_value_u64(self.id_authority());
        if a < 4294967296 {
            append_dec_u64(&mut s, a);
        } else {
            s.append("0x");
            proof {
                reveal_strlit("0x");
                assert("0x"@ =~= seq!['0', 'x']);
            }
            append_hex_u64(&mut s, a, 12);
        }
        append_subs_chars(&mut s, self, 0);
        proof {
            assert(self@.subs.skip(0) =~= self@.subs);
            assert(s@ =~= sid_chars(self@));
        }
        s
    }
}

} // verus!
