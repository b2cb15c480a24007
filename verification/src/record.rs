//! The self-describing byte form of a SID record: revision, sub-authority
//! count, 6 authority bytes, then each sub-authority as 4 little-endian
//! bytes. A checked reader takes the place of reinterpreting a raw
//! pointer: it yields a SID only from a well-formed, fully in-bounds
//! record, and never reads outside the buffer.

use vstd::prelude::*;

use crate::sid::{Sid, SidView};

verus! {

use vstd::std_specs::cmp::PartialEqSpec;

/// The revision byte every record carries.
pub const RECORD_REVISION: u8 = 1;

/// The four little-endian bytes of one sub-authority value.
pub open spec fn le4(x: u32) -> Seq<u8> {
    seq![
        (x % 256) as u8,
        ((x / 256) % 256) as u8,
        ((x / 65536) % 256) as u8,
        ((x / 16777216) % 256) as u8,
    ]
}

/// The little-endian value of the four bytes of `b` starting at `p`.
pub open spec fn le4_val(b: Seq<u8>, p: int) -> nat {
    (b[p] + 256 * b[p + 1] + 65536 * b[p + 2] + 16777216 * b[p + 3]) as nat
}

/// The byte form of a run of sub-authorities, in order.
pub open spec fn subs_bytes(subs: Seq<u32>) -> Seq<u8>
    decreases subs.len(),
{
    if subs.len() == 0 {
        Seq::empty()
    } else {
        le4(subs[0]) + subs_bytes(subs.drop_first())
    }
}

/// The full byte record of a SID.
pub open spec fn record_of(v: SidView) -> Seq<u8> {
    seq![RECORD_REVISION, v.subs.len() as u8] + v.auth + subs_bytes(v.subs)
}

/// The SID described by the record starting at `off` in `b`, if the
/// bytes there form a well-formed record that lies entirely inside `b`.
pub open spec fn record_at(b: Seq<u8>, off: int) -> Option<SidView> {
    if 0 <= off && off + 8 <= b.len() && b[off] == RECORD_REVISION && 1 <= b[off + 1] <= 8 && off
        + 8 + 4 * (b[off + 1] as int) <= b.len() {
        Some(
            SidView {
                auth: b.subrange(off + 2, off + 8),
                subs: Seq::new(b[off + 1] as nat, |i: int| le4_val(b, off + 8 + 4 * i) as u32),
            },
        )
    } else {
        None
    }
}

/// A sub-authority run's byte form is four bytes per value.
pub proof fn lemma_subs_bytes_len(subs: Seq<u32>)
    ensures
        subs_bytes(subs).len() == 4 * subs.len(),
    decreases subs.len(),
{
    if subs.len() > 0 {
        lemma_subs_bytes_len(subs.drop_first());
    }
}

/// Reading four little-endian bytes back yields the encoded value.
pub proof fn lemma_le4_val(b: Seq<u8>, p: int, x: u32)
    requires
        0 <= p,
        p + 4 <= b.len(),
        b[p] == le4(x)[0],
        b[p + 1] == le4(x)[1],
        b[p + 2] == le4(x)[2],
        b[p + 3] == le4(x)[3],
    ensures
        le4_val(b, p) == x,
{
    assert(x % 256 + 256 * ((x / 256) % 256) + 65536 * ((x / 65536) % 256) + 16777216 * ((x
        / 16777216) % 256) == x) by (bit_vector);
}

/// The bytes at position `4 * i` of a sub-authority run are the bytes of
/// the `i`-th value.
pub proof fn lemma_subs_bytes_index(subs: Seq<u32>, i: int)
    requires
        0 <= i < subs.len(),
    ensures
        subs_bytes(subs)[4 * i] == le4(subs[i])[0],
        subs_bytes(subs)[4 * i + 1] == le4(subs[i])[1],
        subs_bytes(subs)[4 * i + 2] == le4(subs[i])[2],
        subs_bytes(subs)[4 * i + 3] == le4(subs[i])[3],
    decreases i,
{
    lemma_subs_bytes_len(subs.drop_first());
    if i == 0 {
    } else {
        lemma_subs_bytes_index(subs.drop_first(), i - 1);
    }
}

/// A well-formed SID's record, wherever it sits inside a buffer, reads
/// back as exactly that SID.
pub proof fn lemma_record_at_of(b: Seq<u8>, off: int, v: SidView)
    requires
        v.wf(),
        0 <= off,
        off + record_of(v).len() <= b.len(),
        b.subrange(off, off + record_of(v).len()) == record_of(v),
    ensures
        record_at(b, off) == Some(v),
{
    lemma_subs_bytes_len(v.subs);
    let r = record_of(v);
    let n = r.len() as int;
    assert(n == 8 + 4 * v.subs.len());
    assert forall|j: int| 0 <= j < n implies b[off + j] == #[trigger] r[j] by {
        assert(b.subrange(off, off + n)[j] == b[off + j]);
    }
    assert(r[0] == RECORD_REVISION);
    assert(b[off + 0] == r[0]);
    assert(r[1] == v.subs.len() as u8);
    assert(b[off + 1] == r[1]);
    let got = record_at(b, off).unwrap();
    assert(got.auth =~= v.auth) by {
        assert forall|j: int| 0 <= j < 6 implies b.subrange(off + 2, off + 8)[j] == v.auth[j] by {
            assert(b[off + 2 + j] == r[2 + j]);
            assert(r[2 + j] == v.auth[j]);
        }
    }
    assert(got.subs =~= v.subs) by {
        assert forall|i: int| 0 <= i < v.subs.len() implies got.subs[i] == v.subs[i] by {
            lemma_subs_bytes_index(v.subs, i);
            assert(b[off + 8 + 4 * i] == r[8 + 4 * i]);
            assert(b[off + 8 + 4 * i + 1] == r[8 + 4 * i + 1]);
            assert(b[off + 8 + 4 * i + 2] == r[8 + 4 * i + 2]);
            assert(b[off + 8 + 4 * i + 3] == r[8 + 4 * i + 3]);
            assert(r[8 + 4 * i] == subs_bytes(v.subs)[4 * i]);
            assert(r[8 + 4 * i + 1] == subs_bytes(v.subs)[4 * i + 1]);
            assert(r[8 + 4 * i + 2] == subs_bytes(v.subs)[4 * i + 2]);
            assert(r[8 + 4 * i + 3] == subs_bytes(v.subs)[4 * i + 3]);
            lemma_le4_val(b, off + 8 + 4 * i, v.subs[i]);
        }
    }
    assert(record_at(b, off) == Some(v));
}

/// Two well-formed SIDs are equal exactly when their byte records are
/// identical byte for byte.
pub proof fn lemma_sid_eq_iff_record(a: &Sid, b: &Sid)
    requires
        a@.wf(),
        b@.wf(),
    ensures
        a.eq_spec(b) <==> record_of(a@) == record_of(b@),
{
    if a.eq_spec(b) {
        assert(record_of(a@) =~= record_of(b@));
    }
    if record_of(a@) == record_of(b@) {
        assert(record_of(a@).subrange(0, record_of(a@).len() as int) =~= record_of(a@));
        assert(record_of(b@).subrange(0, record_of(b@).len() as int) =~= record_of(b@));
        lemma_record_at_of(record_of(a@), 0, a@);
        lemma_record_at_of(record_of(b@), 0, b@);
        assert(a@.auth == b@.auth && a@.subs == b@.subs);
    }
}

/// Append the four little-endian bytes of `x`.
fn push_le4(out: &mut Vec<u8>, x: u32)
    ensures
        final(out)@ == old(out)@ + le4(x),
{
    out.push((x % 256) as u8);
    out.push(((x / 256) % 256) as u8);
    out.push(((x / 65536) % 256) as u8);
    out.push(((x / 16777216) % 256) as u8);
    proof {
        assert(out@ =~= old(out)@ + le4(x));
    }
}

/// Append the byte form of the sub-authorities of `sid` from `i` on.
fn push_subs_bytes(out: &mut Vec<u8>, sid: &Sid, i: u8)
    requires
        sid@.wf(),
        i as nat <= sid@.subs.len(),
    ensures
        final(out)@ == old(out)@ + subs_bytes(sid@.subs.skip(i as int)),
    decreases sid@.subs.len() - i as nat,
{
    match sid.sub_authority(i) {
        None => {
            proof {
                assert(out@ =~= old(out)@ + subs_bytes(sid@.subs.skip(i as int)));
            }
        },
        Some(x) => {
            push_le4(out, x);
            push_subs_bytes(out, sid, i + 1);
            proof {
                assert(sid@.subs.skip(i as int).drop_first() =~= sid@.subs.skip(i as int + 1));
                assert(sid@.subs.skip(i as int)[0] == sid@.subs[i as int]);
                assert(out@ =~= old(out)@ + subs_bytes(sid@.subs.skip(i as int)));
            }
        },
    }
}

/// The byte record of `sid`: revision, count, authority, then each
/// sub-authority in little-endian order.
pub fn sid_record_bytes(sid: &Sid) -> (r: Vec<u8>)
    requires
        sid@.wf(),
    ensures
        r@ == record_of(sid@),
{
    let mut out: Vec<u8> = Vec::new();
    out.push(RECORD_REVISION);
    out.push(sid.sub_authority_count());
    let auth = sid.id_authority();
    let mut i: usize = 0;
    while i < 6
        invariant
            i <= 6,
            auth@ == sid@.auth,
            sid@.wf(),
            out@ == seq![RECORD_REVISION, sid@.subs.len() as u8] + sid@.auth.subrange(0, i as int),
        decreases 6 - i,
    {
        out.push(auth[i]);
        proof {
            assert(out@ =~= seq![RECORD_REVISION, sid@.subs.len() as u8] + sid@.auth.subrange(
                0,
                i + 1,
            ));
        }
        i += 1;
    }
    proof {
        assert(sid@.auth.subrange(0, 6) =~= sid@.auth);
    }
    push_subs_bytes(&mut out, sid, 0);
    proof {
        assert(sid@.subs.skip(0) =~= sid@.subs);
        assert(out@ =~= record_of(sid@));
    }
    out
}

/// Read the SID record starting at `offset` in `buf`, if a well-formed
/// one lies entirely inside the buffer; no byte outside the buffer and
/// no byte past the record's own length is read.
pub fn sid_from_record(buf: &Vec<u8>, offset: usize) -> (r: Option<Sid>)
    ensures
        match r {
            Some(sid) => record_at(buf@, offset as int) == Some(sid@) && sid@.wf(),
            None => record_at(buf@, offset as int) is None,
        },
{
    if buf.len() < 8 || offset > buf.len() - 8 {
        return None;
    }
    if buf[offset] != RECORD_REVISION {
        return None;
    }
    let count = buf[offset + 1];
    if count < 1 || count > 8 {
        return None;
    }
    if buf.len() - offset - 8 < 4 * (count as usize) {
        return None;
    }
    let auth: [u8; 6] = [
        buf[offset + 2],
        buf[offset + 3],
        buf[offset + 4],
        buf[offset + 5],
        buf[offset + 6],
        buf[offset + 7],
    ];
    proof {
        assert(auth@ =~= buf@.subrange(offset as int + 2, offset as int + 8));
    }
    let mut subs: Vec<u32> = Vec::new();
    let mut i: usize = 0;
    while i < count as usize
        invariant
            i <= count as nat,
            1 <= count <= 8,
            offset + 8 + 4 * count as nat <= buf@.len(),
            buf@.len() <= usize::MAX,
            subs@.len() == i,
            forall|k: int|
                0 <= k < i ==> subs@[k] == le4_val(buf@, offset as int + 8 + 4 * k) as u32,
        decreases count as int - i,
    {
        let p = offset + 8 + 4 * i;
        let x: u32 = (buf[p] as u32) + 256 * (buf[p + 1] as u32) + 65536 * (buf[p + 2] as u32)
            + 16777216 * (buf[p + 3] as u32);
        subs.push(x);
        i += 1;
    }
    let sid = match Sid::new(auth, subs.as_slice()) {
        Ok(sid) => sid,
        Err(_) => {
            return None;
        },
    };
    proof {
        let v = record_at(buf@, offset as int).unwrap();
        assert(sid@.subs =~= v.subs);
        assert(record_at(buf@, offset as int) == Some(sid@));
    }
    Some(sid)
}

} // verus!
