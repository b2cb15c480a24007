//! The parser of the canonical SID string form, and the proof that the
//! renderer's output parses back to the SID it came from.

use vstd::prelude::*;

use crate::chars::{
    dec_of, dec_val, digit_val, hex_of, hex_val, is_dec_digit, is_hex_digit, lemma_dec_of_shape,
    lemma_dec_val_of, lemma_hex_of_shape, lemma_hex_val_of, pow16,
};
use crate::sid::{Sid, SidView};
use crate::sidstring::{auth_bytes, auth_chars, auth_value, sid_chars, subs_chars};

verus! {

use vstd::string::StrSliceExecFns;

/// The position just past the run of decimal digit characters that
/// starts at `i`.
pub open spec fn digit_run_end(s: Seq<char>, i: int) -> int
    decreases s.len() - i,
{
    if i < 0 || i >= s.len() {
        i
    } else if is_dec_digit(s[i]) {
        digit_run_end(s, i + 1)
    } else {
        i
    }
}

/// The decimal value of the characters of `s` in `[i, j)`, most
/// significant first.
pub open spec fn dec_val_range(s: Seq<char>, i: int, j: int) -> nat
    decreases j - i,
{
    if i >= j {
        0
    } else {
        dec_val_range(s, i, j - 1) * 10 + digit_val(s[j - 1])
    }
}

/// The hexadecimal value of the characters of `s` in `[i, j)`, most
/// significant first.
pub open spec fn hex_val_range(s: Seq<char>, i: int, j: int) -> nat
    decreases j - i,
{
    if i >= j {
        0
    } else {
        hex_val_range(s, i, j - 1) * 16 + digit_val(s[j - 1])
    }
}

/// Parse the sub-authority runs from position `i` to the end of `s`,
/// each a `-` and a nonempty decimal run whose value fits 32 bits,
/// collected after `acc`.
pub open spec fn parse_subs_at(s: Seq<char>, i: int, acc: Seq<u32>) -> Option<Seq<u32>>
    decreases s.len() - i,
{
    if i < 0 || i > s.len() {
        None
    } else if i == s.len() {
        Some(acc)
    } else if s[i] != '-' {
        None
    } else {
        let j = digit_run_end(s, i + 1);
        if j <= i + 1 || j > s.len() {
            None
        } else if dec_val_range(s, i + 1, j) >= 4294967296 {
            None
        } else {
            parse_subs_at(s, j, acc.push(dec_val_range(s, i + 1, j) as u32))
        }
    }
}

/// Parse an authority value at position `i`: `0x` and exactly 12
/// hexadecimal digits, or a nonempty decimal run whose value fits 32
/// bits. Yields the value and the position just past it.
pub open spec fn parse_auth_at(s: Seq<char>, i: int) -> Option<(nat, int)> {
    if i < 0 || i > s.len() {
        None
    } else if i + 2 <= s.len() && s[i] == '0' && s[i + 1] == 'x' {
        if i + 14 <= s.len() && (forall|k: int|
            i + 2 <= k < i + 14 ==> is_hex_digit(#[trigger] s[k])) {
            Some((hex_val_range(s, i + 2, i + 14), i + 14))
        } else {
            None
        }
    } else {
        let j = digit_run_end(s, i);
        if j <= i {
            None
        } else if dec_val_range(s, i, j) >= 4294967296 {
            None
        } else {
            Some((dec_val_range(s, i, j), j))
        }
    }
}

/// Parse a whole canonical SID string: `S-1-`, an authority, then 1 to
/// 8 sub-authorities reaching exactly the end of the string.
pub open spec fn parse_sid_chars(s: Seq<char>) -> Option<SidView> {
    if s.len() >= 4 && s[0] == 'S' && s[1] == '-' && s[2] == '1' && s[3] == '-' {
        match parse_auth_at(s, 4) {
            Some((v, j)) => match parse_subs_at(s, j, Seq::empty()) {
                Some(subs) => if 1 <= subs.len() <= 8 && v < 281474976710656 {
                    Some(SidView { auth: auth_bytes(v), subs })
                } else {
                    None
                },
                None => None,
            },
            None => None,
        }
    } else {
        None
    }
}

/// A digit run's end is where the digits stop.
pub proof fn lemma_digit_run_end_at(s: Seq<char>, i: int, j: int)
    requires
        0 <= i <= j <= s.len(),
        forall|k: int| i <= k < j ==> is_dec_digit(#[trigger] s[k]),
        j == s.len() || !is_dec_digit(s[j]),
    ensures
        digit_run_end(s, i) == j,
    decreases j - i,
{
    if i < j {
        lemma_digit_run_end_at(s, i + 1, j);
    }
}

/// The run end never moves left, never passes the end, covers only
/// digits, and stops only at the end or at a non-digit.
pub proof fn lemma_digit_run_end_bounds(s: Seq<char>, i: int)
    requires
        0 <= i <= s.len(),
    ensures
        i <= digit_run_end(s, i) <= s.len(),
        forall|k: int| i <= k < digit_run_end(s, i) ==> is_dec_digit(#[trigger] s[k]),
        digit_run_end(s, i) == s.len() || !is_dec_digit(s[digit_run_end(s, i)]),
    decreases s.len() - i,
{
    if i < s.len() && is_dec_digit(s[i]) {
        lemma_digit_run_end_bounds(s, i + 1);
    }
}

/// A range's decimal value is the value of the characters it holds.
pub proof fn lemma_dec_val_range_eq(s: Seq<char>, i: int, j: int)
    requires
        0 <= i <= j <= s.len(),
    ensures
        dec_val_range(s, i, j) == dec_val(s.subrange(i, j)),
    decreases j - i,
{
    if i >= j {
        assert(s.subrange(i, j) =~= Seq::<char>::empty());
        assert(dec_val(Seq::<char>::empty()) == 0);
    } else {
        lemma_dec_val_range_eq(s, i, j - 1);
        assert(s.subrange(i, j).drop_last() =~= s.subrange(i, j - 1));
        assert(s.subrange(i, j).last() == s[j - 1]);
    }
}

/// A range's hexadecimal value is the value of the characters it holds.
pub proof fn lemma_hex_val_range_eq(s: Seq<char>, i: int, j: int)
    requires
        0 <= i <= j <= s.len(),
    ensures
        hex_val_range(s, i, j) == hex_val(s.subrange(i, j)),
    decreases j - i,
{
    if i >= j {
        assert(s.subrange(i, j) =~= Seq::<char>::empty());
        assert(hex_val(Seq::<char>::empty()) == 0);
    } else {
        lemma_hex_val_range_eq(s, i, j - 1);
        assert(s.subrange(i, j).drop_last() =~= s.subrange(i, j - 1));
        assert(s.subrange(i, j).last() == s[j - 1]);
    }
}

/// Reading further digits never makes the value smaller.
pub proof fn lemma_dec_val_range_mono(s: Seq<char>, i: int, j: int, k: int)
    requires
        i <= j <= k,
    ensures
        dec_val_range(s, i, j) <= dec_val_range(s, i, k),
    decreases k - j,
{
    if j < k {
        lemma_dec_val_range_mono(s, i, j, k - 1);
    }
}

/// Rendered sub-authorities, filling `s` from `i` to its end, parse
/// back to exactly those values.
proof fn lemma_parse_subs_render(s: Seq<char>, i: int, acc: Seq<u32>, subs: Seq<u32>)
    requires
        0 <= i <= s.len(),
        s.len() - i == subs_chars(subs).len(),
        s.subrange(i, s.len() as int) == subs_chars(subs),
    ensures
        parse_subs_at(s, i, acc) == Some(acc + subs),
    decreases subs.len(),
{
    let sc = subs_chars(subs);
    if subs.len() == 0 {
        assert(i == s.len());
        assert(acc + subs =~= acc);
    } else {
        let d = dec_of(subs[0] as nat);
        let rest = subs.drop_first();
        let m = d.len() as int;
        let j = i + 1 + m;
        lemma_dec_of_shape(subs[0] as nat);
        assert(sc == seq!['-'] + d + subs_chars(rest));
        assert(s[i] == sc[0]) by {
            assert(s.subrange(i, s.len() as int)[0] == s[i]);
        }
        assert(sc[0] == '-');
        assert forall|k: int| 0 <= k < m implies s[i + 1 + k] == d[k] by {
            assert(s.subrange(i, s.len() as int)[1 + k] == s[i + 1 + k]);
            assert(sc[1 + k] == d[k]);
        }
        assert forall|k: int| i + 1 <= k < j implies is_dec_digit(#[trigger] s[k]) by {
            assert(s[i + 1 + (k - i - 1)] == d[k - i - 1]);
        }
        if rest.len() == 0 {
            assert(subs_chars(rest).len() == 0);
            assert(j == s.len());
        } else {
            assert(s[j] == sc[1 + m]) by {
                assert(s.subrange(i, s.len() as int)[1 + m] == s[i + 1 + m]);
            }
            assert(sc[1 + m] == subs_chars(rest)[0]);
            assert(subs_chars(rest)[0] == '-');
            assert(!is_dec_digit('-'));
        }
        lemma_digit_run_end_at(s, i + 1, j);
        lemma_dec_val_range_eq(s, i + 1, j);
        assert(s.subrange(i + 1, j) =~= d);
        lemma_dec_val_of(subs[0] as nat);
        assert(dec_val_range(s, i + 1, j) == subs[0] as nat);
        assert(s.subrange(j, s.len() as int) =~= subs_chars(rest)) by {
            assert forall|k: int| 0 <= k < s.len() - j implies s.subrange(j, s.len() as int)[k]
                == subs_chars(rest)[k] by {
                assert(s.subrange(i, s.len() as int)[1 + m + k] == s[j + k]);
                assert(sc[1 + m + k] == subs_chars(rest)[k]);
            }
        }
        lemma_parse_subs_render(s, j, acc.push(subs[0]), rest);
        assert(acc.push(subs[0]) + rest =~= acc + subs);
        assert(parse_subs_at(s, i, acc) == parse_subs_at(s, j, acc.push(subs[0])));
    }
}

/// The 6 bytes of an authority round-trip through its value.
pub proof fn lemma_auth_bytes_of_value(auth: Seq<u8>)
    requires
        auth.len() == 6,
    ensures
        auth_bytes(auth_value(auth)) == auth,
{
    let b0 = auth[0];
    let b1 = auth[1];
    let b2 = auth[2];
    let b3 = auth[3];
    let b4 = auth[4];
    let b5 = auth[5];
    let v: u64 = ((b0 as u64) * 1099511627776 + (b1 as u64) * 4294967296 + (b2 as u64) * 16777216
        + (b3 as u64) * 65536 + (b4 as u64) * 256 + (b5 as u64)) as u64;
    assert((v / 1099511627776) % 256 == b0 as u64 && (v / 4294967296) % 256 == b1 as u64 && (v
        / 16777216) % 256 == b2 as u64 && (v / 65536) % 256 == b3 as u64 && (v / 256) % 256
        == b4 as u64 && v % 256 == b5 as u64) by (bit_vector)
        requires
            v == (b0 as u64) * 1099511627776 + (b1 as u64) * 4294967296 + (b2 as u64) * 16777216
                + (b3 as u64) * 65536 + (b4 as u64) * 256 + (b5 as u64),
    ;
    assert(auth_value(auth) == v as nat);
    assert(auth_bytes(auth_value(auth)) =~= auth);
}

/// An authority value below `2^48` round-trips through its 6 bytes.
pub proof fn lemma_auth_value_of_bytes(v: nat)
    requires
        v < 281474976710656,
    ensures
        auth_value(auth_bytes(v)) == v,
{
    let x = v as u64;
    assert(((x / 1099511627776) % 256) * 1099511627776 + ((x / 4294967296) % 256) * 4294967296 + ((
    x / 16777216) % 256) * 16777216 + ((x / 65536) % 256) * 65536 + ((x / 256) % 256) * 256 + (x
        % 256) == x) by (bit_vector)
        requires
            x < 281474976710656,
    ;
    assert(auth_value(auth_bytes(v)) == v);
}

/// The canonical string form of a well-formed SID parses back to that
/// SID: rendering round-trips through the parser.
pub proof fn lemma_string_sid_round_trip(v: SidView)
    requires
        v.wf(),
    ensures
        parse_sid_chars(sid_chars(v)) == Some(v),
{
    let s = sid_chars(v);
    let a = auth_value(v.auth);
    let ac = auth_chars(a);
    let sc = subs_chars(v.subs);
    assert(a < 281474976710656);
    assert(s == seq!['S', '-', '1', '-'] + ac + sc);
    lemma_subs_chars_shape(v.subs);
    assert(s[0] == 'S' && s[1] == '-' && s[2] == '1' && s[3] == '-');
    assert forall|k: int| 0 <= k < ac.len() implies s[4 + k] == ac[k] by {}
    assert forall|k: int| 0 <= k < sc.len() implies s[4 + ac.len() + k] == sc[k] by {}
    let j = 4 + ac.len() as int;
    if a < 4294967296 {
        assert(ac == dec_of(a));
        lemma_dec_of_shape(a);
        // the decimal branch is taken: the authority never reads as `0x`
        if a == 0 {
            assert(ac.len() == 1);
            assert(s[5] == sc[0]);
            assert(sc[0] == '-');
            assert(s[5] != 'x');
        } else {
            assert(s[4] == ac[0]);
            assert(ac[0] != '0');
        }
        assert forall|k: int| 4 <= k < j implies is_dec_digit(#[trigger] s[k]) by {
            assert(s[4 + (k - 4)] == ac[k - 4]);
        }
        assert(s[j] == sc[0]);
        assert(sc[0] == '-');
        assert(!is_dec_digit('-'));
        lemma_digit_run_end_at(s, 4, j);
        lemma_dec_val_range_eq(s, 4, j);
        assert(s.subrange(4, j) =~= dec_of(a));
        lemma_dec_val_of(a);
        assert(parse_auth_at(s, 4) == Some((a, j)));
    } else {
        assert(ac == seq!['0', 'x'] + hex_of(a, 12));
        lemma_hex_of_shape(a, 12);
        assert(ac.len() == 14);
        assert(s[4] == ac[0] && s[5] == ac[1]);
        assert(ac[0] == '0' && ac[1] == 'x');
        assert forall|k: int| 6 <= k < 18 implies is_hex_digit(#[trigger] s[k]) by {
            assert(s[4 + (k - 4)] == ac[k - 4]);
            assert(ac[k - 4] == hex_of(a, 12)[k - 6]);
        }
        lemma_hex_val_range_eq(s, 6, 18);
        assert(s.subrange(6, 18) =~= hex_of(a, 12));
        assert(pow16(12) == 281474976710656) by {
            reveal_with_fuel(pow16, 13);
        }
        lemma_hex_val_of(a, 12);
        assert(parse_auth_at(s, 4) == Some((a, j)));
    }
    assert(s.subrange(j, s.len() as int) =~= sc) by {
        assert forall|k: int| 0 <= k < s.len() - j implies s.subrange(j, s.len() as int)[k]
            == sc[k] by {
            assert(s[4 + ac.len() + k] == sc[k]);
        }
    }
    lemma_parse_subs_render(s, j, Seq::empty(), v.subs);
    assert(Seq::<u32>::empty() + v.subs =~= v.subs);
    lemma_auth_bytes_of_value(v.auth);
    let got = parse_sid_chars(s).unwrap();
    assert(got.auth == v.auth && got.subs == v.subs);
    assert(parse_sid_chars(s) == Some(v));
}

/// Whatever string parses to a SID parses to a well-formed one.
pub proof fn lemma_parse_sid_chars_wf(s: Seq<char>)
    ensures
        parse_sid_chars(s) matches Some(v) ==> v.wf(),
{
}

/// The position just past the decimal digit run starting at `i`.
fn dec_token_end(s: &str, n: usize, i: usize) -> (j: usize)
    requires
        i <= n,
        n as nat == s@.len(),
    ensures
        j as int == digit_run_end(s@, i as int),
        i <= j <= n,
    decreases n - i,
{
    if i == n {
        return i;
    }
    let u = s.get_char(i) as u32;
    if 48 <= u && u <= 57 {
        dec_token_end(s, n, i + 1)
    } else {
        i
    }
}

/// The value of the decimal digit run `[i, j)`, if it fits 32 bits.
fn dec_token_val(s: &str, n: usize, i: usize, j: usize) -> (r: Option<u32>)
    requires
        i <= j <= n,
        n as nat == s@.len(),
        forall|k: int| i <= k < j ==> is_dec_digit(#[trigger] s@[k]),
    ensures
        match r {
            Some(x) => x as nat == dec_val_range(s@, i as int, j as int),
            None => dec_val_range(s@, i as int, j as int) >= 4294967296,
        },
{
    let mut val: u64 = 0;
    let mut k: usize = i;
    while k < j
        invariant
            i <= k <= j <= n,
            n as nat == s@.len(),
            forall|m: int| i <= m < j ==> is_dec_digit(#[trigger] s@[m]),
            val as nat == dec_val_range(s@, i as int, k as int),
            val < 4294967296,
        decreases j - k,
    {
        let u = s.get_char(k) as u32;
        assert(is_dec_digit(s@[k as int]));
        let d = u - 48;
        let next: u64 = val * 10 + (d as u64);
        proof {
            assert(next as nat == dec_val_range(s@, i as int, k as int + 1));
        }
        if next >= 4294967296 {
            proof {
                lemma_dec_val_range_mono(s@, i as int, k as int + 1, j as int);
            }
            return None;
        }
        val = next;
        k += 1;
    }
    Some(val as u32)
}

/// The value of the 12 hexadecimal digits at `[i + 2, i + 14)`, if all
/// 12 characters there are hexadecimal digits.
fn hex_token_val(s: &str, n: usize, i: usize) -> (r: Option<u64>)
    requires
        i + 14 <= n,
        n as nat == s@.len(),
    ensures
        match r {
            Some(x) => {
                &&& x as nat == hex_val_range(s@, i as int + 2, i as int + 14)
                &&& x < 281474976710656
                &&& forall|k: int| i + 2 <= k < i + 14 ==> is_hex_digit(#[trigger] s@[k])
            },
            None => !(forall|k: int| i + 2 <= k < i + 14 ==> is_hex_digit(#[trigger] s@[k])),
        },
{
    let mut val: u64 = 0;
    let mut k: usize = i + 2;
    proof {
        reveal_with_fuel(pow16, 13);
    }
    while k < i + 14
        invariant
            i + 2 <= k <= i + 14,
            i + 14 <= n,
            n as nat == s@.len(),
            forall|m: int| i + 2 <= m < k ==> is_hex_digit(#[trigger] s@[m]),
            val as nat == hex_val_range(s@, i as int + 2, k as int),
            val < pow16((k - i - 2) as nat),
            pow16(12) == 281474976710656,
        decreases i + 14 - k,
    {
        let u = s.get_char(k) as u32;
        let d: u32 = if 48 <= u && u <= 57 {
            u - 48
        } else if 97 <= u && u <= 102 {
            u - 87
        } else {
            proof {
                assert(!is_hex_digit(s@[k as int]));
            }
            return None;
        };
        proof {
            assert(is_hex_digit(s@[k as int]));
            assert(d as nat == digit_val(s@[k as int]));
            assert(pow16(((k + 1) - i - 2) as nat) == 16 * pow16((k - i - 2) as nat));
            assert(pow16((k - i - 2) as nat) <= pow16(12)) by {
                lemma_pow16_increases((k - i - 2) as nat, 12);
            }
        }
        val = val * 16 + (d as u64);
        k += 1;
        proof {
            assert(val as nat == hex_val_range(s@, i as int + 2, k as int));
        }
    }
    Some(val)
}

/// A wider hexadecimal width never covers fewer values.
proof fn lemma_pow16_increases(a: nat, b: nat)
    requires
        a <= b,
    ensures
        pow16(a) <= pow16(b),
    decreases b,
{
    if a < b {
        lemma_pow16_increases(a, (b - 1) as nat);
        assert(pow16(b) == 16 * pow16((b - 1) as nat));
    }
}

/// Parse the canonical string form of a SID, exactly as the native
/// string-conversion call writes it: `S-1-`, the authority in decimal
/// or as `0x` and 12 hexadecimal digits, then 1 to 8 sub-authorities in
/// decimal. Yields the parsed SID, or nothing for any other string.
#[verifier::loop_isolation(false)]
pub fn parse_string_sid(s: &str) -> (r: Option<Sid>)
    ensures
        match r {
            Some(sid) => parse_sid_chars(s@) == Some(sid@) && sid@.wf(),
            None => parse_sid_chars(s@) is None,
        },
{
    let n = s.unicode_len();
    if n < 4 {
        return None;
    }
    if s.get_char(0) != 'S' || s.get_char(1) != '-' || s.get_char(2) != '1' || s.get_char(3)
        != '-' {
        return None;
    }
    let a: u64;
    let mut i: usize;
    if n >= 6 && s.get_char(4) == '0' && s.get_char(5) == 'x' {
        if n < 18 {
            return None;
        }
        match hex_token_val(s, n, 4) {
            None => {
                return None;
            },
            Some(x) => {
                a = x;
                i = 18;
            },
        }
    } else {
        let j = dec_token_end(s, n, 4);
        if j == 4 {
            return None;
        }
        proof {
            lemma_digit_run_end_bounds(s@, 4);
        }
        match dec_token_val(s, n, 4, j) {
            None => {
                return None;
            },
            Some(x) => {
                a = x as u64;
                i = j;
            },
        }
    }
    let ghost j0 = i as int;
    proof {
        assert(parse_auth_at(s@, 4) == Some((a as nat, j0)));
    }
    let mut subs: Vec<u32> = Vec::new();
    while i < n
        invariant
            i <= n,
            n as nat == s@.len(),
            parse_subs_at(s@, j0, Seq::empty()) == parse_subs_at(s@, i as int, subs@),
        decreases n - i,
    {
        if s.get_char(i) != '-' {
            return None;
        }
        let j2 = dec_token_end(s, n, i + 1);
        if j2 == i + 1 {
            return None;
        }
        proof {
            lemma_digit_run_end_bounds(s@, i as int + 1);
        }
        match dec_token_val(s, n, i + 1, j2) {
            None => {
                return None;
            },
            Some(x) => {
                subs.push(x);
                proof {
                    assert(parse_subs_at(s@, i as int, subs@.drop_last()) == parse_subs_at(
                        s@,
                        j2 as int,
                        subs@,
                    )) by {
                        assert(subs@.drop_last().push(x) =~= subs@);
                    }
                }
                i = j2;
            },
        }
    }
    if subs.len() < 1 || subs.len() > 8 {
        return None;
    }
    let auth: [u8; 6] = [
        ((a / 1099511627776) % 256) as u8,
        ((a / 4294967296) % 256) as u8,
        ((a / 16777216) % 256) as u8,
        ((a / 65536) % 256) as u8,
        ((a / 256) % 256) as u8,
        (a % 256) as u8,
    ];
    proof {
        assert(auth@ =~= auth_bytes(a as nat));
    }
    let sid = match crate::sid::Sid::new(auth, subs.as_slice()) {
        Ok(sid) => sid,
        Err(_) => {
            return None;
        },
    };
    proof {
        let got = parse_sid_chars(s@).unwrap();
        assert(got.auth == sid@.auth && got.subs == sid@.subs);
        assert(parse_sid_chars(s@) == Some(sid@));
    }
    Some(sid)
}

/// A nonempty sub-authority run renders to characters that start with
/// `'-'` and are nonempty.
proof fn lemma_subs_chars_shape(subs: Seq<u32>)
    ensures
        subs.len() > 0 ==> subs_chars(subs).len() > 0 && subs_chars(subs)[0] == '-',
{
    if subs.len() > 0 {
        lemma_dec_of_shape(subs[0] as nat);
    }
}

} // verus!
