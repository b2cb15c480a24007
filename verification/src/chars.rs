//! Decimal and hexadecimal digit sequences: the character-level building
//! blocks of the canonical SID string form, with the facts that tie a
//! rendered digit run back to its numeric value.

use vstd::prelude::*;

verus! {

use vstd::string::StringExecFns;

/// The character for one digit value below 16: `'0'..='9'` then `'a'..='f'`.
pub open spec fn digit_char(d: nat) -> char {
    if d < 10 {
        ((48 + d) as u8) as char
    } else {
        ((87 + d) as u8) as char
    }
}

/// Whether `c` is a decimal digit character.
pub open spec fn is_dec_digit(c: char) -> bool {
    48 <= c as u32 && c as u32 <= 57
}

/// Whether `c` is a lower-case hexadecimal digit character.
pub open spec fn is_hex_digit(c: char) -> bool {
    is_dec_digit(c) || (97 <= c as u32 && c as u32 <= 102)
}

/// The numeric value of a digit character (decimal or lower-case hex).
pub open spec fn digit_val(c: char) -> nat {
    if is_dec_digit(c) {
        (c as u32 - 48) as nat
    } else {
        (c as u32 - 87) as nat
    }
}

/// The decimal rendering of `n`, most significant digit first, with no
/// leading zeros (`0` renders as the single character `'0'`).
pub open spec fn dec_of(n: nat) -> Seq<char>
    decreases n,
{
    if n < 10 {
        seq![digit_char(n)]
    } else {
        dec_of(n / 10) + seq![digit_char(n % 10)]
    }
}

/// The hexadecimal rendering of `n mod 16^w` in exactly `w` lower-case
/// digits, most significant first.
pub open spec fn hex_of(n: nat, w: nat) -> Seq<char>
    decreases w,
{
    if w == 0 {
        Seq::empty()
    } else {
        hex_of(n / 16, (w - 1) as nat) + seq![digit_char(n % 16)]
    }
}

/// The value of a run of decimal digit characters, most significant first.
pub open spec fn dec_val(s: Seq<char>) -> nat
    decreases s.len(),
{
    if s.len() == 0 {
        0
    } else {
        dec_val(s.drop_last()) * 10 + digit_val(s.last())
    }
}

/// The value of a run of hexadecimal digit characters, most significant
/// first.
pub open spec fn hex_val(s: Seq<char>) -> nat
    decreases s.len(),
{
    if s.len() == 0 {
        0
    } else {
        hex_val(s.drop_last()) * 16 + digit_val(s.last())
    }
}

/// Digit characters round-trip through their value.
pub proof fn lemma_digit_char_val(d: nat)
    requires
        d < 16,
    ensures
        digit_val(digit_char(d)) == d,
        d < 10 ==> is_dec_digit(digit_char(d)),
        is_hex_digit(digit_char(d)),
        digit_char(d) != '-',
{
}

/// Every character of a decimal rendering is a decimal digit, the
/// rendering is never empty, and a rendering of a positive number never
/// starts with `'0'`.
pub proof fn lemma_dec_of_shape(n: nat)
    ensures
        dec_of(n).len() >= 1,
        forall|i: int| 0 <= i < dec_of(n).len() ==> is_dec_digit(#[trigger] dec_of(n)[i]),
        n >= 1 ==> dec_of(n)[0] != '0',
    decreases n,
{
    if n < 10 {
        lemma_digit_char_val(n);
        if n >= 1 {
            assert(dec_of(n)[0] == digit_char(n));
        }
    } else {
        lemma_dec_of_shape(n / 10);
        lemma_digit_char_val(n % 10);
        assert(dec_of(n)[0] == dec_of(n / 10)[0]);
        assert forall|i: int| 0 <= i < dec_of(n).len() implies is_dec_digit(
            #[trigger] dec_of(n)[i],
        ) by {
            if i < dec_of(n / 10).len() {
                assert(dec_of(n)[i] == dec_of(n / 10)[i]);
            } else {
                assert(dec_of(n)[i] == digit_char(n % 10));
            }
        }
    }
}

/// Reading a decimal rendering back yields the rendered number.
pub proof fn lemma_dec_val_of(n: nat)
    ensures
        dec_val(dec_of(n)) == n,
    decreases n,
{
    if n < 10 {
        lemma_digit_char_val(n);
        assert(dec_val(Seq::<char>::empty()) == 0);
        assert(dec_of(n).drop_last() =~= Seq::<char>::empty());
    } else {
        lemma_dec_val_of(n / 10);
        lemma_digit_char_val(n % 10);
        assert(dec_of(n).drop_last() =~= dec_of(n / 10));
        assert(dec_of(n).last() == digit_char(n % 10));
    }
}

/// Every character of a fixed-width hexadecimal rendering is a hex digit,
/// and the width is exact.
pub proof fn lemma_hex_of_shape(n: nat, w: nat)
    ensures
        hex_of(n, w).len() == w,
        forall|i: int| 0 <= i < w ==> is_hex_digit(#[trigger] hex_of(n, w)[i]),
    decreases w,
{
    if w != 0 {
        lemma_hex_of_shape(n / 16, (w - 1) as nat);
        lemma_digit_char_val(n % 16);
        assert forall|i: int| 0 <= i < w implies is_hex_digit(#[trigger] hex_of(n, w)[i]) by {
            if i < w - 1 {
                assert(hex_of(n, w)[i] == hex_of(n / 16, (w - 1) as nat)[i]);
            } else {
                assert(hex_of(n, w)[i] == digit_char(n % 16));
            }
        }
    }
}

/// `16^w`, the number of values a `w`-digit hexadecimal rendering covers.
pub open spec fn pow16(w: nat) -> nat
    decreases w,
{
    if w == 0 {
        1
    } else {
        16 * pow16((w - 1) as nat)
    }
}

/// Reading a fixed-width hexadecimal rendering back yields the rendered
/// number, provided the number fits in the width.
pub proof fn lemma_hex_val_of(n: nat, w: nat)
    requires
        n < pow16(w),
    ensures
        hex_val(hex_of(n, w)) == n,
    decreases w,
{
    if w == 0 {
        assert(hex_val(Seq::<char>::empty()) == 0);
    } else {
        assert(pow16(w) == 16 * pow16((w - 1) as nat));
        assert(pow16((w - 1) as nat) >= 1) by (nonlinear_arith)
            requires
                pow16(w) == 16 * pow16((w - 1) as nat),
                pow16(w) >= 1,
        ;
        assert(n / 16 < pow16((w - 1) as nat)) by (nonlinear_arith)
            requires
                n < 16 * pow16((w - 1) as nat),
                pow16((w - 1) as nat) >= 1,
        ;
        lemma_hex_val_of(n / 16, (w - 1) as nat);
        lemma_digit_char_val(n % 16);
        lemma_hex_of_shape(n / 16, (w - 1) as nat);
        assert(hex_of(n, w).drop_last() =~= hex_of(n / 16, (w - 1) as nat));
        assert(hex_of(n, w).last() == digit_char(n % 16));
    }
}

/// Append the single character for digit value `d`.
pub fn append_digit_char(s: &mut String, d: u8)
    requires
        d < 16,
    ensures
        final(s)@ == old(s)@ + seq![digit_char(d as nat)],
{
    let piece: &str = match d {
        0 => "0",
        1 => "1",
        2 => "2",
        3 => "3",
        4 => "4",
        5 => "5",
        6 => "6",
        7 => "7",
        8 => "8",
        9 => "9",
        10 => "a",
        11 => "b",
        12 => "c",
        13 => "d",
        14 => "e",
        15 => "f",
        _ => "",
    };
    proof {
        reveal_strlit("0");
        reveal_strlit("1");
        reveal_strlit("2");
        reveal_strlit("3");
        reveal_strlit("4");
        reveal_strlit("5");
        reveal_strlit("6");
        reveal_strlit("7");
        reveal_strlit("8");
        reveal_strlit("9");
        reveal_strlit("a");
        reveal_strlit("b");
        reveal_strlit("c");
        reveal_strlit("d");
        reveal_strlit("e");
        reveal_strlit("f");
        assert(piece@ =~= seq![digit_char(d as nat)]);
    }
    s.append(piece);
}

/// Append the decimal rendering of `n`.
pub fn append_dec_u64(s: &mut String, n: u64)
    ensures
        final(s)@ == old(s)@ + dec_of(n as nat),
    decreases n,
{
    if n < 10 {
        append_digit_char(s, n as u8);
    } else {
        append_dec_u64(s, n / 10);
        append_digit_char(s, (n % 10) as u8);
        proof {
            assert(s@ =~= old(s)@ + dec_of(n as nat));
        }
    }
}

/// Append the `w`-digit hexadecimal rendering of `n`.
pub fn append_hex_u64(s: &mut String, n: u64, w: u8)
    ensures
        final(s)@ == old(s)@ + hex_of(n as nat, w as nat),
    decreases w,
{
    if w > 0 {
        append_hex_u64(s, n / 16, w - 1);
        append_digit_char(s, (n % 16) as u8);
        proof {
            assert(s@ =~= old(s)@ + hex_of(n as nat, w as nat));
        }
    } else {
        proof {
            assert(s@ =~= old(s)@ + hex_of(n as nat, 0));
        }
    }
}

} // verus!
