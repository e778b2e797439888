//! Block identifiers: the byte offset of a block, written as sixteen
//! lower-case hexadecimal digits.
use vstd::arithmetic::div_mod::lemma_mod_breakdown;
use vstd::prelude::*;

verus! {

/// Number of hexadecimal digits in a block identifier.
pub const BLOCK_ID_DIGITS: usize = 16;

/// The lower-case hexadecimal digit of value `d` (taken below sixteen).
pub open spec fn hex_digit(d: nat) -> char {
    if d == 0 { '0' }
    else if d == 1 { '1' }
    else if d == 2 { '2' }
    else if d == 3 { '3' }
    else if d == 4 { '4' }
    else if d == 5 { '5' }
    else if d == 6 { '6' }
    else if d == 7 { '7' }
    else if d == 8 { '8' }
    else if d == 9 { '9' }
    else if d == 10 { 'a' }
    else if d == 11 { 'b' }
    else if d == 12 { 'c' }
    else if d == 13 { 'd' }
    else if d == 14 { 'e' }
    else { 'f' }
}

/// The value of a lower-case hexadecimal digit.
pub open spec fn digit_value(c: char) -> nat {
    if c == '0' { 0 }
    else if c == '1' { 1 }
    else if c == '2' { 2 }
    else if c == '3' { 3 }
    else if c == '4' { 4 }
    else if c == '5' { 5 }
    else if c == '6' { 6 }
    else if c == '7' { 7 }
    else if c == '8' { 8 }
    else if c == '9' { 9 }
    else if c == 'a' { 10 }
    else if c == 'b' { 11 }
    else if c == 'c' { 12 }
    else if c == 'd' { 13 }
    else if c == 'e' { 14 }
    else { 15 }
}

/// `n` written with exactly `width` hexadecimal digits, most significant
/// first; digits above the width are dropped.
pub open spec fn hex_fixed(n: nat, width: nat) -> Seq<char>
    decreases width,
{
    if width == 0 {
        Seq::empty()
    } else {
        hex_fixed(n / 16, (width - 1) as nat).push(hex_digit(n % 16))
    }
}

/// The number that a string of hexadecimal digits stands for.
pub open spec fn hex_value(s: Seq<char>) -> nat
    decreases s.len(),
{
    if s.len() == 0 {
        0
    } else {
        hex_value(s.drop_last()) * 16 + digit_value(s.last())
    }
}

/// Sixteen to the power `w`.
pub open spec fn pow16(w: nat) -> nat
    decreases w,
{
    if w == 0 { 1 } else { 16 * pow16((w - 1) as nat) }
}

/// The identifier of the block that starts at byte `offset`.
pub open spec fn block_id_spec(offset: nat) -> Seq<char> {
    hex_fixed(offset, BLOCK_ID_DIGITS as nat)
}

proof fn lemma_digit_round_trip(d: nat)
    requires
        d < 16,
    ensures
        digit_value(hex_digit(d)) == d,
{
}

/// Reading back `width` digits gives the number modulo sixteen to the width.
pub proof fn lemma_hex_fixed_value(n: nat, width: nat)
    ensures
        hex_fixed(n, width).len() == width,
        hex_value(hex_fixed(n, width)) == n % pow16(width),
    decreases width,
{
    if width > 0 {
        let w1 = (width - 1) as nat;
        lemma_hex_fixed_value(n / 16, w1);
        let s = hex_fixed(n, width);
        assert(s.drop_last() =~= hex_fixed(n / 16, w1));
        lemma_digit_round_trip(n % 16);
        assert(pow16(w1) > 0) by {
            lemma_pow16_positive(w1);
        }
        lemma_mod_breakdown(n as int, 16, pow16(w1) as int);
        assert(hex_value(s) == (n / 16) % pow16(w1) * 16 + n % 16);
        assert((n / 16) % pow16(w1) * 16 == 16 * ((n / 16) % pow16(w1))) by (nonlinear_arith);
    }
}

proof fn lemma_pow16_positive(w: nat)
    ensures
        pow16(w) > 0,
    decreases w,
{
    if w > 0 {
        lemma_pow16_positive((w - 1) as nat);
    }
}

/// Every 64-bit offset fits in a block identifier.
pub proof fn lemma_block_id_range()
    ensures
        pow16(BLOCK_ID_DIGITS as nat) == 0x1_0000_0000_0000_0000,
{
    reveal_with_fuel(pow16, 17);
}

/// A block identifier reads back as the offset it was made from.
pub proof fn lemma_block_id_value(offset: nat)
    requires
        offset <= u64::MAX,
    ensures
        block_id_spec(offset).len() == BLOCK_ID_DIGITS,
        hex_value(block_id_spec(offset)) == offset,
{
    lemma_hex_fixed_value(offset, BLOCK_ID_DIGITS as nat);
    lemma_block_id_range();
}

/// The one-character string of digit `d`.
fn digit_str(d: u64) -> (r: &'static str)
    requires
        d < 16,
    ensures
        r@ == seq![hex_digit(d as nat)],
{
    proof {
        reveal_strlit("0");
        reveal_strlit("1");
        reveal_strlit("2");
        reveal_strlit("3");
        reveal_strlit("4");
        reveal_strlit("5");
        reveal_strlit("6");
        reveal_strlit("7");
        reveal_strlit("8");
        reveal_strlit("9");
        reveal_strlit("a");
        reveal_strlit("b");
        reveal_strlit("c");
        reveal_strlit("d");
        reveal_strlit("e");
        reveal_strlit("f");
    }
    match d {
        0 => "0",
        1 => "1",
        2 => "2",
        3 => "3",
        4 => "4",
        5 => "5",
        6 => "6",
        7 => "7",
        8 => "8",
        9 => "9",
        10 => "a",
        11 => "b",
        12 => "c",
        13 => "d",
        14 => "e",
        _ => "f",
    }
}

/// `n` written with exactly `width` hexadecimal digits.
fn hex_fixed_string(n: u64, width: usize) -> (r: String)
    ensures
        r@ == hex_fixed(n as nat, width as nat),
    decreases width,
{
    if width == 0 {
        String::new()
    } else {
        let mut s = hex_fixed_string(n / 16, width - 1);
        s.append(digit_str(n % 16));
        s
    }
}

/// The identifier of the block that starts at byte `offset`: the offset in
/// sixteen zero-padded lower-case hexadecimal digits.
pub fn block_id_for_offset(offset: u64) -> (r: String)
    ensures
        r@ == block_id_spec(offset as nat),
        r@.len() == BLOCK_ID_DIGITS,
        hex_value(r@) == offset,
{
    proof {
        lemma_block_id_value(offset as nat);
    }
    hex_fixed_string(offset, BLOCK_ID_DIGITS)
}

} // verus!
