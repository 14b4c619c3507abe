//! Hexadecimal text: single digits, codepoints without leading zeros, and the
//! byte strings that the hash cache stores.
use vstd::prelude::*;
use vstd::string::*;

verus! {

/// The lowercase hexadecimal digit for a value below sixteen.
pub open spec fn hex_digit(n: nat) -> char {
    if n == 0 { '0' } else if n == 1 { '1' } else if n == 2 { '2' } else if n == 3 { '3' }
    else if n == 4 { '4' } else if n == 5 { '5' } else if n == 6 { '6' } else if n == 7 { '7' }
    else if n == 8 { '8' } else if n == 9 { '9' } else if n == 10 { 'a' } else if n == 11 { 'b' }
    else if n == 12 { 'c' } else if n == 13 { 'd' } else if n == 14 { 'e' } else { 'f' }
}

/// The uppercase hexadecimal digit for a value below sixteen.
pub open spec fn hex_digit_upper(n: nat) -> char {
    if n == 10 { 'A' } else if n == 11 { 'B' } else if n == 12 { 'C' } else if n == 13 { 'D' }
    else if n == 14 { 'E' } else if n == 15 { 'F' } else { hex_digit(n) }
}

/// `n` in uppercase hexadecimal without leading zeros (zero is written `0`).
pub open spec fn u32_hex_upper(n: nat) -> Seq<char>
    decreases n,
{
    if n < 16 {
        seq![hex_digit_upper(n)]
    } else {
        u32_hex_upper(n / 16).push(hex_digit_upper(n % 16))
    }
}

/// Whether `c` is a hexadecimal digit, in either case.
pub open spec fn is_hex_digit(c: char) -> bool {
    ('0' as u32 <= c as u32 && c as u32 <= '9' as u32)
    || ('a' as u32 <= c as u32 && c as u32 <= 'f' as u32)
    || ('A' as u32 <= c as u32 && c as u32 <= 'F' as u32)
}

/// The value of a hexadecimal digit.
pub open spec fn hex_value(c: char) -> nat {
    if '0' as u32 <= c as u32 && c as u32 <= '9' as u32 {
        (c as u32 - '0' as u32) as nat
    } else if 'a' as u32 <= c as u32 && c as u32 <= 'f' as u32 {
        (c as u32 - 'a' as u32 + 10) as nat
    } else {
        (c as u32 - 'A' as u32 + 10) as nat
    }
}

/// Whether every character of `s` is a hexadecimal digit.
pub open spec fn all_hex(s: Seq<char>) -> bool {
    forall|i: int| 0 <= i < s.len() ==> #[trigger] is_hex_digit(s[i])
}

/// The number that a string of hexadecimal digits denotes (most significant first).
pub open spec fn hex_val(s: Seq<char>) -> nat
    decreases s.len(),
{
    if s.len() == 0 {
        0
    } else {
        hex_val(s.drop_last()) * 16 + hex_value(s.last())
    }
}

/// `n` in lowercase hexadecimal without leading zeros (zero is written `0`).
pub open spec fn u32_hex(n: nat) -> Seq<char>
    decreases n,
{
    if n < 16 {
        seq![hex_digit(n)]
    } else {
        u32_hex(n / 16).push(hex_digit(n % 16))
    }
}

/// Each byte as two lowercase hexadecimal digits, high nibble first.
pub open spec fn bytes_hex(b: Seq<u8>) -> Seq<char>
    decreases b.len(),
{
    if b.len() == 0 {
        seq![]
    } else {
        seq![hex_digit((b[0] / 16) as nat), hex_digit((b[0] % 16) as nat)] + bytes_hex(b.drop_first())
    }
}

/// The bytes that a string of hexadecimal digit pairs denotes.
pub open spec fn hex_bytes(s: Seq<char>) -> Seq<u8>
    decreases s.len(),
{
    if s.len() < 2 {
        seq![]
    } else {
        seq![(hex_value(s[0]) * 16 + hex_value(s[1])) as u8] + hex_bytes(s.subrange(2, s.len() as int))
    }
}

/// The number of hexadecimal digits that `n` needs; zero needs none.
pub open spec fn hex_len_spec(n: nat) -> nat
    decreases n,
{
    if n == 0 {
        0
    } else {
        1 + hex_len_spec(n / 16)
    }
}

/// A digit that `hex_digit` gives is a hexadecimal digit of that value.
pub proof fn lemma_hex_digit(n: nat)
    requires
        n < 16,
    ensures
        is_hex_digit(hex_digit(n)),
        hex_value(hex_digit(n)) == n,
        hex_digit(n) != ' ',
{
}

/// The text of a number is a non-empty string of digits that denotes the number.
pub proof fn lemma_u32_hex(n: nat)
    ensures
        all_hex(u32_hex(n)),
        u32_hex(n).len() > 0,
        hex_val(u32_hex(n)) == n,
    decreases n,
{
    if n < 16 {
        lemma_hex_digit(n);
        assert(u32_hex(n).drop_last() =~= Seq::<char>::empty());
        assert(hex_val(Seq::<char>::empty()) == 0);
    } else {
        lemma_u32_hex(n / 16);
        lemma_hex_digit(n % 16);
        let s = u32_hex(n);
        assert(s.drop_last() =~= u32_hex(n / 16));
        assert(s.last() == hex_digit(n % 16));
        assert((n / 16) * 16 + n % 16 == n) by (nonlinear_arith);
        assert(hex_val(s) == hex_val(u32_hex(n / 16)) * 16 + hex_value(hex_digit(n % 16)));
        assert forall|i: int| 0 <= i < s.len() implies #[trigger] is_hex_digit(s[i]) by {
            if i < s.len() - 1 {
                assert(s[i] == u32_hex(n / 16)[i]);
            }
        }
    }
}

/// The text of a byte string has two digits per byte and reads back as the bytes.
pub proof fn lemma_bytes_hex(b: Seq<u8>)
    ensures
        all_hex(bytes_hex(b)),
        bytes_hex(b).len() == 2 * b.len(),
        hex_bytes(bytes_hex(b)) =~= b,
    decreases b.len(),
{
    if b.len() > 0 {
        let rest = b.drop_first();
        lemma_bytes_hex(rest);
        let hi = (b[0] / 16) as nat;
        let lo = (b[0] % 16) as nat;
        lemma_hex_digit(hi);
        lemma_hex_digit(lo);
        let s = bytes_hex(b);
        assert(s.subrange(2, s.len() as int) =~= bytes_hex(rest));
        assert forall|i: int| 0 <= i < s.len() implies #[trigger] is_hex_digit(s[i]) by {
            if i >= 2 {
                assert(s[i] == bytes_hex(rest)[i - 2]);
            }
        }
        assert((hi * 16 + lo) as u8 == b[0]);
    }
}

/// Appends one character to a string.
#[verifier::external_body]
pub(crate) fn push_char(s: &mut String, c: char)
    ensures
        final(s)@ == old(s)@.push(c),
{
    s.push(c)
}

/// The lowercase hexadecimal digit for `n`.
pub fn hex_digit_char(n: u32) -> (c: char)
    requires
        n < 16,
    ensures
        c == hex_digit(n as nat),
{
    match n {
        0 => '0', 1 => '1', 2 => '2', 3 => '3', 4 => '4', 5 => '5', 6 => '6', 7 => '7',
        8 => '8', 9 => '9', 10 => 'a', 11 => 'b', 12 => 'c', 13 => 'd', 14 => 'e', _ => 'f',
    }
}

/// The value of a hexadecimal digit, or `None` for any other character.
pub fn hex_digit_value(c: char) -> (r: Option<u32>)
    ensures
        r is Some <==> is_hex_digit(c),
        r is Some ==> r->0 as nat == hex_value(c) && r->0 < 16,
{
    let u = c as u32;
    if '0' as u32 <= u && u <= '9' as u32 {
        Some(u - '0' as u32)
    } else if 'a' as u32 <= u && u <= 'f' as u32 {
        Some(u - 'a' as u32 + 10)
    } else if 'A' as u32 <= u && u <= 'F' as u32 {
        Some(u - 'A' as u32 + 10)
    } else {
        None
    }
}

/// Writes a codepoint in lowercase hexadecimal without leading zeros.
pub fn u32_to_hex(n: u32) -> (r: String)
    ensures
        r@ == u32_hex(n as nat),
    decreases n,
{
    if n < 16 {
        let mut s = String::new();
        push_char(&mut s, hex_digit_char(n));
        s
    } else {
        let mut s = u32_to_hex(n / 16);
        push_char(&mut s, hex_digit_char(n % 16));
        s
    }
}

/// Sixteen to the power `k`.
pub open spec fn pow16(k: nat) -> nat
    decreases k,
{
    if k == 0 { 1 } else { 16 * pow16((k - 1) as nat) }
}

proof fn lemma_hex_len_bound(n: nat, k: nat)
    requires
        n < pow16(k),
    ensures
        hex_len_spec(n) <= k,
    decreases k,
{
    if n > 0 {
        if k == 0 {
        } else {
            lemma_hex_len_bound(n / 16, (k - 1) as nat);
        }
    }
}

/// The uppercase hexadecimal digit for `n`.
pub fn hex_digit_char_upper(n: u32) -> (c: char)
    requires
        n < 16,
    ensures
        c == hex_digit_upper(n as nat),
{
    match n {
        10 => 'A', 11 => 'B', 12 => 'C', 13 => 'D', 14 => 'E', 15 => 'F', _ => hex_digit_char(n),
    }
}

/// Writes a codepoint in uppercase hexadecimal without leading zeros.
pub fn u32_to_hex_upper(n: u32) -> (r: String)
    ensures
        r@ == u32_hex_upper(n as nat),
    decreases n,
{
    if n < 16 {
        let mut s = String::new();
        push_char(&mut s, hex_digit_char_upper(n));
        s
    } else {
        let mut s = u32_to_hex_upper(n / 16);
        push_char(&mut s, hex_digit_char_upper(n % 16));
        s
    }
}

/// Gets the length of the hexadecimal representation of an integer.
pub fn hex_len(i: u32) -> (r: usize)
    ensures
        r as nat == hex_len_spec(i as nat),
        r <= 8,
{
    proof {
        reveal_with_fuel(pow16, 9);
        lemma_hex_len_bound(i as nat, 8);
    }
    let ghost n = i as nat;
    let mut i = i;
    let mut len: usize = 0;
    while i > 0
        invariant
            len + hex_len_spec(i as nat) == hex_len_spec(n),
            hex_len_spec(n) <= 8,
        decreases i,
    {
        i = i / 16;
        len = len + 1;
    }
    len
}

} // verus!
