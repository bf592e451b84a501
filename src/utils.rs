//! Character-level recognisers and encoders for the operand syntaxes.
use vstd::prelude::*;
use vstd::string::StrSliceExecFns;

verus! {

/// Unicode `White_Space`, the set `char::is_whitespace` and `str::trim` use.
pub open spec fn is_space(c: char) -> bool {
    let u = c as u32;
    (0x09 <= u && u <= 0x0d) || u == 0x20 || u == 0x85 || u == 0xa0 || u == 0x1680 || (0x2000
        <= u && u <= 0x200a) || u == 0x2028 || u == 0x2029 || u == 0x202f || u == 0x205f || u
        == 0x3000
}

pub open spec fn is_hex_char(c: char) -> bool {
    ('0' <= c && c <= '9') || ('a' <= c && c <= 'f') || ('A' <= c && c <= 'F')
}

pub open spec fn is_dec_char(c: char) -> bool {
    '0' <= c && c <= '9'
}

/// Value of a hexadecimal digit (meaningful when `is_hex_char(c)`).
pub open spec fn hex_val(c: char) -> nat {
    if '0' <= c && c <= '9' {
        (c as u32 - '0' as u32) as nat
    } else if 'a' <= c && c <= 'f' {
        (c as u32 - 'a' as u32 + 10) as nat
    } else {
        (c as u32 - 'A' as u32 + 10) as nat
    }
}

/// `0x` followed by exactly `n` hexadecimal digits.
pub open spec fn is_hex_prefixed(s: Seq<char>, n: nat) -> bool {
    &&& s.len() == n + 2
    &&& s[0] == '0'
    &&& s[1] == 'x'
    &&& forall|i: int| 2 <= i < s.len() ==> is_hex_char(#[trigger] s[i])
}

/// The byte written by the two hexadecimal digits at `i` and `i + 1`.
pub open spec fn hex_pair(s: Seq<char>, i: int) -> nat {
    16 * hex_val(s[i]) + hex_val(s[i + 1])
}

/// Decimal value of a run of digits, saturated at 256.
pub open spec fn dec_capped(s: Seq<char>) -> nat
    decreases s.len(),
{
    if s.len() == 0 {
        0
    } else {
        let v = dec_capped(s.drop_last()) * 10 + (s.last() as u32 - '0' as u32) as nat;
        if v > 256 {
            256
        } else {
            v
        }
    }
}

/// The digits of a register operand: what follows `R`, less an optional `+`.
pub open spec fn register_digits(s: Seq<char>) -> Seq<char> {
    if s.len() >= 2 && s[1] == '+' {
        s.subrange(2, s.len() as int)
    } else {
        s.subrange(1, s.len() as int)
    }
}

/// `R` followed by a decimal number in 0..=255 (an optional leading `+`).
pub open spec fn is_register_syntax(s: Seq<char>) -> bool {
    let d = register_digits(s);
    &&& s.len() >= 2
    &&& s[0] == 'R'
    &&& d.len() > 0
    &&& forall|i: int| 0 <= i < d.len() ==> is_dec_char(#[trigger] d[i])
    &&& dec_capped(d) <= 255
}

/// The nibble a register operand encodes to: its number modulo 16.
pub open spec fn register_nibble(s: Seq<char>) -> nat {
    dec_capped(register_digits(s)) % 16
}

/// `[0xHH]`: a bracketed two-digit hexadecimal address.
pub open spec fn is_address_syntax(s: Seq<char>) -> bool {
    &&& s.len() >= 2
    &&& s[0] == '['
    &&& s.last() == ']'
    &&& is_hex_prefixed(s.subrange(1, s.len() - 1), 2)
}

pub open spec fn address_value(s: Seq<char>) -> nat {
    hex_pair(s, 3)
}

/// The characters of `s`, one element each.
pub fn chars_of(s: &str) -> (r: Vec<char>)
    ensures
        r@ == s@,
{
    let n = s.unicode_len();
    let mut r: Vec<char> = Vec::new();
    let mut i: usize = 0;
    while i < n
        invariant
            n == s@.len(),
            i <= n,
            r@ == s@.subrange(0, i as int),
        decreases n - i,
    {
        r.push(s.get_char(i));
        i = i + 1;
    }
    assert(r@ =~= s@);
    r
}

pub fn is_space_char(c: char) -> (r: bool)
    ensures
        r == is_space(c),
{
    let u = c as u32;
    (0x09 <= u && u <= 0x0d) || u == 0x20 || u == 0x85 || u == 0xa0 || u == 0x1680 || (0x2000
        <= u && u <= 0x200a) || u == 0x2028 || u == 0x2029 || u == 0x202f || u == 0x205f || u
        == 0x3000
}

pub fn is_hex_digit(c: char) -> (r: bool)
    ensures
        r == is_hex_char(c),
{
    ('0' <= c && c <= '9') || ('a' <= c && c <= 'f') || ('A' <= c && c <= 'F')
}

pub fn hex_digit_value(c: char) -> (r: u8)
    requires
        is_hex_char(c),
    ensures
        r as nat == hex_val(c),
        r < 16,
{
    if '0' <= c && c <= '9' {
        (c as u32 - '0' as u32) as u8
    } else if 'a' <= c && c <= 'f' {
        (c as u32 - 'a' as u32 + 10) as u8
    } else {
        (c as u32 - 'A' as u32 + 10) as u8
    }
}

/// Whether `s` is `0x` followed by exactly `n` hexadecimal digits.
pub fn hex_prefixed_chars(s: &Vec<char>, n: usize) -> (r: bool)
    ensures
        r == is_hex_prefixed(s@, n as nat),
{
    let len = s.len();
    if n > usize::MAX - 2 || len != n + 2 || s[0] != '0' || s[1] != 'x' {
        return false;
    }
    let mut i: usize = 2;
    while i < s.len()
        invariant
            2 <= i <= s.len(),
            forall|j: int| 2 <= j < i ==> is_hex_char(#[trigger] s@[j]),
        decreases s.len() - i,
    {
        if !is_hex_digit(s[i]) {
            return false;
        }
        i = i + 1;
    }
    true
}

pub fn is_n_digit_hexadecimal_with_prefix(s: &str, n: usize) -> (r: bool)
    ensures
        r == is_hex_prefixed(s@, n as nat),
{
    let v = chars_of(s);
    hex_prefixed_chars(&v, n)
}

/// Pushes the high and the low nibble of `num`, in that order.
pub fn dec_to_hex_push(num: u8, hex_vec: &mut Vec<u8>)
    ensures
        final(hex_vec)@ == old(hex_vec)@.push(num / 16).push(num % 16),
{
    let high_nibble = num / 16;
    let low_nibble = num % 16;
    hex_vec.push(high_nibble);
    hex_vec.push(low_nibble);
}

/// The register number of `s` when it is a register operand.
pub fn register_value(s: &Vec<char>) -> (r: Option<u8>)
    ensures
        r is Some <==> is_register_syntax(s@),
        r is Some ==> r->0 as nat == dec_capped(register_digits(s@)),
{
    let len = s.len();
    if len < 2 || s[0] != 'R' {
        return None;
    }
    let start: usize = if s[1] == '+' {
        2
    } else {
        1
    };
    let ghost d = register_digits(s@);
    assert(d =~= s@.subrange(start as int, len as int));
    if start >= len {
        return None;
    }
    let mut v: u16 = 0;
    let mut i: usize = start;
    while i < len
        invariant
            len == s@.len(),
            start <= i <= len,
            d =~= s@.subrange(start as int, len as int),
            d == register_digits(s@),
            v as nat == dec_capped(s@.subrange(start as int, i as int)),
            v <= 256,
            forall|j: int| start <= j < i ==> is_dec_char(#[trigger] s@[j]),
        decreases len - i,
    {
        let c = s[i];
        if !('0' <= c && c <= '9') {
            assert(!is_dec_char(d[i - start]));
            return None;
        }
        let ghost prev = s@.subrange(start as int, i as int);
        assert(s@.subrange(start as int, i + 1).drop_last() =~= prev);
        let w: u16 = v * 10 + (c as u32 - '0' as u32) as u16;
        v = if w > 256 {
            256
        } else {
            w
        };
        i = i + 1;
    }
    assert(forall|j: int| 0 <= j < d.len() ==> d[j] == s@[j + start]);
    if v > 255 {
        None
    } else {
        Some(v as u8)
    }
}

pub fn is_register(command: &str) -> (r: bool)
    ensures
        r == is_register_syntax(command@),
{
    let v = chars_of(command);
    register_value(&v).is_some()
}

/// Whether `s` is a bracketed two-digit address `[0xHH]`.
pub fn address_chars(s: &Vec<char>) -> (r: bool)
    ensures
        r == is_address_syntax(s@),
{
    let len = s.len();
    if len < 2 || s[0] != '[' || s[len - 1] != ']' {
        return false;
    }
    let mut body: Vec<char> = Vec::new();
    let mut i: usize = 1;
    while i < len - 1
        invariant
            len == s@.len(),
            len >= 2,
            1 <= i <= len - 1,
            body@ == s@.subrange(1, i as int),
        decreases len - 1 - i,
    {
        body.push(s[i]);
        i = i + 1;
    }
    hex_prefixed_chars(&body, 2)
}

pub fn is_address(command: &str) -> (r: bool)
    ensures
        r == is_address_syntax(command@),
{
    let v = chars_of(command);
    address_chars(&v)
}

/// The nibble a register operand encodes to: its number modulo 16.
pub fn parse_register(command: &str) -> (r: Option<u8>)
    ensures
        r is Some <==> is_register_syntax(command@),
        r is Some ==> r->0 as nat == register_nibble(command@),
{
    let v = chars_of(command);
    match register_value(&v) {
        Some(n) => Some(n % 16),
        None => None,
    }
}

/// The byte an address operand `[0xHH]` names.
pub fn parse_address(command: &str) -> (r: Option<u8>)
    ensures
        r is Some <==> is_address_syntax(command@),
        r is Some ==> r->0 as nat == address_value(command@),
{
    let v = chars_of(command);
    if address_chars(&v) {
        let ghost b = v@.subrange(1, v@.len() - 1);
        assert(is_hex_char(b[2]) && is_hex_char(b[3]));
        let hi = hex_digit_value(v[3]);
        let lo = hex_digit_value(v[4]);
        Some(hi * 16 + lo)
    } else {
        None
    }
}

} // verus!
