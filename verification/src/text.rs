//! Verified text helpers: decimal digit strings, the mathematical reading of
//! big-endian byte strings, the standard base64 alphabet, and byte equality.
//! Metric labels and identifier strings are built from these.

use vstd::prelude::*;

verus! {

/// The character of one decimal digit.
pub open spec fn digit_char(i: int) -> char {
    if i == 0 { '0' } else if i == 1 { '1' } else if i == 2 { '2' } else if i == 3 { '3' }
    else if i == 4 { '4' } else if i == 5 { '5' } else if i == 6 { '6' } else if i == 7 { '7' }
    else if i == 8 { '8' } else { '9' }
}

/// The decimal rendering of a natural number, most significant digit first,
/// without leading zeros (and `"0"` for zero).
pub open spec fn spec_dec_digits(n: nat) -> Seq<char>
    decreases n,
{
    if n < 10 { seq![digit_char(n as int)] } else { spec_dec_digits(n / 10) + seq![digit_char((n % 10) as int)] }
}

/// The natural number a big-endian byte string denotes.
pub open spec fn spec_be_nat(s: Seq<u8>) -> nat
    decreases s.len(),
{
    if s.len() == 0 { 0 } else { (spec_be_nat(s.drop_last()) * 256 + s.last()) as nat }
}

/// One decimal digit as a string slice.
fn digit_str(d: u8) -> (r: &'static str)
    requires
        d < 10,
    ensures
        r@ == seq![digit_char(d as int)],
{
    proof {
        reveal_strlit("0"); reveal_strlit("1"); reveal_strlit("2"); reveal_strlit("3");
        reveal_strlit("4"); reveal_strlit("5"); reveal_strlit("6"); reveal_strlit("7");
        reveal_strlit("8"); reveal_strlit("9");
    }
    match d {
        0 => "0",
        1 => "1",
        2 => "2",
        3 => "3",
        4 => "4",
        5 => "5",
        6 => "6",
        7 => "7",
        8 => "8",
        _ => "9",
    }
}

/// Renders a number in decimal.
pub fn u64_to_dec(n: u64) -> (s: String)
    ensures
        s@ == spec_dec_digits(n as nat),
    decreases n,
{
    if n < 10 {
        let d: &str = digit_str(n as u8);
        d.to_owned()
    } else {
        assert(n / 10 < n) by (nonlinear_arith)
            requires n >= 10;
        let mut s = u64_to_dec(n / 10);
        let d: &str = digit_str((n % 10) as u8);
        s.append(d);
        s
    }
}

/// Copies a byte slice into a vector.
pub fn bytes_to_vec(b: &[u8]) -> (r: Vec<u8>)
    ensures
        r@ == b@,
{
    let mut out: Vec<u8> = Vec::new();
    let n: usize = b.len();
    for i in 0..n
        invariant
            n == b@.len(),
            out@ == b@.take(i as int),
    {
        out.push(b[i]);
        proof {
            assert(out@ =~= b@.take(i + 1));
        }
    }
    proof {
        assert(b@.take(n as int) =~= b@);
    }
    out
}

/// Whether two byte strings are equal.
pub fn bytes_eq(a: &[u8], b: &[u8]) -> (r: bool)
    ensures
        r == (a@ == b@),
{
    if a.len() != b.len() {
        assert(a@.len() != b@.len());
        return false;
    }
    let n: usize = a.len();
    for i in 0..n
        invariant
            n == a@.len() && n == b@.len(),
            forall|j: int| 0 <= j < i ==> a@[j] == b@[j],
    {
        if a[i] != b[i] {
            return false;
        }
    }
    proof {
        assert(a@ =~= b@);
    }
    true
}

/// The standard base64 alphabet.
pub open spec fn b64_char(i: int) -> char {
    seq![
        'A', 'B', 'C', 'D', 'E', 'F', 'G', 'H', 'I', 'J', 'K', 'L', 'M',
        'N', 'O', 'P', 'Q', 'R', 'S', 'T', 'U', 'V', 'W', 'X', 'Y', 'Z',
        'a', 'b', 'c', 'd', 'e', 'f', 'g', 'h', 'i', 'j', 'k', 'l', 'm',
        'n', 'o', 'p', 'q', 'r', 's', 't', 'u', 'v', 'w', 'x', 'y', 'z',
        '0', '1', '2', '3', '4', '5', '6', '7', '8', '9', '+', '/',
    ][i]
}

/// Standard base64 with `=` padding: each group of three bytes becomes four
/// alphabet characters; a final group of one or two bytes is padded.
pub open spec fn spec_base64(s: Seq<u8>) -> Seq<char>
    decreases s.len(),
{
    if s.len() == 0 {
        Seq::empty()
    } else if s.len() == 1 {
        let b0 = s[0];
        seq![b64_char((b0 >> 2) as int), b64_char(((b0 & 0x3) << 4) as int), '=', '=']
    } else if s.len() == 2 {
        let b0 = s[0];
        let b1 = s[1];
        seq![
            b64_char((b0 >> 2) as int),
            b64_char((((b0 & 0x3) << 4) | (b1 >> 4)) as int),
            b64_char(((b1 & 0xf) << 2) as int),
            '=',
        ]
    } else {
        let b0 = s[0];
        let b1 = s[1];
        let b2 = s[2];
        seq![
            b64_char((b0 >> 2) as int),
            b64_char((((b0 & 0x3) << 4) | (b1 >> 4)) as int),
            b64_char((((b1 & 0xf) << 2) | (b2 >> 6)) as int),
            b64_char((b2 & 0x3f) as int),
        ] + spec_base64(s.skip(3))
    }
}

} // verus!
