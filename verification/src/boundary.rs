//! Default boundary generation: 26 dashes followed by the lowercase
//! hexadecimal rendering, without zero padding, of three 32-bit integers read
//! little-endian from 12 random bytes.

use vstd::prelude::*;
use vstd::string::StringExecFns;
use rand::RngCore;

verus! {

/// A lowercase hexadecimal digit.
pub open spec fn is_hex_digit(c: char) -> bool {
    c == '0' || c == '1' || c == '2' || c == '3' || c == '4' || c == '5' || c == '6' || c == '7'
        || c == '8' || c == '9' || c == 'a' || c == 'b' || c == 'c' || c == 'd' || c == 'e'
        || c == 'f'
}

/// The shape of a generated boundary: 26 dashes, then 1 to 24 lowercase
/// hexadecimal digits.
pub open spec fn default_boundary_shape(s: Seq<char>) -> bool {
    &&& 27 <= s.len() <= 50
    &&& forall|i: int| 0 <= i < 26 ==> s[i] == '-'
    &&& forall|i: int| 26 <= i < s.len() ==> is_hex_digit(s[i])
}

/// The digit character for one hexadecimal place value.
pub open spec fn hex_digit_char(d: int) -> char {
    if d == 0 {
        '0'
    } else if d == 1 {
        '1'
    } else if d == 2 {
        '2'
    } else if d == 3 {
        '3'
    } else if d == 4 {
        '4'
    } else if d == 5 {
        '5'
    } else if d == 6 {
        '6'
    } else if d == 7 {
        '7'
    } else if d == 8 {
        '8'
    } else if d == 9 {
        '9'
    } else if d == 10 {
        'a'
    } else if d == 11 {
        'b'
    } else if d == 12 {
        'c'
    } else if d == 13 {
        'd'
    } else if d == 14 {
        'e'
    } else {
        'f'
    }
}

/// The lowercase hexadecimal rendering of `n`, most significant digit first,
/// with no zero padding.
pub open spec fn hex_chars(n: int) -> Seq<char>
    decreases n,
{
    if n < 16 {
        seq![hex_digit_char(n)]
    } else {
        hex_chars(n / 16) + seq![hex_digit_char(n % 16)]
    }
}

/// The rendering of a 32-bit value is 1 to 8 hexadecimal digits.
pub proof fn lemma_hex_chars_props(n: int)
    requires
        0 <= n,
    ensures
        1 <= hex_chars(n).len(),
        forall|i: int| 0 <= i < hex_chars(n).len() ==> is_hex_digit(hex_chars(n)[i]),
        n < 0x10 ==> hex_chars(n).len() <= 1,
        n < 0x100 ==> hex_chars(n).len() <= 2,
        n < 0x1000 ==> hex_chars(n).len() <= 3,
        n < 0x10000 ==> hex_chars(n).len() <= 4,
        n < 0x100000 ==> hex_chars(n).len() <= 5,
        n < 0x1000000 ==> hex_chars(n).len() <= 6,
        n < 0x10000000 ==> hex_chars(n).len() <= 7,
        n < 0x100000000 ==> hex_chars(n).len() <= 8,
    decreases n,
{
    if n < 16 {
        assert(is_hex_digit(hex_digit_char(n)));
    } else {
        lemma_hex_chars_props(n / 16);
        assert(is_hex_digit(hex_digit_char(n % 16)));
    }
}

/// Relies on `rand::thread_rng` and `RngCore::fill_bytes`: the buffer is
/// filled in place with random bytes; nothing is assumed of the values.
#[verifier::external_body]
fn fill_random_bytes(buf: &mut Vec<u8>)
    ensures
        final(buf)@.len() == old(buf)@.len(),
{
    rand::thread_rng().fill_bytes(buf.as_mut_slice());
}

/// Reads a 32-bit integer from four bytes, little-endian.
fn u32_from_le(b0: u8, b1: u8, b2: u8, b3: u8) -> (r: u32)
    ensures
        r == b0 as int + 256 * (b1 as int) + 65536 * (b2 as int) + 16777216 * (b3 as int),
{
    b0 as u32 + (b1 as u32) * 256 + (b2 as u32) * 65536 + (b3 as u32) * 16777216
}

/// The one-character string for one hexadecimal digit.
fn hex_char_str(d: u32) -> (r: &'static str)
    requires
        d < 16,
    ensures
        r@ == seq![hex_digit_char(d as int)],
{
    proof {
        reveal_strlit("0");
        reveal_strlit("1");
        reveal_strlit("2");
        reveal_strlit("3");
        reveal_strlit("4");
        reveal_strlit("5");
        reveal_strlit("6");
        reveal_strlit("7");
        reveal_strlit("8");
        reveal_strlit("9");
        reveal_strlit("a");
        reveal_strlit("b");
        reveal_strlit("c");
        reveal_strlit("d");
        reveal_strlit("e");
        reveal_strlit("f");
        assert("0"@ =~= seq!['0']);
        assert("1"@ =~= seq!['1']);
        assert("2"@ =~= seq!['2']);
        assert("3"@ =~= seq!['3']);
        assert("4"@ =~= seq!['4']);
        assert("5"@ =~= seq!['5']);
        assert("6"@ =~= seq!['6']);
        assert("7"@ =~= seq!['7']);
        assert("8"@ =~= seq!['8']);
        assert("9"@ =~= seq!['9']);
        assert("a"@ =~= seq!['a']);
        assert("b"@ =~= seq!['b']);
        assert("c"@ =~= seq!['c']);
        assert("d"@ =~= seq!['d']);
        assert("e"@ =~= seq!['e']);
        assert("f"@ =~= seq!['f']);
    }
    if d == 0 {
        "0"
    } else if d == 1 {
        "1"
    } else if d == 2 {
        "2"
    } else if d == 3 {
        "3"
    } else if d == 4 {
        "4"
    } else if d == 5 {
        "5"
    } else if d == 6 {
        "6"
    } else if d == 7 {
        "7"
    } else if d == 8 {
        "8"
    } else if d == 9 {
        "9"
    } else if d == 10 {
        "a"
    } else if d == 11 {
        "b"
    } else if d == 12 {
        "c"
    } else if d == 13 {
        "d"
    } else if d == 14 {
        "e"
    } else {
        "f"
    }
}

/// Appends the unpadded lowercase hexadecimal rendering of `n` to `out`.
fn push_hex(out: &mut String, n: u32)
    ensures
        final(out)@ == old(out)@ + hex_chars(n as int),
    decreases n,
{
    if n < 16 {
        out.append(hex_char_str(n));
    } else {
        push_hex(out, n / 16);
        out.append(hex_char_str(n % 16));
        proof {
            assert(old(out)@ + hex_chars(n as int / 16) + seq![hex_digit_char(n as int % 16)]
                =~= old(out)@ + hex_chars(n as int));
        }
    }
}

/// Generate a random string that can be used as a multipart boundary.
///
/// The result is 26 dashes followed by the hexadecimal rendering of 12
/// random bytes, read as three little-endian 32-bit integers.
pub fn generate_boundary() -> (r: String)
    ensures
        default_boundary_shape(r@),
{
    let mut bytes: Vec<u8> = Vec::new();
    let mut i: usize = 0;
    while i < 12
        invariant
            bytes@.len() == i,
            i <= 12,
        decreases 12 - i,
    {
        bytes.push(0);
        i = i + 1;
    }
    fill_random_bytes(&mut bytes);
    let a = u32_from_le(bytes[0], bytes[1], bytes[2], bytes[3]);
    let b = u32_from_le(bytes[4], bytes[5], bytes[6], bytes[7]);
    let c = u32_from_le(bytes[8], bytes[9], bytes[10], bytes[11]);

    let mut s = String::new();
    let mut j: usize = 0;
    while j < 26
        invariant
            s@.len() == j,
            j <= 26,
            forall|k: int| 0 <= k < j ==> s@[k] == '-',
        decreases 26 - j,
    {
        s.append("-");
        proof {
            reveal_strlit("-");
        }
        j = j + 1;
    }
    let ghost dashes = s@;
    push_hex(&mut s, a);
    let ghost h1 = hex_chars(a as int);
    push_hex(&mut s, b);
    let ghost h2 = hex_chars(b as int);
    push_hex(&mut s, c);
    let ghost h3 = hex_chars(c as int);
    proof {
        lemma_hex_chars_props(a as int);
        lemma_hex_chars_props(b as int);
        lemma_hex_chars_props(c as int);
        assert(s@ =~= dashes + (h1 + h2 + h3));
        let tail = h1 + h2 + h3;
        assert(forall|i: int| 0 <= i < tail.len() ==> is_hex_digit(tail[i]));
        assert(forall|i: int| 26 <= i < s@.len() ==> s@[i] == tail[i - 26]);
    }
    s
}

} // verus!
