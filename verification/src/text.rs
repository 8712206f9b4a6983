use vstd::prelude::*;

verus! {

/// True when every byte of `s` is a valid ASCII code point.
pub open spec fn is_ascii_seq(s: Seq<u8>) -> bool {
    forall|i: int| 0 <= i < s.len() ==> s[i] < 128
}

/// The characters spelled by a sequence of ASCII bytes, one per byte.
pub open spec fn ascii_chars(s: Seq<u8>) -> Seq<char> {
    s.map_values(|b: u8| b as char)
}

/// Relies on String::from_utf8: bytes below 0x80 are one-byte UTF-8
/// encodings, so they decode one-for-one to the chars with the same
/// code points, and decoding ASCII bytes never fails.
#[verifier::external_body]
pub(crate) fn string_from_ascii(v: Vec<u8>) -> (r: String)
    requires
        is_ascii_seq(v@),
    ensures
        r@ == ascii_chars(v@),
{
    String::from_utf8(v).unwrap()
}

/// Decimal digit byte for a value below ten.
pub open spec fn dec_digit(d: int) -> u8 {
    (48 + d) as u8
}

/// The shortest decimal rendering of a natural number, as ASCII bytes.
pub open spec fn dec_rep(n: nat) -> Seq<u8>
    decreases n,
{
    if n < 10 {
        seq![dec_digit(n as int)]
    } else {
        dec_rep(n / 10).push(dec_digit((n % 10) as int))
    }
}

/// Every byte of a decimal rendering is an ASCII digit.
pub proof fn lemma_dec_rep_ascii(n: nat)
    ensures
        is_ascii_seq(dec_rep(n)),
    decreases n,
{
    if n >= 10 {
        lemma_dec_rep_ascii(n / 10);
    }
}

/// Appends the decimal rendering of `n` to `out`.
pub(crate) fn push_dec(out: &mut Vec<u8>, n: u32)
    ensures
        final(out)@ == old(out)@ + dec_rep(n as nat),
    decreases n,
{
    if n < 10 {
        out.push(48 + n as u8);
        proof {
            assert(out@ =~= old(out)@ + dec_rep(n as nat));
        }
    } else {
        push_dec(out, n / 10);
        out.push(48 + (n % 10) as u8);
        proof {
            assert(out@ =~= old(out)@ + dec_rep(n as nat));
        }
    }
}

/// Hexadecimal digit byte for a value below sixteen; upper case when asked.
pub open spec fn hex_digit(d: int, upper: bool) -> u8 {
    if d < 10 {
        (48 + d) as u8
    } else if upper {
        (55 + d) as u8
    } else {
        (87 + d) as u8
    }
}

/// A fixed-width hexadecimal rendering of `n`, most significant digit first.
pub open spec fn hex_rep(n: u32, width: nat, upper: bool) -> Seq<u8>
    decreases width,
{
    if width == 0 {
        Seq::empty()
    } else {
        hex_rep(n >> 4, (width - 1) as nat, upper).push(hex_digit((n & 15) as int, upper))
    }
}

/// Every byte of a hexadecimal rendering is a printable ASCII character.
pub proof fn lemma_hex_rep_ascii(n: u32, width: nat, upper: bool)
    ensures
        is_ascii_seq(hex_rep(n, width, upper)),
    decreases width,
{
    if width > 0 {
        lemma_hex_rep_ascii(n >> 4, (width - 1) as nat, upper);
        assert(n & 15 < 16) by (bit_vector);
    }
}

/// Appends the `width`-digit hexadecimal rendering of `n` to `out`.
pub(crate) fn push_hex(out: &mut Vec<u8>, n: u32, width: usize, upper: bool)
    ensures
        final(out)@ == old(out)@ + hex_rep(n, width as nat, upper),
    decreases width,
{
    if width == 0 {
        proof {
            assert(out@ =~= old(out)@ + hex_rep(n, 0, upper));
        }
    } else {
        push_hex(out, n >> 4, width - 1, upper);
        let d: u32 = n & 15;
        proof {
            assert(n & 15 < 16) by (bit_vector);
        }
        let b: u8 = if d < 10 {
            48 + d as u8
        } else if upper {
            55 + d as u8
        } else {
            87 + d as u8
        };
        out.push(b);
        proof {
            assert(out@ =~= old(out)@ + hex_rep(n, width as nat, upper));
        }
    }
}

/// The sum of the decimal digits of a number; zero for anything not positive.
pub open spec fn digit_sum(n: int) -> int
    decreases n,
{
    if n <= 0 {
        0
    } else {
        digit_sum(n / 10) + n % 10
    }
}

/// The digit sum of a number never exceeds the number itself.
pub proof fn lemma_digit_sum_le(n: int)
    ensures
        0 <= digit_sum(n),
        n >= 0 ==> digit_sum(n) <= n,
    decreases n,
{
    if n > 0 {
        lemma_digit_sum_le(n / 10);
    }
}

/// Computes the sum of the decimal digits of `n`.
pub(crate) fn digit_sum_exec(n: u32) -> (r: u32)
    ensures
        r == digit_sum(n as int),
    decreases n,
{
    if n == 0 {
        0
    } else {
        proof {
            lemma_digit_sum_le(n as int / 10);
        }
        digit_sum_exec(n / 10) + n % 10
    }
}

} // verus!
