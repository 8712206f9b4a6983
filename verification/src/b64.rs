use vstd::prelude::*;
use crate::text::is_ascii_seq;

verus! {

/// The alphabet byte standing for a six-bit value: the usual base64
/// letters and digits, with `.` and `_` in place of `+` and `/`.
pub open spec fn b64_char(v: u8) -> u8 {
    if v < 26 {
        (65 + v) as u8
    } else if v < 52 {
        (71 + v) as u8
    } else if v < 62 {
        (v - 4) as u8
    } else if v == 62 {
        46
    } else {
        95
    }
}

/// Base64 rendering of a byte sequence in the disc-identifier alphabet,
/// with `-` as the padding byte.
pub open spec fn b64_rep(s: Seq<u8>) -> Seq<u8>
    decreases s.len(),
{
    if s.len() == 0 {
        Seq::<u8>::empty()
    } else if s.len() == 1 {
        seq![
            b64_char(s[0] >> 2),
            b64_char((s[0] & 3) << 4),
            45,
            45,
        ]
    } else if s.len() == 2 {
        seq![
            b64_char(s[0] >> 2),
            b64_char(((s[0] & 3) << 4) | (s[1] >> 4)),
            b64_char((s[1] & 15) << 2),
            45,
        ]
    } else {
        seq![
            b64_char(s[0] >> 2),
            b64_char(((s[0] & 3) << 4) | (s[1] >> 4)),
            b64_char(((s[1] & 15) << 2) | (s[2] >> 6)),
            b64_char(s[2] & 63),
        ] + b64_rep(s.skip(3))
    }
}

/// Every byte of a base64 rendering is a printable ASCII character.
pub proof fn lemma_b64_rep_ascii(s: Seq<u8>)
    ensures
        is_ascii_seq(b64_rep(s)),
    decreases s.len(),
{
    if s.len() >= 3 {
        lemma_b64_rep_ascii(s.skip(3));
    }
}

/// Computes the alphabet byte for a six-bit value.
fn b64_char_exec(v: u8) -> (r: u8)
    requires
        v < 64,
    ensures
        r == b64_char(v),
{
    if v < 26 {
        65 + v
    } else if v < 52 {
        71 + v
    } else if v < 62 {
        v - 4
    } else if v == 62 {
        46
    } else {
        95
    }
}

/// Appends the base64 rendering of `s[i..]` to `out`.
fn b64_extend(out: &mut Vec<u8>, s: &Vec<u8>, i: usize)
    requires
        i <= s@.len(),
    ensures
        final(out)@ == old(out)@ + b64_rep(s@.skip(i as int)),
    decreases s@.len() - i,
{
    let n = s.len();
    proof {
        if i < n {
            assert(s@[i as int] == s@.skip(i as int)[0]);
        }
    }
    if i == n {
        proof {
            assert(out@ =~= old(out)@ + b64_rep(s@.skip(i as int)));
        }
    } else if n - i == 1 {
        let a = s[i];
        proof {
            assert(a >> 2 < 64 && (a & 3) << 4 < 64) by (bit_vector);
        }
        let c0 = b64_char_exec(a >> 2);
        let c1 = b64_char_exec((a & 3) << 4);
        out.push(c0);
        out.push(c1);
        out.push(45);
        out.push(45);
        proof {
            assert(out@ =~= old(out)@ + b64_rep(s@.skip(i as int)));
        }
    } else if n - i == 2 {
        let a = s[i];
        let b = s[i + 1];
        proof {
            assert(a >> 2 < 64 && (((a & 3) << 4) | (b >> 4)) < 64 && (b & 15) << 2 < 64)
                by (bit_vector);
            assert(s@[i + 1] == s@.skip(i as int)[1]);
        }
        let c0 = b64_char_exec(a >> 2);
        let c1 = b64_char_exec(((a & 3) << 4) | (b >> 4));
        let c2 = b64_char_exec((b & 15) << 2);
        out.push(c0);
        out.push(c1);
        out.push(c2);
        out.push(45);
        proof {
            assert(out@ =~= old(out)@ + b64_rep(s@.skip(i as int)));
        }
    } else {
        let a = s[i];
        let b = s[i + 1];
        let c = s[i + 2];
        proof {
            assert(a >> 2 < 64 && (((a & 3) << 4) | (b >> 4)) < 64 && (((b & 15) << 2) | (c >> 6))
                < 64 && c & 63 < 64) by (bit_vector);
            assert(s@[i + 1] == s@.skip(i as int)[1]);
            assert(s@[i + 2] == s@.skip(i as int)[2]);
        }
        let c0 = b64_char_exec(a >> 2);
        let c1 = b64_char_exec(((a & 3) << 4) | (b >> 4));
        let c2 = b64_char_exec(((b & 15) << 2) | (c >> 6));
        let c3 = b64_char_exec(c & 63);
        out.push(c0);
        out.push(c1);
        out.push(c2);
        out.push(c3);
        b64_extend(out, s, i + 3);
        proof {
            assert(s@.skip(i as int).skip(3) =~= s@.skip(i + 3));
            assert(out@ =~= old(out)@ + b64_rep(s@.skip(i as int)));
        }
    }
}

/// The base64 rendering of a whole byte vector.
pub(crate) fn b64_encode(s: &Vec<u8>) -> (r: Vec<u8>)
    ensures
        r@ == b64_rep(s@),
{
    let mut out: Vec<u8> = Vec::new();
    b64_extend(&mut out, s, 0);
    proof {
        assert(s@.skip(0) =~= s@);
    }
    out
}

} // verus!
