//! Small executable helpers on byte vectors shared by the codecs.

use vstd::prelude::*;
use vstd::utf8::{
    is_continuation_byte, is_leading_byte_width_1, is_leading_byte_width_2,
    is_leading_byte_width_3, is_leading_byte_width_4, pop_first_scalar, valid_first_scalar,
    valid_utf8,
};

verus! {

/// Whether the bytes form a valid UTF-8 encoding: well-formed leading
/// and continuation bytes, no overlong encodings, no surrogates.
pub fn is_valid_utf8(s: &[u8]) -> (r: bool)
    ensures
        r == valid_utf8(s@),
{
    let n = s.len();
    let mut pos: usize = 0;
    proof {
        assert(s@.skip(0) =~= s@);
    }
    while pos < n
        invariant
            0 <= pos <= n,
            n == s@.len(),
            valid_utf8(s@) == valid_utf8(s@.skip(pos as int)),
        decreases n - pos,
    {
        let ghost rest = s@.skip(pos as int);
        proof {
            assert(rest.len() == n - pos);
            assert(forall|j: int| 0 <= j < rest.len() ==> #[trigger] rest[j] == s@[pos + j]);
        }
        let b0 = s[pos];
        let width: usize = if b0 <= 0x7f {
            1
        } else if 0xc0 <= b0 && b0 <= 0xdf {
            2
        } else if 0xe0 <= b0 && b0 <= 0xef {
            3
        } else if 0xf0 <= b0 && b0 <= 0xf7 {
            4
        } else {
            proof {
                assert(!valid_first_scalar(rest));
            }
            return false;
        };
        if n - pos < width {
            proof {
                assert(!valid_first_scalar(rest));
            }
            return false;
        }
        let c1_ok = if width < 2 {
            true
        } else {
            let b = s[pos + 1];
            0x80 <= b && b <= 0xbf
        };
        let c2_ok = if width < 3 {
            true
        } else {
            let b = s[pos + 2];
            0x80 <= b && b <= 0xbf
        };
        let c3_ok = if width < 4 {
            true
        } else {
            let b = s[pos + 3];
            0x80 <= b && b <= 0xbf
        };
        if !(c1_ok && c2_ok && c3_ok) {
            proof {
                assert(!valid_first_scalar(rest));
            }
            return false;
        }
        // The shape is right; check for overlong encodings and
        // surrogates, which the encoding rules also forbid.
        let ok = if width == 1 {
            proof {
                assert(vstd::utf8::decode_first_codepoint(rest) == (b0 & 0x7f) as u32);
                assert(((b0 & 0x7f) as u32) < 0xd800) by (bit_vector);
            }
            true
        } else if width == 2 {
            let cp = (((b0 & 0x1f) as u32) << 6u32) | ((s[pos + 1] & 0x3f) as u32);
            proof {
                assert(vstd::utf8::decode_first_codepoint(rest) == cp);
            }
            0x80 <= cp && !(0xd800 <= cp && cp <= 0xdfff)
        } else if width == 3 {
            let cp = (((b0 & 0x0f) as u32) << 12u32) | (((s[pos + 1] & 0x3f) as u32) << 6u32) | ((
            s[pos + 2] & 0x3f) as u32);
            proof {
                assert(vstd::utf8::decode_first_codepoint(rest) == cp);
            }
            0x800 <= cp && !(0xd800 <= cp && cp <= 0xdfff)
        } else {
            let cp = (((b0 & 0x07) as u32) << 18u32) | (((s[pos + 1] & 0x3f) as u32) << 12u32) | ((
            (s[pos + 2] & 0x3f) as u32) << 6u32) | ((s[pos + 3] & 0x3f) as u32);
            proof {
                assert(vstd::utf8::decode_first_codepoint(rest) == cp);
            }
            0x10000 <= cp && cp <= 0x10ffff && !(0xd800 <= cp && cp <= 0xdfff)
        };
        proof {
            assert(vstd::utf8::length_of_first_codepoint(rest) == width);
            assert(ok == valid_first_scalar(rest));
        }
        if !ok {
            return false;
        }
        proof {
            assert(valid_utf8(rest) == valid_utf8(s@.skip(pos + width))) by {
                assert(pop_first_scalar(rest) =~= s@.skip(pos + width));
            }
        }
        pos = pos + width;
    }
    proof {
        assert(valid_utf8(s@.skip(n as int)));
    }
    true
}

/// Appends all of `src` to `dst`.
pub fn push_bytes(dst: &mut Vec<u8>, src: &[u8])
    ensures
        final(dst)@ == old(dst)@ + src@,
{
    let mut i: usize = 0;
    while i < src.len()
        invariant
            0 <= i <= src@.len(),
            dst@ == old(dst)@ + src@.take(i as int),
        decreases src@.len() - i,
    {
        dst.push(src[i]);
        proof {
            assert(src@.take(i + 1) =~= src@.take(i as int).push(src@[i as int]));
        }
        i = i + 1;
    }
    proof {
        assert(src@.take(src@.len() as int) =~= src@);
    }
}

/// Whether two byte slices hold the same bytes.
pub fn bytes_eq(a: &[u8], b: &[u8]) -> (r: bool)
    ensures
        r == (a@ == b@),
{
    if a.len() != b.len() {
        proof {
            assert(a@.len() != b@.len());
        }
        return false;
    }
    let mut i: usize = 0;
    while i < a.len()
        invariant
            0 <= i <= a@.len(),
            a@.len() == b@.len(),
            forall|j: int| 0 <= j < i ==> a@[j] == b@[j],
        decreases a@.len() - i,
    {
        if a[i] != b[i] {
            return false;
        }
        i = i + 1;
    }
    proof {
        assert(a@ =~= b@);
    }
    true
}

/// The position of the first byte string in `v` equal to `x`, if any.
pub fn find_bytes(v: &Vec<Vec<u8>>, x: &[u8]) -> (r: Option<usize>)
    ensures
        match r {
            Some(i) => 0 <= i < v@.len() && v@[i as int]@ == x@ && forall|j: int|
                0 <= j < i ==> v@[j]@ != x@,
            None => forall|j: int| 0 <= j < v@.len() ==> v@[j]@ != x@,
        },
{
    let mut i: usize = 0;
    while i < v.len()
        invariant
            0 <= i <= v@.len(),
            forall|j: int| 0 <= j < i ==> v@[j]@ != x@,
        decreases v@.len() - i,
    {
        if bytes_eq(v[i].as_slice(), x) {
            return Some(i);
        }
        i = i + 1;
    }
    None
}

/// A copy of a list of byte strings, equal string by string.
pub fn clone_names(v: &Vec<Vec<u8>>) -> (r: Vec<Vec<u8>>)
    ensures
        r@.len() == v@.len(),
        forall|i: int| 0 <= i < v@.len() ==> #[trigger] r@[i]@ == v@[i]@,
{
    let mut out: Vec<Vec<u8>> = Vec::new();
    let mut i: usize = 0;
    while i < v.len()
        invariant
            0 <= i <= v@.len(),
            out@.len() == i,
            forall|j: int| 0 <= j < i ==> #[trigger] out@[j]@ == v@[j]@,
        decreases v@.len() - i,
    {
        out.push(vstd::slice::slice_to_vec(v[i].as_slice()));
        i = i + 1;
    }
    out
}

/// The four big-endian bytes of a 32-bit value, most significant first.
pub open spec fn spec_u32_be(x: u32) -> Seq<u8> {
    seq![
        (x / 0x1000000) as u8,
        ((x / 0x10000) % 0x100) as u8,
        ((x / 0x100) % 0x100) as u8,
        (x % 0x100) as u8,
    ]
}

/// The 32-bit value read from four big-endian bytes.
pub open spec fn spec_u32_from_be(s: Seq<u8>) -> u32
    recommends
        s.len() == 4,
{
    (s[0] * 0x1000000 + s[1] * 0x10000 + s[2] * 0x100 + s[3]) as u32
}

/// Reading back the four big-endian bytes of `x` yields `x`.
pub proof fn lemma_u32_be_roundtrip(x: u32)
    ensures
        spec_u32_from_be(spec_u32_be(x)) == x,
{
    assert((((x / 0x1000000) as u8) * 0x1000000 + (((x / 0x10000) % 0x100) as u8) * 0x10000 + (((x
        / 0x100) % 0x100) as u8) * 0x100 + ((x % 0x100) as u8)) as u32 == x) by (bit_vector);
}

/// Appends the four big-endian bytes of `x` to `dst`.
pub fn push_u32_be(dst: &mut Vec<u8>, x: u32)
    ensures
        final(dst)@ == old(dst)@ + spec_u32_be(x),
{
    let b0 = (x >> 24) as u8;
    let b1 = (x >> 16) as u8;
    let b2 = (x >> 8) as u8;
    let b3 = x as u8;
    proof {
        assert(((x >> 24) as u8) == ((x / 0x1000000) as u8) && ((x >> 16) as u8) == (((x / 0x10000)
            % 0x100) as u8) && ((x >> 8) as u8) == (((x / 0x100) % 0x100) as u8) && (x as u8) == ((
        x % 0x100) as u8)) by (bit_vector);
    }
    dst.push(b0);
    dst.push(b1);
    dst.push(b2);
    dst.push(b3);
    proof {
        assert(dst@ =~= old(dst)@ + spec_u32_be(x));
    }
}

/// Reads the 32-bit value held big-endian in `src[pos .. pos + 4]`.
pub fn read_u32_be(src: &[u8], pos: usize) -> (r: u32)
    requires
        pos + 4 <= src@.len(),
    ensures
        r == spec_u32_from_be(src@.subrange(pos as int, pos + 4)),
{
    let b0 = src[pos] as u32;
    let b1 = src[pos + 1] as u32;
    let b2 = src[pos + 2] as u32;
    let b3 = src[pos + 3] as u32;
    proof {
        let s = src@.subrange(pos as int, pos + 4);
        assert(s[0] == src@[pos as int] && s[1] == src@[pos + 1] && s[2] == src@[pos + 2] && s[3]
            == src@[pos + 3]);
        let c0 = s[0] as u32;
        let c1 = s[1] as u32;
        let c2 = s[2] as u32;
        let c3 = s[3] as u32;
        assert(c0 * 0x1000000 + c1 * 0x10000 + c2 * 0x100 + c3 <= 0xffffffff) by (bit_vector)
            requires
                c0 < 0x100 && c1 < 0x100 && c2 < 0x100 && c3 < 0x100,
        ;
    }
    b0 * 0x1000000 + b1 * 0x10000 + b2 * 0x100 + b3
}

/// The ASCII decimal digits of `n`, most significant first.
pub open spec fn spec_decimal(n: nat) -> Seq<u8>
    decreases n,
{
    if n < 10 {
        seq![(48 + n) as u8]
    } else {
        spec_decimal(n / 10).push((48 + n % 10) as u8)
    }
}

/// Writes `n` in ASCII decimal.
pub fn decimal_bytes(n: u64) -> (r: Vec<u8>)
    ensures
        r@ == spec_decimal(n as nat),
{
    decimal_bytes_rec(n)
}

fn decimal_bytes_rec(n: u64) -> (r: Vec<u8>)
    ensures
        r@ == spec_decimal(n as nat),
    decreases n,
{
    if n < 10 {
        let mut v: Vec<u8> = Vec::new();
        v.push(48 + (n as u8));
        proof {
            assert(v@ =~= spec_decimal(n as nat));
        }
        v
    } else {
        let mut v = decimal_bytes_rec(n / 10);
        v.push(48 + ((n % 10) as u8));
        v
    }
}

} // verus!
