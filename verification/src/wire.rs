//! Low-level byte helpers shared by the framing and envelope codecs:
//! big-endian `u32` packing, decimal ASCII rendering of a `u64`, and byte
//! string comparison.

use vstd::prelude::*;

verus! {

/// The four bytes of `x` in big-endian order.
pub open spec fn spec_u32_to_be_bytes(x: u32) -> Seq<u8> {
    seq![
        ((x >> 24) & 0xff) as u8,
        ((x >> 16) & 0xff) as u8,
        ((x >> 8) & 0xff) as u8,
        (x & 0xff) as u8,
    ]
}

/// The `u32` read from four bytes in big-endian order.
pub open spec fn spec_u32_from_be_bytes(s: Seq<u8>) -> u32
    recommends
        s.len() == 4,
{
    ((s[0] as u32) << 24) | ((s[1] as u32) << 16) | ((s[2] as u32) << 8) | (s[3] as u32)
}

pub proof fn lemma_u32_be_bytes_roundtrip()
    ensures
        forall|x: u32|
            {
                &&& (#[trigger] spec_u32_to_be_bytes(x)).len() == 4
                &&& spec_u32_from_be_bytes(spec_u32_to_be_bytes(x)) == x
            },
        forall|s: Seq<u8>|
            s.len() == 4 ==> #[trigger] spec_u32_to_be_bytes(spec_u32_from_be_bytes(s)) == s,
{
    assert forall|x: u32|
        {
            &&& (#[trigger] spec_u32_to_be_bytes(x)).len() == 4
            &&& spec_u32_from_be_bytes(spec_u32_to_be_bytes(x)) == x
        } by {
        let b0 = ((x >> 24) & 0xff) as u8;
        let b1 = ((x >> 16) & 0xff) as u8;
        let b2 = ((x >> 8) & 0xff) as u8;
        let b3 = (x & 0xff) as u8;
        assert(((b0 as u32) << 24) | ((b1 as u32) << 16) | ((b2 as u32) << 8) | (b3 as u32)
            == x) by (bit_vector)
            requires
                b0 == ((x >> 24) & 0xff) as u8,
                b1 == ((x >> 16) & 0xff) as u8,
                b2 == ((x >> 8) & 0xff) as u8,
                b3 == (x & 0xff) as u8,
        ;
    }
    assert forall|s: Seq<u8>| s.len() == 4 implies #[trigger] spec_u32_to_be_bytes(
        spec_u32_from_be_bytes(s),
    ) == s by {
        let x = spec_u32_from_be_bytes(s);
        let s0 = s[0];
        let s1 = s[1];
        let s2 = s[2];
        let s3 = s[3];
        assert(((x >> 24) & 0xff) as u8 == s0 && ((x >> 16) & 0xff) as u8 == s1 && ((x >> 8)
            & 0xff) as u8 == s2 && (x & 0xff) as u8 == s3) by (bit_vector)
            requires
                x == ((s0 as u32) << 24) | ((s1 as u32) << 16) | ((s2 as u32) << 8) | (s3 as u32),
        ;
        assert(spec_u32_to_be_bytes(x) =~= s);
    }
}

/// Append the big-endian bytes of `x` to `out`.
pub fn push_u32_be(out: &mut Vec<u8>, x: u32)
    ensures
        final(out)@ == old(out)@ + spec_u32_to_be_bytes(x),
{
    out.push(((x >> 24) & 0xff) as u8);
    out.push(((x >> 16) & 0xff) as u8);
    out.push(((x >> 8) & 0xff) as u8);
    out.push((x & 0xff) as u8);
    assert(out@ =~= old(out)@ + spec_u32_to_be_bytes(x));
}

/// Read a big-endian `u32` from `b[i..i + 4]`.
pub fn u32_from_be_at(b: &[u8], i: usize) -> (x: u32)
    requires
        i + 4 <= b@.len(),
    ensures
        x == spec_u32_from_be_bytes(b@.subrange(i as int, i + 4)),
{
    let x = ((b[i] as u32) << 24) | ((b[i + 1] as u32) << 16) | ((b[i + 2] as u32) << 8) | (b[i
        + 3] as u32);
    proof {
        let s = b@.subrange(i as int, i + 4);
        assert(s[0] == b@[i as int] && s[1] == b@[i + 1] && s[2] == b@[i + 2] && s[3] == b@[i + 3]);
    }
    x
}

/// The decimal ASCII digits of `n`, most significant first, no leading zeros
/// (a lone `'0'` for zero).
pub open spec fn spec_dec_digits(n: nat) -> Seq<u8>
    decreases n,
{
    if n < 10 {
        seq![(48 + n) as u8]
    } else {
        spec_dec_digits(n / 10).push((48 + n % 10) as u8)
    }
}

/// Render `n` in decimal ASCII.
pub fn u64_to_decimal(n: u64) -> (r: Vec<u8>)
    ensures
        r@ == spec_dec_digits(n as nat),
{
    let mut out: Vec<u8> = Vec::new();
    let mut cur: u64 = n;
    out.push(48 + (cur % 10) as u8);
    cur = cur / 10;
    while cur > 0
        invariant
            spec_dec_digits(n as nat) == if cur == 0 {
                out@
            } else {
                spec_dec_digits(cur as nat) + out@
            },
            out@.len() >= 1,
        decreases cur,
    {
        let ghost prev: nat = cur as nat;
        let ghost prev_out: Seq<u8> = out@;
        let d: u8 = 48 + (cur % 10) as u8;
        out.insert(0, d);
        cur = cur / 10;
        proof {
            assert(out@ =~= seq![d] + prev_out);
            if cur == 0 {
                assert(spec_dec_digits(prev) =~= seq![d]);
            } else {
                assert(spec_dec_digits(prev) =~= spec_dec_digits(prev / 10).push(d));
                assert(spec_dec_digits(prev) + prev_out =~= spec_dec_digits(cur as nat) + out@);
            }
        }
    }
    out
}

/// The first index at or past `from` holding byte `c`, if any.
pub open spec fn spec_find_from(s: Seq<u8>, c: u8, from: nat) -> Option<nat>
    decreases s.len() - from,
{
    if from >= s.len() {
        None
    } else if s[from as int] == c {
        Some(from)
    } else {
        spec_find_from(s, c, (from + 1) as nat)
    }
}

/// Scan forward from `from` for the byte `c`.
pub fn find_byte_from(s: &[u8], c: u8, from: usize) -> (r: Option<usize>)
    requires
        from <= s@.len(),
    ensures
        match r {
            Some(a) => from <= a < s@.len() && s@[a as int] == c && spec_find_from(
                s@,
                c,
                from as nat,
            ) == Some(a as nat),
            None => spec_find_from(s@, c, from as nat) is None,
        },
{
    let mut i: usize = from;
    while i < s.len()
        invariant
            from <= i <= s@.len(),
            spec_find_from(s@, c, from as nat) == spec_find_from(s@, c, i as nat),
        decreases s@.len() - i,
    {
        if s[i] == c {
            return Some(i);
        }
        i = i + 1;
    }
    None
}

/// Byte-for-byte equality of two byte strings.
pub fn bytes_eq(a: &[u8], b: &[u8]) -> (r: bool)
    ensures
        r == (a@ == b@),
{
    if a.len() != b.len() {
        return false;
    }
    let mut i: usize = 0;
    while i < a.len()
        invariant
            i <= a@.len(),
            a@.len() == b@.len(),
            forall|j: int| 0 <= j < i ==> a@[j] == b@[j],
        decreases a@.len() - i,
    {
        if a[i] != b[i] {
            return false;
        }
        i = i + 1;
    }
    proof {
        assert(a@ =~= b@);
    }
    true
}

} // verus!
