//! The canonical binary encoding: fixed-width little-endian integers,
//! one-byte variant tags, and compact length prefixes for variable fields.
//! Every `encode_*` has a `decode_*` that reads its output back exactly.
use vstd::prelude::*;
use vstd::arithmetic::div_mod::*;
use vstd::arithmetic::power::*;
use parity_scale_codec::{Compact, Decode, Encode};

verus! {

/// `256` to the power `n`.
pub open spec fn pow256(n: nat) -> nat {
    pow(256, n) as nat
}

/// The `n` low bytes of `v`, least significant first.
pub open spec fn le_bytes(v: nat, n: nat) -> Seq<u8> {
    Seq::new(n, |i: int| ((v / pow256(i as nat)) % 256) as u8)
}

/// The number whose little-endian bytes are `s`.
pub open spec fn le_value(s: Seq<u8>) -> nat
    decreases s.len(),
{
    if s.len() == 0 {
        0
    } else {
        s[0] as nat + 256 * le_value(s.drop_first())
    }
}

proof fn lemma_pow256_succ(n: nat)
    ensures
        pow256(n) > 0,
        pow256(n + 1) == 256 * pow256(n),
        pow256(0) == 1,
{
    lemma_pow_positive(256, n);
    lemma_pow_positive(256, n + 1);
    reveal(pow);
}

/// Reading back the `n` low bytes of a number below `256^n` gives the number.
pub proof fn lemma_le_round_trip(v: nat, n: nat)
    requires
        v < pow256(n),
    ensures
        le_value(le_bytes(v, n)) == v,
    decreases n,
{
    if n == 0 {
        assert(le_bytes(v, n).len() == 0);
        reveal(pow);
    } else {
        let s = le_bytes(v, n);
        let t = le_bytes(v / 256, (n - 1) as nat);
        assert forall|i: int| 0 <= i < n - 1 implies s.drop_first()[i] == t[i] by {
            lemma_pow_positive(256, i as nat);
            lemma_div_denominator(v as int, 256, pow(256, i as nat));
            reveal(pow);
            assert(pow(256, (i + 1) as nat) == 256 * pow(256, i as nat));
        }
        assert(s.drop_first() =~= t);
        lemma_pow256_succ((n - 1) as nat);
        assert(v / 256 < pow256((n - 1) as nat)) by {
            lemma_div_by_multiple_is_strongly_ordered(v as int, pow256(n) as int, pow256((n - 1) as nat) as int, 256);
        }
        lemma_le_round_trip(v / 256, (n - 1) as nat);
        assert(v / 1 == v);
        assert(s[0] == (v % 256) as u8);
        lemma_fundamental_div_mod(v as int, 256);
    }
}

/// Appends the `n` low bytes of `v`, least significant first.
pub fn push_le(out: &mut Vec<u8>, v: u64, n: usize)
    requires
        n <= 8,
    ensures
        final(out)@ == old(out)@ + le_bytes(v as nat, n as nat),
{
    let mut x: u64 = v;
    let mut i: usize = 0;
    let ghost start = old(out)@;
    proof {
        lemma_pow256_succ(0);
        assert(le_bytes(v as nat, 0) =~= Seq::<u8>::empty());
    }
    while i < n
        invariant
            i <= n,
            x as nat == v as nat / pow256(i as nat),
            out@ == start + le_bytes(v as nat, i as nat),
        decreases n - i,
    {
        proof {
            lemma_pow_positive(256, i as nat);
            lemma_div_denominator(v as int, pow(256, i as nat), 256);
            reveal(pow);
            assert(pow(256, (i + 1) as nat) == pow(256, i as nat) * 256);
        }
        out.push((x % 256) as u8);
        x = x / 256;
        i = i + 1;
        proof {
            assert(out@ =~= start + le_bytes(v as nat, i as nat));
        }
    }
}

/// The number whose little-endian bytes are `b[pos..pos + n]`.
pub fn read_le(b: &[u8], pos: usize, n: usize) -> (r: u64)
    requires
        n <= 8,
        pos + n <= b@.len(),
    ensures
        r as nat == le_value(b@.subrange(pos as int, pos + n)),
{
    let blen: usize = b.len();
    let mut acc: u64 = 0;
    let mut k: usize = n;
    proof {
        lemma_pow256_succ(0);
        assert(b@.subrange(pos + k, pos + n).len() == 0);
    }
    while k > 0
        invariant
            k <= n <= 8,
            pos + n <= b@.len(),
            blen == b@.len(),
            acc as nat == le_value(b@.subrange(pos + k, pos + n)),
            (acc as nat) < pow256((n - k) as nat),
        decreases k,
    {
        let ghost s = b@.subrange(pos + k - 1, pos + n);
        proof {
            assert(s.drop_first() =~= b@.subrange(pos + k, pos + n));
            assert(s[0] == b@[pos + k - 1]);
            lemma_pow256_le8((n - k + 1) as nat);
            lemma_pow256_succ((n - k) as nat);
            let p = pow256((n - k) as nat);
            let a = acc as nat;
            let byte = b@[pos + k - 1] as nat;
            assert(a * 256 + byte < 256 * p) by (nonlinear_arith)
                requires a < p, byte < 256;
            assert(a * 256 + byte < 0x1_0000_0000_0000_0000);
            assert(a * 256 < 0x1_0000_0000_0000_0000);
        }
        let idx: usize = pos + (k - 1);
        acc = acc * 256 + b[idx] as u64;
        k = k - 1;
    }
    acc
}

proof fn lemma_pow256_le8(n: nat)
    requires
        n <= 8,
    ensures
        pow256(n) <= 0x1_0000_0000_0000_0000,
{
    reveal(pow);
    lemma_pow_increases(256, n, 8);
    reveal_with_fuel(pow, 9);
    assert(pow(256, 8) == 0x1_0000_0000_0000_0000);
}

/// The compact encoding of a length or count.
pub open spec fn compact_bytes(n: u32) -> Seq<u8> {
    if n < 64 {
        seq![(n * 4) as u8]
    } else if n < 0x4000 {
        le_bytes((n * 4 + 1) as nat, 2)
    } else if n < 0x4000_0000 {
        le_bytes((n * 4 + 2) as nat, 4)
    } else {
        seq![3u8] + le_bytes(n as nat, 4)
    }
}

/// The value and length of the compact encoding at the start of `s`, if it
/// holds a canonical one.
pub open spec fn parse_compact(s: Seq<u8>) -> Option<(u32, nat)> {
    if s.len() == 0 {
        None
    } else if s[0] % 4 == 0 {
        Some(((s[0] / 4) as u32, 1))
    } else if s[0] % 4 == 1 {
        if s.len() < 2 {
            None
        } else {
            let x = le_value(s.take(2)) / 4;
            if 64 <= x < 0x4000 {
                Some((x as u32, 2))
            } else {
                None
            }
        }
    } else if s[0] % 4 == 2 {
        if s.len() < 4 {
            None
        } else {
            let x = le_value(s.take(4)) / 4;
            if 0x4000 <= x < 0x4000_0000 {
                Some((x as u32, 4))
            } else {
                None
            }
        }
    } else {
        if s[0] / 4 != 0 || s.len() < 5 {
            None
        } else {
            let x = le_value(s.subrange(1, 5));
            if 0x4000_0000 <= x {
                Some((x as u32, 5))
            } else {
                None
            }
        }
    }
}

/// Relies on parity-scale-codec's `Encode` for `Compact<u32>`: one byte
/// `n << 2` below 64, two bytes `(n << 2) | 1` below 2^14, four bytes
/// `(n << 2) | 2` below 2^30, else the byte 3 and the four bytes of `n`.
#[verifier::external_body]
fn compact_encode(n: u32) -> (r: Vec<u8>)
    ensures
        r@ == compact_bytes(n),
{
    Compact(n).encode()
}

/// Relies on parity-scale-codec's `Decode` for `Compact<u32>`: it reads a
/// canonical compact encoding from the front of the input and hands back
/// the rest.
#[verifier::external_body]
fn compact_decode(b: &[u8]) -> (r: Option<(u32, &[u8])>)
    ensures
        match parse_compact(b@) {
            Some((v, k)) => r matches Some((x, rest)) && x == v && rest@ == b@.skip(k as int),
            None => r is None,
        },
{
    let mut input = b;
    match Compact::<u32>::decode(&mut input) {
        Ok(c) => Some((c.0, input)),
        Err(_) => None,
    }
}

/// Reading the compact encoding of `n` back from the front of any bytes
/// that start with it gives `n` and the encoding's length.
pub proof fn lemma_compact_round_trip(n: u32, rest: Seq<u8>)
    ensures
        parse_compact(compact_bytes(n) + rest) == Some((n, compact_bytes(n).len())),
{
    let e = compact_bytes(n);
    let s = e + rest;
    reveal(pow);
    assert(pow256(0) == 1);
    assert(pow256(1) == 256);
    if n < 64 {
        assert(s[0] == (n * 4) as u8);
    } else if n < 0x4000 {
        let v = (n * 4 + 1) as nat;
        reveal_with_fuel(pow, 3);
        assert(pow256(2) == 0x1_0000);
        lemma_le_round_trip(v, 2);
        assert(s.take(2) =~= e);
        assert(v / 1 == v);
        assert(s[0] == (v % 256) as u8);
        assert(s[0] % 4 == 1) by (nonlinear_arith)
            requires s[0] == (v % 256) as u8, v == n * 4 + 1;
    } else if n < 0x4000_0000 {
        let v = (n * 4 + 2) as nat;
        reveal_with_fuel(pow, 5);
        assert(pow256(4) == 0x1_0000_0000);
        lemma_le_round_trip(v, 4);
        assert(s.take(4) =~= e);
        assert(v / 1 == v);
        assert(s[0] == (v % 256) as u8);
        assert(s[0] % 4 == 2) by (nonlinear_arith)
            requires s[0] == (v % 256) as u8, v == n * 4 + 2;
    } else {
        reveal_with_fuel(pow, 5);
        assert(pow256(4) == 0x1_0000_0000);
        lemma_le_round_trip(n as nat, 4);
        assert(s.subrange(1, 5) =~= le_bytes(n as nat, 4));
    }
}

/// Appends the compact encoding of `n`.
pub fn push_compact(out: &mut Vec<u8>, n: u32)
    ensures
        final(out)@ == old(out)@ + compact_bytes(n),
{
    let mut e = compact_encode(n);
    out.append(&mut e);
}

/// Reads a compact encoding at `pos`: its value and the position after it.
pub fn read_compact(b: &[u8], pos: usize) -> (r: Option<(u32, usize)>)
    requires
        pos <= b@.len(),
    ensures
        match parse_compact(b@.skip(pos as int)) {
            Some((v, k)) => r == Some((v, (pos + k) as usize)),
            None => r is None,
        },
{
    let tail = slice_from(b, pos);
    match compact_decode(tail) {
        Some((v, rest)) => {
            proof {
                let k = parse_compact(b@.skip(pos as int))->Some_0.1;
                assert(rest@.len() == b@.len() - pos - k);
            }
            Some((v, b.len() - rest.len()))
        },
        None => None,
    }
}

/// The bytes of `b` from `pos` on.
pub fn slice_from(b: &[u8], pos: usize) -> (r: &[u8])
    requires
        pos <= b@.len(),
    ensures
        r@ == b@.skip(pos as int),
{
    let (_, tail) = b.split_at(pos);
    tail
}

} // verus!
