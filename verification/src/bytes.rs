//! Fixed-width integers as big- and little-endian byte strings.
use vstd::prelude::*;

verus! {

pub open spec fn pow256(k: int) -> int
    decreases k,
{
    if k <= 0 { 1 } else { 256 * pow256(k - 1) }
}

/// The `n` big-endian octets of `v`.
pub open spec fn be_bytes(v: int, n: nat) -> Seq<u8> {
    Seq::new(n, |i: int| ((v / pow256(n - 1 - i)) % 256) as u8)
}

/// The `n` little-endian octets of `v`.
pub open spec fn le_bytes(v: int, n: nat) -> Seq<u8> {
    Seq::new(n, |i: int| ((v / pow256(i)) % 256) as u8)
}

proof fn lemma_pow256_pos(k: int)
    ensures
        pow256(k) >= 1,
    decreases k,
{
    if k > 0 {
        lemma_pow256_pos(k - 1);
    }
}

proof fn lemma_pow256_step(k: int)
    requires
        k >= 1,
    ensures
        pow256(k) / 256 == pow256(k - 1),
        pow256(k) == 256 * pow256(k - 1),
{
    let p = pow256(k - 1);
    assert((256 * p) / 256 == p) by (nonlinear_arith);
}

/// The value `256^k` for small `k`.
pub fn pow256_exec(k: usize) -> (r: u128)
    requires
        k <= 15,
    ensures
        r as int == pow256(k as int),
{
    let mut r: u128 = 1;
    let mut i: usize = 0;
    while i < k
        invariant
            i <= k <= 15,
            r as int == pow256(i as int),
        decreases k - i,
    {
        proof {
            lemma_pow256_step(i + 1);
            lemma_pow256_mono(i + 1, 15);
            reveal_with_fuel(pow256, 16);
            assert(pow256(15) == 1329227995784915872903807060280344576);
        }
        r = r * 256;
        i = i + 1;
    }
    r
}

proof fn lemma_pow256_mono(a: int, b: int)
    requires
        0 <= a <= b,
    ensures
        pow256(a) <= pow256(b),
    decreases b - a,
{
    if a < b {
        lemma_pow256_mono(a, b - 1);
        lemma_pow256_pos(b - 1);
    }
}

/// Appends the `n` big-endian octets of `v`.
pub fn push_be(out: &mut Vec<u8>, v: u128, n: usize)
    requires
        1 <= n <= 16,
    ensures
        final(out)@ == old(out)@ + be_bytes(v as int, n as nat),
{
    let mut i: usize = 0;
    let ghost start = out@;
    while i < n
        invariant
            1 <= n <= 16,
            i <= n,
            start == old(out)@,
            out@ == start + be_bytes(v as int, n as nat).take(i as int),
        decreases n - i,
    {
        let d = pow256_exec(n - 1 - i);
        proof {
            lemma_pow256_pos((n - 1 - i) as int);
        }
        let b = ((v / d) % 256) as u8;
        out.push(b);
        i = i + 1;
        assert(out@ == start + be_bytes(v as int, n as nat).take(i as int));
    }
    assert(be_bytes(v as int, n as nat).take(n as int) == be_bytes(v as int, n as nat));
}

/// Appends the `n` little-endian octets of `v`.
pub fn push_le(out: &mut Vec<u8>, v: u128, n: usize)
    requires
        1 <= n <= 16,
    ensures
        final(out)@ == old(out)@ + le_bytes(v as int, n as nat),
{
    let mut i: usize = 0;
    let ghost start = out@;
    while i < n
        invariant
            1 <= n <= 16,
            i <= n,
            start == old(out)@,
            out@ == start + le_bytes(v as int, n as nat).take(i as int),
        decreases n - i,
    {
        let d = pow256_exec(i);
        proof {
            lemma_pow256_pos(i as int);
        }
        let b = ((v / d) % 256) as u8;
        out.push(b);
        i = i + 1;
        assert(out@ == start + le_bytes(v as int, n as nat).take(i as int));
    }
    assert(le_bytes(v as int, n as nat).take(n as int) == le_bytes(v as int, n as nat));
}

/// Appends all of `src`.
pub fn push_slice(out: &mut Vec<u8>, src: &[u8])
    ensures
        final(out)@ == old(out)@ + src@,
{
    let mut i: usize = 0;
    while i < src.len()
        invariant
            i <= src.len(),
            out@ == old(out)@ + src@.take(i as int),
        decreases src.len() - i,
    {
        out.push(src[i]);
        i = i + 1;
        assert(out@ == old(out)@ + src@.take(i as int));
    }
    assert(src@.take(src.len() as int) == src@);
}

/// A copy of `src[from..to]`.
pub fn copy_range(src: &[u8], from: usize, to: usize) -> (r: Vec<u8>)
    requires
        from <= to <= src@.len(),
    ensures
        r@ == src@.subrange(from as int, to as int),
{
    let mut r: Vec<u8> = Vec::new();
    let mut i: usize = from;
    while i < to
        invariant
            from <= i <= to <= src@.len(),
            r@ == src@.subrange(from as int, i as int),
        decreases to - i,
    {
        r.push(src[i]);
        i = i + 1;
        assert(r@ == src@.subrange(from as int, i as int));
    }
    r
}

/// The number that the octets `s` spell, most significant first.
pub open spec fn be_value(s: Seq<u8>) -> nat
    decreases s.len(),
{
    if s.len() == 0 { 0 } else { be_value(s.drop_last()) * 256 + s.last() as nat }
}

pub proof fn lemma_be_value_bound(s: Seq<u8>)
    ensures
        be_value(s) < pow256(s.len() as int),
    decreases s.len(),
{
    if s.len() > 0 {
        lemma_be_value_bound(s.drop_last());
        lemma_pow256_step(s.len() as int);
        let v = be_value(s.drop_last());
        let p = pow256(s.len() - 1);
        let l = s.last() as nat;
        assert(v * 256 + l < 256 * p) by (nonlinear_arith)
            requires v < p, l < 256;
    }
}

/// The number that the `n` octets of `buf` at `from` spell, most
/// significant first.
pub fn read_be(buf: &[u8], from: usize, n: usize) -> (r: u128)
    requires
        from + n <= buf@.len(),
        n <= 16,
    ensures
        r as nat == be_value(buf@.subrange(from as int, from + n)),
{
    let mut r: u128 = 0;
    let mut i: usize = 0;
    while i < n
        invariant
            i <= n <= 16,
            from + n <= buf.len(),
            r as nat == be_value(buf@.subrange(from as int, from + i)),
        decreases n - i,
    {
        let ghost s = buf@.subrange(from as int, from + i + 1);
        assert(s.drop_last() == buf@.subrange(from as int, from + i));
        proof {
            lemma_be_value_bound(s.drop_last());
            lemma_pow256_mono(i as int, 15);
            reveal_with_fuel(pow256, 16);
            assert(pow256(15) == 1329227995784915872903807060280344576);
        }
        let b = buf[from + i];
        assert((r as int) * 256 + (b as int) <= u128::MAX) by (nonlinear_arith)
            requires (r as int) < 1329227995784915872903807060280344576int, (b as int) < 256;
        r = r * 256 + b as u128;
        i = i + 1;
    }
    r
}

/// Writing out the number that octets spell gives the octets back.
pub proof fn lemma_be_bytes_of_value(s: Seq<u8>)
    ensures
        be_bytes(be_value(s) as int, s.len()) == s,
    decreases s.len(),
{
    let n = s.len();
    if n > 0 {
        let t = s.drop_last();
        let l = s.last() as int;
        let w = be_value(t) as int;
        let v = be_value(s) as int;
        lemma_be_bytes_of_value(t);
        assert(v == w * 256 + l);
        vstd::arithmetic::div_mod::lemma_fundamental_div_mod_converse(v, 256, w, l);
        assert forall|i: int| 0 <= i < n implies #[trigger] be_bytes(v, n)[i] == s[i] by {
            if i == n - 1 {
                lemma_pow256_pos(0);
                assert(pow256(0) == 1);
                assert(v / 1 == v);
                assert(be_bytes(v, n)[i] == ((v / pow256(0)) % 256) as u8);
            } else {
                let k = n - 1 - i;
                lemma_pow256_step(k);
                lemma_pow256_pos(k - 1);
                vstd::arithmetic::div_mod::lemma_div_denominator(v, 256, pow256(k - 1));
                assert(v / pow256(k) == w / pow256(k - 1));
                assert(be_bytes(w, (n - 1) as nat)[i] == t[i]);
                assert(be_bytes(w, (n - 1) as nat)[i] == ((w / pow256(n - 2 - i)) % 256) as u8);
            }
        }
        assert(be_bytes(v, n) =~= s);
    } else {
        assert(be_bytes(be_value(s) as int, 0) =~= s);
    }
}

} // verus!
