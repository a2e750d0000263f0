//! Big-endian integers and byte escaping, as mathematical functions on byte sequences.
use vstd::prelude::*;

verus! {

/// 256 to the power `n`.
pub open spec fn pow256(n: nat) -> nat
    decreases n,
{
    if n == 0 {
        1
    } else {
        256 * pow256((n - 1) as nat)
    }
}

/// The unsigned number that the bytes `s` spell in big-endian order.
pub open spec fn be_unsigned(s: Seq<u8>) -> nat
    decreases s.len(),
{
    if s.len() == 0 {
        0
    } else {
        be_unsigned(s.drop_last()) * 256 + s.last() as nat
    }
}

/// The two's-complement signed number that the bytes `s` spell in big-endian order.
pub open spec fn be_signed(s: Seq<u8>) -> int {
    let u = be_unsigned(s);
    if s.len() > 0 && u >= pow256(s.len()) / 2 {
        u - pow256(s.len())
    } else {
        u as int
    }
}

/// The `n` lowest base-256 digits of `u`, most significant first.
pub open spec fn be_digits(u: nat, n: nat) -> Seq<u8>
    decreases n,
{
    if n == 0 {
        Seq::empty()
    } else {
        be_digits(u / 256, (n - 1) as nat).push((u % 256) as u8)
    }
}

/// The 64-bit two's-complement pattern of `v`, read as an unsigned number.
pub open spec fn twos_i64(v: i64) -> nat {
    if v < 0 {
        (v + 0x1_0000_0000_0000_0000) as nat
    } else {
        v as nat
    }
}

/// `v` as 8 big-endian bytes (what `i64::to_be_bytes` gives).
pub open spec fn be_bytes_i64(v: i64) -> Seq<u8> {
    be_digits(twos_i64(v), 8)
}

pub proof fn lemma_pow256_positive(n: nat)
    ensures
        pow256(n) > 0,
    decreases n,
{
    if n > 0 {
        lemma_pow256_positive((n - 1) as nat);
    }
}

/// The digits of `u` spell `u` modulo `256^n`.
pub proof fn lemma_be_digits(u: nat, n: nat)
    ensures
        be_digits(u, n).len() == n,
        be_unsigned(be_digits(u, n)) == u % pow256(n),
    decreases n,
{
    if n == 0 {
    } else {
        let p = pow256((n - 1) as nat);
        lemma_pow256_positive((n - 1) as nat);
        lemma_be_digits(u / 256, (n - 1) as nat);
        let d = be_digits(u, n);
        assert(d.drop_last() =~= be_digits(u / 256, (n - 1) as nat));
        vstd::arithmetic::div_mod::lemma_mod_breakdown(u as int, 256, p as int);
        assert(pow256(n) == 256 * p);
    }
}

/// Eight big-endian bytes of `v` read back as a signed number give `v`.
pub proof fn lemma_be_bytes_i64(v: i64)
    ensures
        be_bytes_i64(v).len() == 8,
        be_signed(be_bytes_i64(v)) == v,
{
    lemma_be_digits(twos_i64(v), 8);
    assert(pow256(8) == 0x1_0000_0000_0000_0000) by {
        reveal_with_fuel(pow256, 9);
    }
    let t = twos_i64(v);
    assert(t < 0x1_0000_0000_0000_0000);
    assert(t % 0x1_0000_0000_0000_0000 == t) by {
        vstd::arithmetic::div_mod::lemma_small_mod(t, 0x1_0000_0000_0000_0000);
    }
}

/// The `n` lowest base-256 digits of `u`.
fn be_digits_exec(u: u64, n: usize) -> (r: Vec<u8>)
    requires
        n <= 8,
    ensures
        r@ == be_digits(u as nat, n as nat),
    decreases n,
{
    if n == 0 {
        Vec::new()
    } else {
        let mut r = be_digits_exec(u / 256, n - 1);
        r.push((u % 256) as u8);
        r
    }
}

/// `v` as 8 big-endian bytes.
pub fn i64_to_be_bytes(v: i64) -> (r: Vec<u8>)
    ensures
        r@ == be_bytes_i64(v),
{
    let t: u64 = if v < 0 {
        (v as i128 + 0x1_0000_0000_0000_0000i128) as u64
    } else {
        v as u64
    };
    be_digits_exec(t, 8)
}

/// The `w`-byte two's-complement pattern of `n`, read as an unsigned number.
pub open spec fn twos(n: int, w: nat) -> nat {
    if n < 0 {
        (n + pow256(w)) as nat
    } else {
        n as nat
    }
}

/// The `w` big-endian bytes of the signed number `n`.
pub open spec fn be_bytes(n: int, w: nat) -> Seq<u8> {
    be_digits(twos(n, w), w)
}

/// Law: a signed number that fits in `w` bytes, written as `w` big-endian
/// two's-complement bytes, reads back as itself.
pub proof fn lemma_be_bytes_signed(n: int, w: nat)
    requires
        w > 0,
        -(pow256(w) / 2) <= n < pow256(w) / 2,
    ensures
        be_bytes(n, w).len() == w,
        be_signed(be_bytes(n, w)) == n,
{
    let p = pow256(w);
    lemma_pow256_positive((w - 1) as nat);
    assert(p == 256 * pow256((w - 1) as nat));
    assert(p / 2 == 128 * pow256((w - 1) as nat));
    let t = twos(n, w);
    assert(t < p);
    lemma_be_digits(t, w);
    vstd::arithmetic::div_mod::lemma_small_mod(t, p);
}

/// One byte, preceded by `esc` when `pred` holds of it.
pub open spec fn escape_one(b: u8, pred: spec_fn(u8) -> bool, esc: u8) -> Seq<u8> {
    if pred(b) {
        seq![esc, b]
    } else {
        seq![b]
    }
}

/// `s` with `esc` put before every byte of which `pred` holds.
pub open spec fn escaped(s: Seq<u8>, pred: spec_fn(u8) -> bool, esc: u8) -> Seq<u8>
    decreases s.len(),
{
    if s.len() == 0 {
        Seq::empty()
    } else {
        escape_one(s[0], pred, esc) + escaped(s.drop_first(), pred, esc)
    }
}

/// Escaping distributes over concatenation.
pub proof fn lemma_escaped_concat(a: Seq<u8>, b: Seq<u8>, pred: spec_fn(u8) -> bool, esc: u8)
    ensures
        escaped(a + b, pred, esc) == escaped(a, pred, esc) + escaped(b, pred, esc),
    decreases a.len(),
{
    if a.len() == 0 {
        assert(a + b =~= b);
    } else {
        lemma_escaped_concat(a.drop_first(), b, pred, esc);
        assert((a + b).drop_first() =~= a.drop_first() + b);
        assert(escaped(a + b, pred, esc) =~= escape_one(a[0], pred, esc) + (escaped(
            a.drop_first(),
            pred,
            esc,
        ) + escaped(b, pred, esc)));
    }
}

/// Escaping a sequence extended by one byte.
pub proof fn lemma_escaped_push(a: Seq<u8>, x: u8, pred: spec_fn(u8) -> bool, esc: u8)
    ensures
        escaped(a.push(x), pred, esc) == escaped(a, pred, esc) + escape_one(x, pred, esc),
{
    lemma_escaped_concat(a, seq![x], pred, esc);
    assert(a.push(x) =~= a + seq![x]);
    assert(escaped(seq![x], pred, esc) =~= escape_one(x, pred, esc)) by {
        assert(seq![x].drop_first() =~= Seq::<u8>::empty());
        assert(escaped(seq![x].drop_first(), pred, esc) =~= Seq::<u8>::empty());
        assert(escape_one(x, pred, esc) + Seq::<u8>::empty() =~= escape_one(x, pred, esc));
    }
}

} // verus!
