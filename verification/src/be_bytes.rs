//! Numbers in big-endian byte order.

use vstd::prelude::*;

verus! {

/// The number that bytes denote, the first one being the most significant.
pub open spec fn be_value(s: Seq<u8>) -> nat
    decreases s.len(),
{
    if s.len() == 0 {
        0
    } else {
        be_value(s.drop_last()) * 256 + s.last() as nat
    }
}

/// The last `n` bytes of a number, the most significant first.
pub open spec fn be_bytes(v: nat, n: nat) -> Seq<u8>
    decreases n,
{
    if n == 0 {
        Seq::empty()
    } else {
        be_bytes(v / 256, (n - 1) as nat).push((v % 256) as u8)
    }
}

/// Whether a number fits into `n` bytes.
pub open spec fn fits(v: nat, n: nat) -> bool
    decreases n,
{
    if n == 0 {
        v == 0
    } else {
        fits(v / 256, (n - 1) as nat)
    }
}

/// How many numbers `n` bytes can denote.
spec fn range(n: nat) -> nat
    decreases n,
{
    if n == 0 {
        1
    } else {
        256 * range((n - 1) as nat)
    }
}

proof fn lemma_be_bound(s: Seq<u8>)
    ensures
        be_value(s) < range(s.len()),
    decreases s.len(),
{
    if s.len() > 0 {
        lemma_be_bound(s.drop_last());
    }
}

proof fn lemma_range_8()
    ensures
        range(8) == 0x1_0000_0000_0000_0000,
        range(4) == 0x1_0000_0000,
        range(2) == 0x1_0000,
        range(1) == 0x100,
        forall|n: nat| n <= 8 ==> #[trigger] range(n) <= 0x1_0000_0000_0000_0000,
{
    reveal_with_fuel(range, 9);
    assert forall|n: nat| n <= 8 implies #[trigger] range(n) <= 0x1_0000_0000_0000_0000 by {
        if n == 0 {
        } else if n == 1 {
        } else if n == 2 {
        } else if n == 3 {
        } else if n == 4 {
        } else if n == 5 {
        } else if n == 6 {
        } else if n == 7 {
        } else {
        }
    }
}

/// What a few bytes denote is below the number of byte strings of that length.
pub proof fn lemma_be_small(s: Seq<u8>)
    ensures
        s.len() == 2 ==> be_value(s) < 0x1_0000,
        s.len() == 4 ==> be_value(s) < 0x1_0000_0000,
        s.len() == 8 ==> be_value(s) < 0x1_0000_0000_0000_0000,
{
    lemma_be_bound(s);
    lemma_range_8();
}

/// Every byte string has its length in bytes.
pub proof fn lemma_be_bytes_len(v: nat, n: nat)
    ensures
        be_bytes(v, n).len() == n,
    decreases n,
{
    if n > 0 {
        lemma_be_bytes_len(v / 256, (n - 1) as nat);
    }
}

/// Reading the bytes of a number gives the number, if it fits.
pub proof fn lemma_be_round_trip(v: nat, n: nat)
    requires
        fits(v, n),
    ensures
        be_value(be_bytes(v, n)) == v,
        be_bytes(v, n).len() == n,
    decreases n,
{
    if n > 0 {
        lemma_be_round_trip(v / 256, (n - 1) as nat);
        let s = be_bytes(v, n);
        assert(s.drop_last() =~= be_bytes(v / 256, (n - 1) as nat));
    }
}

/// The machine's numbers fit into their bytes.
pub proof fn lemma_fits(a: u8, b: u16, c: u32, d: u64)
    ensures
        fits(a as nat, 1),
        fits(b as nat, 2),
        fits(c as nat, 4),
        fits(d as nat, 8),
{
    reveal_with_fuel(fits, 9);
}

/// The bytes of the number that bytes denote are those bytes.
pub proof fn lemma_be_inverse(s: Seq<u8>)
    ensures
        be_bytes(be_value(s), s.len()) == s,
    decreases s.len(),
{
    if s.len() > 0 {
        lemma_be_inverse(s.drop_last());
        let v = be_value(s);
        assert(v / 256 == be_value(s.drop_last())) by (nonlinear_arith)
            requires
                v == be_value(s.drop_last()) * 256 + s.last() as nat,
                s.last() < 256,
        ;
        assert(v % 256 == s.last()) by (nonlinear_arith)
            requires
                v == be_value(s.drop_last()) * 256 + s.last() as nat,
                s.last() < 256,
        ;
        assert(be_bytes(v, s.len()) =~= s);
    } else {
        assert(be_bytes(be_value(s), s.len()) =~= s);
    }
}

/// Appends the last `n` bytes of a number.
pub fn push_be(out: &mut Vec<u8>, v: u64, n: usize)
    ensures
        final(out)@ == old(out)@ + be_bytes(v as nat, n as nat),
    decreases n,
{
    let ghost start = out@;
    if n > 0 {
        push_be(out, v / 256, n - 1);
        out.push((v % 256) as u8);
    }
    assert(out@ =~= start + be_bytes(v as nat, n as nat));
}

/// The number that `n` bytes at place `at` denote.
pub fn read_be(buf: &[u8], at: usize, n: usize) -> (r: u64)
    requires
        n <= 8,
        at + n <= buf@.len(),
    ensures
        r == be_value(buf@.subrange(at as int, at + n)),
{
    let total: usize = buf.len();
    let mut v: u64 = 0;
    let mut i: usize = 0;
    assert(buf@.subrange(at as int, at as int) =~= Seq::<u8>::empty());
    while i < n
        invariant
            i <= n <= 8,
            at + n <= total,
            total == buf@.len(),
            v == be_value(buf@.subrange(at as int, at + i)),
        decreases n - i,
    {
        proof {
            let s = buf@.subrange(at as int, at + i + 1);
            assert(s.drop_last() =~= buf@.subrange(at as int, at + i));
            assert(s.last() == buf@[at + i]);
            lemma_be_bound(s);
            lemma_range_8();
        }
        v = v * 256 + buf[at + i] as u64;
        i = i + 1;
    }
    v
}

/// The two bytes at place `at` as a number.
pub fn read_u16(buf: &[u8], at: usize) -> (r: u16)
    requires
        at + 2 <= buf@.len(),
    ensures
        r == be_value(buf@.subrange(at as int, at + 2)),
{
    proof {
        lemma_be_small(buf@.subrange(at as int, at + 2));
    }
    read_be(buf, at, 2) as u16
}

/// The four bytes at place `at` as a number.
pub fn read_u32(buf: &[u8], at: usize) -> (r: u32)
    requires
        at + 4 <= buf@.len(),
    ensures
        r == be_value(buf@.subrange(at as int, at + 4)),
{
    proof {
        lemma_be_small(buf@.subrange(at as int, at + 4));
    }
    read_be(buf, at, 4) as u32
}

/// The eight bytes at place `at` as a number.
pub fn read_u64(buf: &[u8], at: usize) -> (r: u64)
    requires
        at + 8 <= buf@.len(),
    ensures
        r == be_value(buf@.subrange(at as int, at + 8)),
{
    read_be(buf, at, 8)
}

/// A copy of the bytes from place `from` up to place `to`.
pub fn slice_of(buf: &[u8], from: usize, to: usize) -> (r: Vec<u8>)
    requires
        from <= to <= buf@.len(),
    ensures
        r@ == buf@.subrange(from as int, to as int),
{
    let mut out: Vec<u8> = Vec::new();
    let mut i: usize = from;
    while i < to
        invariant
            from <= i <= to <= buf@.len(),
            out@ == buf@.subrange(from as int, i as int),
        decreases to - i,
    {
        out.push(buf[i]);
        i = i + 1;
        assert(out@ =~= buf@.subrange(from as int, i as int));
    }
    out
}

/// A copy of bytes.
pub fn copy_bytes(buf: &Vec<u8>) -> (r: Vec<u8>)
    ensures
        r@ == buf@,
{
    let r = slice_of(buf.as_slice(), 0, buf.len());
    assert(r@ =~= buf@);
    r
}

/// Appends bytes.
pub fn push_bytes(out: &mut Vec<u8>, more: &[u8])
    ensures
        final(out)@ == old(out)@ + more@,
{
    let ghost start = out@;
    let mut i: usize = 0;
    assert(out@ =~= start + more@.subrange(0, 0));
    while i < more.len()
        invariant
            i <= more@.len(),
            out@ == start + more@.subrange(0, i as int),
        decreases more@.len() - i,
    {
        out.push(more[i]);
        i = i + 1;
        assert(out@ =~= start + more@.subrange(0, i as int));
    }
    assert(more@.subrange(0, i as int) =~= more@);
}

/// Whether two byte strings are equal.
pub fn same_bytes(a: &Vec<u8>, b: &Vec<u8>) -> (r: bool)
    ensures
        r == (a@ == b@),
{
    if a.len() != b.len() {
        return false;
    }
    let mut i: usize = 0;
    while i < a.len()
        invariant
            i <= a@.len(),
            a@.len() == b@.len(),
            forall|k: int| 0 <= k < i ==> a@[k] == b@[k],
        decreases a@.len() - i,
    {
        if a[i] != b[i] {
            return false;
        }
        i = i + 1;
    }
    assert(a@ =~= b@);
    true
}

// ---- Laws ----

/// In big-endian order the last byte counts least: a byte denotes itself, and one more byte moves
/// what stands before it up.
pub proof fn law_last_byte_counts_least(a: Seq<u8>, b: u8)
    ensures
        be_value(seq![b]) == b,
        be_value(a.push(b)) == be_value(a) * 256 + b,
{
    assert(a.push(b).drop_last() =~= a);
    assert(seq![b].drop_last() =~= Seq::<u8>::empty());
    assert(be_value(seq![b].drop_last()) == 0);
}

/// A number is its bytes: those that denote it, as many as were asked for.
pub proof fn law_bytes_denote_their_number(v: nat, n: nat)
    requires
        fits(v, n),
    ensures
        be_bytes(v, n).len() == n,
        be_value(be_bytes(v, n)) == v,
        v < 256 && n == 2 ==> be_bytes(v, n) == seq![0u8, v as u8],
{
    lemma_be_round_trip(v, n);
    if v < 256 && n == 2 {
        reveal_with_fuel(be_bytes, 3);
        assert(be_bytes(v, n) =~= seq![0u8, v as u8]);
    }
}

} // verus!
