//! The byte-level vocabulary of the protocol: little-endian integers and
//! NUL-terminated strings, read from a byte slice at a position and appended
//! to a byte vector.
//!
//! Every reader is given as a spec function on `(bytes, position)` that yields
//! the value and the position after it, or an I/O error when the bytes run
//! out; the executable readers are proved to agree with it.
use crate::errors::{eof_error, Error, ErrorView, IoErrorKind};
use vstd::prelude::*;

verus! {

// ---------------------------------------------------------------------------
// Mathematical model
// ---------------------------------------------------------------------------

/// `256` to the power `n`.
pub open spec fn pow256(n: nat) -> nat
    decreases n,
{
    if n == 0 {
        1
    } else {
        256 * pow256((n - 1) as nat)
    }
}

/// The unsigned number that `b` spells in little-endian order.
pub open spec fn le_value(b: Seq<u8>) -> nat
    decreases b.len(),
{
    if b.len() == 0 {
        0
    } else {
        b[0] as nat + 256 * le_value(b.drop_first())
    }
}

/// The `n` low bytes of `x`, least significant first.
pub open spec fn le_bytes(x: nat, n: nat) -> Seq<u8>
    decreases n,
{
    if n == 0 {
        Seq::empty()
    } else {
        seq![(x % 256) as u8] + le_bytes(x / 256, (n - 1) as nat)
    }
}

/// The two's-complement reading of a 32-bit pattern.
pub open spec fn i32_from_bits(u: nat) -> int {
    if u < 0x8000_0000 {
        u as int
    } else {
        u - 0x1_0000_0000
    }
}

/// The 32-bit two's-complement pattern of `x`.
pub open spec fn i32_bits(x: int) -> nat {
    if x >= 0 {
        x as nat
    } else {
        (x + 0x1_0000_0000) as nat
    }
}

/// Reads `n` bytes at the front of `s` as an unsigned little-endian number;
/// yields the number and the bytes after it.
pub open spec fn spec_uint(s: Seq<u8>, n: nat) -> Result<(nat, Seq<u8>), ErrorView> {
    if n <= s.len() {
        Ok((le_value(s.take(n as int)), s.skip(n as int)))
    } else {
        Err(ErrorView::Io(IoErrorKind::UnexpectedEof))
    }
}

pub open spec fn spec_u8(s: Seq<u8>) -> Result<(u8, Seq<u8>), ErrorView> {
    if 1 <= s.len() {
        Ok((s[0], s.skip(1)))
    } else {
        Err(ErrorView::Io(IoErrorKind::UnexpectedEof))
    }
}

pub open spec fn spec_u16(s: Seq<u8>) -> Result<(u16, Seq<u8>), ErrorView> {
    match spec_uint(s, 2) {
        Ok((v, r)) => Ok((v as u16, r)),
        Err(e) => Err(e),
    }
}

pub open spec fn spec_u32(s: Seq<u8>) -> Result<(u32, Seq<u8>), ErrorView> {
    match spec_uint(s, 4) {
        Ok((v, r)) => Ok((v as u32, r)),
        Err(e) => Err(e),
    }
}

pub open spec fn spec_i32(s: Seq<u8>) -> Result<(i32, Seq<u8>), ErrorView> {
    match spec_uint(s, 4) {
        Ok((v, r)) => Ok((i32_from_bits(v) as i32, r)),
        Err(e) => Err(e),
    }
}

pub open spec fn spec_u64(s: Seq<u8>) -> Result<(u64, Seq<u8>), ErrorView> {
    match spec_uint(s, 8) {
        Ok((v, r)) => Ok((v as u64, r)),
        Err(e) => Err(e),
    }
}

/// Reads exactly `n` raw bytes.
pub open spec fn spec_bytes(s: Seq<u8>, n: nat) -> Result<(Seq<u8>, Seq<u8>), ErrorView> {
    if n <= s.len() {
        Ok((s.take(n as int), s.skip(n as int)))
    } else {
        Err(ErrorView::Io(IoErrorKind::UnexpectedEof))
    }
}

/// The number of bytes before the first NUL byte of `s` (all of `s` if none).
pub open spec fn cstring_len(s: Seq<u8>) -> nat
    decreases s.len(),
{
    if s.len() == 0 || s[0] == 0 {
        0
    } else {
        1 + cstring_len(s.drop_first())
    }
}

/// Reads a NUL-terminated string: the bytes before the first NUL, and the
/// bytes after that NUL. A string that runs to the end of the input ends
/// there without error.
pub open spec fn spec_cstring(s: Seq<u8>) -> (Seq<u8>, Seq<u8>) {
    let n = cstring_len(s);
    if n < s.len() {
        (s.take(n as int), s.skip(n + 1 as int))
    } else {
        (s, Seq::empty())
    }
}

/// The encoding of a string as a NUL-terminated string.
pub open spec fn cstring_bytes(b: Seq<u8>) -> Seq<u8> {
    b.push(0)
}

/// A byte string that a NUL-terminated string can carry.
pub open spec fn no_nul(b: Seq<u8>) -> bool {
    forall|i: int| 0 <= i < b.len() ==> b[i] != 0
}

/// An executable read at a position of `data` agrees with its spec on the
/// bytes from that position: the same value with the position after it, or
/// an error of the same kind.
pub open spec fn agrees<T: View>(
    r: Result<(T, usize), Error>,
    data: Seq<u8>,
    s: Result<(T::V, Seq<u8>), ErrorView>,
) -> bool {
    match r {
        Ok((v, q)) => q <= data.len() && s == Ok::<(T::V, Seq<u8>), ErrorView>((v@, data.skip(q as int))),
        Err(e) => s == Err::<(T::V, Seq<u8>), ErrorView>(e@),
    }
}

/// An executable parse of a whole message agrees with its spec.
pub open spec fn agrees_msg<T: View>(r: Result<T, Error>, s: Result<T::V, ErrorView>) -> bool {
    match r {
        Ok(v) => s == Ok::<T::V, ErrorView>(v@),
        Err(e) => s == Err::<T::V, ErrorView>(e@),
    }
}

// ---------------------------------------------------------------------------
// Lemmas
// ---------------------------------------------------------------------------

pub proof fn lemma_pow256_values()
    ensures
        pow256(0) == 1,
        pow256(1) == 0x100,
        pow256(2) == 0x1_0000,
        pow256(3) == 0x100_0000,
        pow256(4) == 0x1_0000_0000,
        pow256(5) == 0x100_0000_0000,
        pow256(6) == 0x1_0000_0000_0000,
        pow256(7) == 0x100_0000_0000_0000,
        pow256(8) == 0x1_0000_0000_0000_0000,
{
    reveal_with_fuel(pow256, 9);
}

pub proof fn lemma_pow256_mono(a: nat, b: nat)
    requires
        a <= b,
    ensures
        pow256(a) <= pow256(b),
    decreases b,
{
    if a < b {
        lemma_pow256_mono(a, (b - 1) as nat);
    }
}

/// A little-endian number of `n` bytes is below `256^n`.
pub proof fn lemma_le_value_bound(b: Seq<u8>)
    ensures
        le_value(b) < pow256(b.len()),
    decreases b.len(),
{
    if b.len() > 0 {
        lemma_le_value_bound(b.drop_first());
    }
}

pub proof fn lemma_le_bytes_len(x: nat, n: nat)
    ensures
        le_bytes(x, n).len() == n,
    decreases n,
{
    if n > 0 {
        lemma_le_bytes_len(x / 256, (n - 1) as nat);
    }
}

/// Reading back the `n` low bytes of a number below `256^n` gives the number.
pub proof fn lemma_le_roundtrip(x: nat, n: nat)
    requires
        x < pow256(n),
    ensures
        le_value(le_bytes(x, n)) == x,
        le_bytes(x, n).len() == n,
    decreases n,
{
    lemma_le_bytes_len(x, n);
    if n > 0 {
        let p = pow256((n - 1) as nat);
        assert(x / 256 < p) by (nonlinear_arith)
            requires
                x < 256 * p,
        ;
        lemma_le_roundtrip(x / 256, (n - 1) as nat);
        let b = le_bytes(x, n);
        assert(b.drop_first() =~= le_bytes(x / 256, (n - 1) as nat));
        assert(x == x % 256 + 256 * (x / 256));
    }
}

pub proof fn lemma_skip_skip(s: Seq<u8>, a: int, b: int)
    requires
        0 <= a,
        0 <= b,
        a + b <= s.len(),
    ensures
        s.skip(a).skip(b) == s.skip(a + b),
{
    assert(s.skip(a).skip(b) =~= s.skip(a + b));
}

/// Concatenation is associative.
pub proof fn lemma_assoc(a: Seq<u8>, b: Seq<u8>, c: Seq<u8>)
    ensures
        (a + b) + c == a + (b + c),
{
    assert((a + b) + c =~= a + (b + c));
}

/// Reading one byte off the front.
pub proof fn lemma_u8_pop(x: u8, rest: Seq<u8>)
    ensures
        spec_u8(seq![x] + rest) == Ok::<(u8, Seq<u8>), ErrorView>((x, rest)),
{
    assert((seq![x] + rest).skip(1) =~= rest);
}

/// Reading back the `n` low bytes of a number below `256^n`.
pub proof fn lemma_uint_pop(x: nat, n: nat, rest: Seq<u8>)
    requires
        x < pow256(n),
    ensures
        spec_uint(le_bytes(x, n) + rest, n) == Ok::<(nat, Seq<u8>), ErrorView>((x, rest)),
{
    lemma_le_roundtrip(x, n);
    let s = le_bytes(x, n) + rest;
    assert(s.take(n as int) =~= le_bytes(x, n));
    assert(s.skip(n as int) =~= rest);
}

proof fn lemma_cstring_len_prefix(b: Seq<u8>, rest: Seq<u8>)
    requires
        no_nul(b),
    ensures
        cstring_len(cstring_bytes(b) + rest) == b.len(),
    decreases b.len(),
{
    let s = cstring_bytes(b) + rest;
    if b.len() == 0 {
        assert(s[0] == 0);
    } else {
        assert(s[0] == b[0]);
        assert(no_nul(b.drop_first()));
        assert(s.drop_first() =~= cstring_bytes(b.drop_first()) + rest);
        lemma_cstring_len_prefix(b.drop_first(), rest);
    }
}

/// Reading back a NUL-terminated string.
pub proof fn lemma_cstring_pop(b: Seq<u8>, rest: Seq<u8>)
    requires
        no_nul(b),
    ensures
        spec_cstring(cstring_bytes(b) + rest) == (b, rest),
{
    lemma_cstring_len_prefix(b, rest);
    let s = cstring_bytes(b) + rest;
    assert(s.take(b.len() as int) =~= b);
    assert(s.skip(b.len() + 1 as int) =~= rest);
}

// ---------------------------------------------------------------------------
// Executable readers
// ---------------------------------------------------------------------------

/// Reads `n <= 8` bytes at `pos` as an unsigned little-endian number.
pub(crate) fn read_uint(data: &[u8], pos: usize, n: usize) -> (r: Result<(u64, usize), Error>)
    requires
        n <= 8,
        pos <= data.len(),
    ensures
        match r {
            Ok((v, q)) => q <= data.len() && spec_uint(data@.skip(pos as int), n as nat) == Ok::<
                (nat, Seq<u8>),
                ErrorView,
            >((v as nat, data@.skip(q as int))),
            Err(e) => spec_uint(data@.skip(pos as int), n as nat) == Err::<(nat, Seq<u8>), ErrorView>(
                e@,
            ),
        },
{
    if n > data.len() - pos {
        return Err(eof_error());
    }
    let ghost s = data@;
    let mut v: u64 = 0;
    let mut i: usize = n;
    proof {
        lemma_pow256_values();
    }
    while i > 0
        invariant
            n <= 8,
            i <= n,
            pos + n <= data.len(),
            s == data@,
            v as nat == le_value(s.subrange(pos + i, pos + n)),
            v < pow256((n - i) as nat),
        decreases i,
    {
        i = i - 1;
        proof {
            lemma_pow256_values();
            lemma_pow256_mono((n - i - 1) as nat, 7);
            assert(s.subrange(pos + i, pos + n).drop_first() =~= s.subrange(pos + i + 1, pos + n));
        }
        v = v * 256 + data[pos + i] as u64;
        proof {
            assert(pow256((n - i) as nat) == 256 * pow256((n - i - 1) as nat));
        }
    }
    proof {
        assert(s.skip(pos as int).take(n as int) =~= s.subrange(pos as int, pos + n));
        lemma_skip_skip(s, pos as int, n as int);
    }
    Ok((v, pos + n))
}

pub(crate) fn read_u8(data: &[u8], pos: usize) -> (r: Result<(u8, usize), Error>)
    requires
        pos <= data.len(),
    ensures
        agrees(r, data@, spec_u8(data@.skip(pos as int))),
{
    if pos < data.len() {
        proof {
            lemma_skip_skip(data@, pos as int, 1);
        }
        Ok((data[pos], pos + 1))
    } else {
        Err(eof_error())
    }
}

pub(crate) fn read_u16(data: &[u8], pos: usize) -> (r: Result<(u16, usize), Error>)
    requires
        pos <= data.len(),
    ensures
        agrees(r, data@, spec_u16(data@.skip(pos as int))),
{
    match read_uint(data, pos, 2) {
        Ok((v, q)) => {
            proof {
                lemma_le_value_bound(data@.skip(pos as int).take(2));
                lemma_pow256_values();
            }
            Ok((v as u16, q))
        },
        Err(e) => Err(e),
    }
}

pub(crate) fn read_u32(data: &[u8], pos: usize) -> (r: Result<(u32, usize), Error>)
    requires
        pos <= data.len(),
    ensures
        agrees(r, data@, spec_u32(data@.skip(pos as int))),
{
    match read_uint(data, pos, 4) {
        Ok((v, q)) => {
            proof {
                lemma_le_value_bound(data@.skip(pos as int).take(4));
                lemma_pow256_values();
            }
            Ok((v as u32, q))
        },
        Err(e) => Err(e),
    }
}

pub(crate) fn read_i32(data: &[u8], pos: usize) -> (r: Result<(i32, usize), Error>)
    requires
        pos <= data.len(),
    ensures
        agrees(r, data@, spec_i32(data@.skip(pos as int))),
{
    match read_uint(data, pos, 4) {
        Ok((v, q)) => {
            proof {
                lemma_le_value_bound(data@.skip(pos as int).take(4));
                lemma_pow256_values();
            }
            let x: i32 = if v < 0x8000_0000 {
                v as i32
            } else {
                (v as i64 - 0x1_0000_0000i64) as i32
            };
            Ok((x, q))
        },
        Err(e) => Err(e),
    }
}

pub(crate) fn read_u64(data: &[u8], pos: usize) -> (r: Result<(u64, usize), Error>)
    requires
        pos <= data.len(),
    ensures
        agrees(r, data@, spec_u64(data@.skip(pos as int))),
{
    match read_uint(data, pos, 8) {
        Ok((v, q)) => {
            proof {
                lemma_le_value_bound(data@.skip(pos as int).take(8));
                lemma_pow256_values();
            }
            Ok((v, q))
        },
        Err(e) => Err(e),
    }
}

/// Copies `data[from..to]` into a new vector.
pub(crate) fn copy_range(data: &[u8], from: usize, to: usize) -> (r: Vec<u8>)
    requires
        from <= to <= data.len(),
    ensures
        r@ == data@.subrange(from as int, to as int),
{
    let mut out: Vec<u8> = Vec::new();
    let mut i = from;
    while i < to
        invariant
            from <= i <= to <= data.len(),
            out@ == data@.subrange(from as int, i as int),
        decreases to - i,
    {
        out.push(data[i]);
        i = i + 1;
        proof {
            assert(out@ =~= data@.subrange(from as int, i as int));
        }
    }
    out
}

/// Reads exactly `n` raw bytes at `pos`.
pub(crate) fn read_bytes(data: &[u8], pos: usize, n: usize) -> (r: Result<(Vec<u8>, usize), Error>)
    requires
        pos <= data.len(),
    ensures
        agrees(r, data@, spec_bytes(data@.skip(pos as int), n as nat)),
{
    if n > data.len() - pos {
        return Err(eof_error());
    }
    let v = copy_range(data, pos, pos + n);
    proof {
        assert(data@.skip(pos as int).take(n as int) =~= data@.subrange(pos as int, pos + n));
        lemma_skip_skip(data@, pos as int, n as int);
    }
    Ok((v, pos + n))
}

/// Reads a NUL-terminated string at `pos`.
pub(crate) fn read_cstring(data: &[u8], pos: usize) -> (r: (Vec<u8>, usize))
    requires
        pos <= data.len(),
    ensures
        r.1 <= data.len(),
        spec_cstring(data@.skip(pos as int)) == (r.0@, data@.skip(r.1 as int)),
{
    let ghost s = data@;
    let mut out: Vec<u8> = Vec::new();
    let mut i = pos;
    while i < data.len() && data[i] != 0
        invariant
            pos <= i <= data.len(),
            s == data@,
            out@ == s.subrange(pos as int, i as int),
            cstring_len(s.skip(pos as int)) == (i - pos) + cstring_len(s.skip(i as int)),
        decreases data.len() - i,
    {
        proof {
            assert(s.skip(i as int).drop_first() =~= s.skip(i + 1));
        }
        out.push(data[i]);
        i = i + 1;
        proof {
            assert(out@ =~= s.subrange(pos as int, i as int));
        }
    }
    let ghost n = cstring_len(s.skip(pos as int));
    proof {
        assert(cstring_len(s.skip(i as int)) == 0);
        assert(s.skip(pos as int).take(n as int) =~= s.subrange(pos as int, i as int));
    }
    if i < data.len() {
        proof {
            lemma_skip_skip(s, pos as int, n + 1 as int);
        }
        (out, i + 1)
    } else {
        proof {
            assert(s.skip(pos as int) =~= s.subrange(pos as int, i as int));
            assert(s.skip(i as int) =~= Seq::<u8>::empty());
        }
        (out, i)
    }
}

// ---------------------------------------------------------------------------
// Executable writers
// ---------------------------------------------------------------------------

/// Appends the `n` low bytes of `x`, least significant first.
pub(crate) fn push_uint(out: &mut Vec<u8>, x: u64, n: usize)
    ensures
        final(out)@ == old(out)@ + le_bytes(x as nat, n as nat),
{
    let mut cur = x;
    let mut k: usize = 0;
    while k < n
        invariant
            k <= n,
            out@ + le_bytes(cur as nat, (n - k) as nat) == old(out)@ + le_bytes(x as nat, n as nat),
        decreases n - k,
    {
        let ghost before = out@;
        let ghost c = cur;
        out.push((cur % 256) as u8);
        cur = cur / 256;
        k = k + 1;
        proof {
            let rest = le_bytes(cur as nat, (n - k) as nat);
            assert(le_bytes(c as nat, (n - k + 1) as nat) == seq![(c % 256) as u8] + rest);
            assert(out@ + rest =~= before + (seq![(c % 256) as u8] + rest));
        }
    }
    proof {
        assert(le_bytes(cur as nat, 0) =~= Seq::<u8>::empty());
        assert(out@ + Seq::<u8>::empty() =~= out@);
    }
}

/// Appends the bytes of `s`.
pub(crate) fn push_bytes(out: &mut Vec<u8>, s: &[u8])
    ensures
        final(out)@ == old(out)@ + s@,
{
    let mut i: usize = 0;
    while i < s.len()
        invariant
            i <= s.len(),
            out@ == old(out)@ + s@.subrange(0, i as int),
        decreases s.len() - i,
    {
        out.push(s[i]);
        i = i + 1;
        proof {
            assert(out@ =~= old(out)@ + s@.subrange(0, i as int));
        }
    }
    proof {
        assert(s@.subrange(0, s@.len() as int) =~= s@);
    }
}

/// Appends `s` as a NUL-terminated string.
pub(crate) fn push_cstring(out: &mut Vec<u8>, s: &[u8])
    ensures
        final(out)@ == old(out)@ + cstring_bytes(s@),
{
    push_bytes(out, s);
    out.push(0);
    proof {
        assert(out@ =~= old(out)@ + cstring_bytes(s@));
    }
}

/// Appends the 32-bit two's-complement pattern of `x`, least significant first.
pub(crate) fn push_i32(out: &mut Vec<u8>, x: i32)
    ensures
        final(out)@ == old(out)@ + le_bytes(i32_bits(x as int), 4),
{
    let bits: u64 = if x >= 0 {
        x as u64
    } else {
        (x as i64 + 0x1_0000_0000i64) as u64
    };
    push_uint(out, bits, 4);
}

} // verus!
