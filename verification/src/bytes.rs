//! Big-endian fixed-width integer fields, the building blocks of the wire
//! format: every integer on the wire is written big-endian, and every
//! variable-length field is preceded by its 64-bit length.
use vstd::prelude::*;

verus! {

/// The four big-endian bytes of a 32-bit integer.
pub open spec fn be_u32(x: u32) -> Seq<u8> {
    seq![
        (x >> 24) as u8,
        (x >> 16) as u8,
        (x >> 8) as u8,
        x as u8,
    ]
}

/// The eight big-endian bytes of a 64-bit integer.
pub open spec fn be_u64(x: u64) -> Seq<u8> {
    seq![
        (x >> 56) as u8,
        (x >> 48) as u8,
        (x >> 40) as u8,
        (x >> 32) as u8,
        (x >> 24) as u8,
        (x >> 16) as u8,
        (x >> 8) as u8,
        x as u8,
    ]
}

/// The 32-bit integer held big-endian in the four bytes of `b` starting at `at`.
pub open spec fn be_u32_at(b: Seq<u8>, at: int) -> u32
    recommends
        0 <= at,
        at + 4 <= b.len(),
{
    ((b[at] as u32) << 24) | ((b[at + 1] as u32) << 16) | ((b[at + 2] as u32) << 8) | (b[at
        + 3] as u32)
}

/// The 64-bit integer held big-endian in the eight bytes of `b` starting at `at`.
pub open spec fn be_u64_at(b: Seq<u8>, at: int) -> u64
    recommends
        0 <= at,
        at + 8 <= b.len(),
{
    ((b[at] as u64) << 56) | ((b[at + 1] as u64) << 48) | ((b[at + 2] as u64) << 40) | ((b[at
        + 3] as u64) << 32) | ((b[at + 4] as u64) << 24) | ((b[at + 5] as u64) << 16) | ((b[at
        + 6] as u64) << 8) | (b[at + 7] as u64)
}

/// Reading back the four bytes written for a 32-bit integer yields the integer.
pub proof fn lemma_be_u32_roundtrip(x: u32)
    ensures
        be_u32_at(be_u32(x), 0) == x,
{
    assert((((x >> 24) as u8 as u32) << 24) | (((x >> 16) as u8 as u32) << 16) | (((x
        >> 8) as u8 as u32) << 8) | (x as u8 as u32) == x) by (bit_vector);
}

/// Reading back the eight bytes written for a 64-bit integer yields the integer.
pub proof fn lemma_be_u64_roundtrip(x: u64)
    ensures
        be_u64_at(be_u64(x), 0) == x,
{
    assert((((x >> 56) as u8 as u64) << 56) | (((x >> 48) as u8 as u64) << 48) | (((x
        >> 40) as u8 as u64) << 40) | (((x >> 32) as u8 as u64) << 32) | (((x
        >> 24) as u8 as u64) << 24) | (((x >> 16) as u8 as u64) << 16) | (((x
        >> 8) as u8 as u64) << 8) | (x as u8 as u64) == x) by (bit_vector);
}

/// Appends the four big-endian bytes of `x` to `out`.
pub fn push_be_u32(out: &mut Vec<u8>, x: u32)
    ensures
        final(out)@ == old(out)@ + be_u32(x),
{
    out.push((x >> 24) as u8);
    out.push((x >> 16) as u8);
    out.push((x >> 8) as u8);
    out.push(x as u8);
    assert(out@ =~= old(out)@ + be_u32(x));
}

/// Appends the eight big-endian bytes of `x` to `out`.
pub fn push_be_u64(out: &mut Vec<u8>, x: u64)
    ensures
        final(out)@ == old(out)@ + be_u64(x),
{
    out.push((x >> 56) as u8);
    out.push((x >> 48) as u8);
    out.push((x >> 40) as u8);
    out.push((x >> 32) as u8);
    out.push((x >> 24) as u8);
    out.push((x >> 16) as u8);
    out.push((x >> 8) as u8);
    out.push(x as u8);
    assert(out@ =~= old(out)@ + be_u64(x));
}

/// A variable-length field on the wire: the 64-bit big-endian byte count,
/// then the bytes themselves.
pub open spec fn len_prefixed(field: Seq<u8>) -> Seq<u8> {
    be_u64(field.len() as u64) + field
}

/// The field read from `b` at `at`: `None` when fewer bytes remain than the
/// header plus the length it declares, otherwise the field's bytes and the
/// position just past them.
pub open spec fn spec_read_field(b: Seq<u8>, at: int) -> Option<(Seq<u8>, int)>
    recommends
        0 <= at <= b.len(),
{
    if at + 8 > b.len() {
        None
    } else {
        let n = be_u64_at(b, at) as int;
        if at + 8 + n > b.len() {
            None
        } else {
            Some((b.subrange(at + 8, at + 8 + n), at + 8 + n))
        }
    }
}

/// Appends a length-prefixed field to `out`.
pub fn push_len_prefixed(out: &mut Vec<u8>, field: &[u8])
    ensures
        final(out)@ == old(out)@ + len_prefixed(field@),
{
    let n = field.len();
    push_be_u64(out, n as u64);
    let mut tail = vstd::slice::slice_to_vec(field);
    out.append(&mut tail);
    assert(out@ =~= old(out)@ + len_prefixed(field@));
}

/// Reads a length-prefixed field from `b` at `at`, as `spec_read_field` says.
pub fn read_field(b: &[u8], at: usize) -> (r: Option<(Vec<u8>, usize)>)
    requires
        at <= b@.len(),
    ensures
        match r {
            Some(p) => spec_read_field(b@, at as int) == Some((p.0@, p.1 as int)),
            None => spec_read_field(b@, at as int) is None,
        },
{
    let total = b.len();
    if total - at < 8 {
        return None;
    }
    let n = read_be_u64(b, at);
    let avail = (total - at - 8) as u64;
    if n > avail {
        return None;
    }
    let len = n as usize;
    let field = vstd::slice::slice_subrange(b, at + 8, at + 8 + len);
    let v = vstd::slice::slice_to_vec(field);
    Some((v, at + 8 + len))
}

/// A 32-bit integer written at the front is read back unchanged.
pub proof fn lemma_be_u32_at_prefix(x: u32, suffix: Seq<u8>)
    ensures
        be_u32_at(be_u32(x) + suffix, 0) == x,
{
    let b = be_u32(x) + suffix;
    assert(b[0] == (x >> 24) as u8 && b[1] == (x >> 16) as u8 && b[2] == (x >> 8) as u8 && b[3]
        == x as u8);
    lemma_be_u32_roundtrip(x);
}

/// A 64-bit integer written after `prefix` is read back unchanged at
/// position `prefix.len()`.
pub proof fn lemma_be_u64_at_concat(prefix: Seq<u8>, x: u64, suffix: Seq<u8>)
    ensures
        be_u64_at(prefix + be_u64(x) + suffix, prefix.len() as int) == x,
{
    let b = prefix + be_u64(x) + suffix;
    let p = prefix.len() as int;
    assert(b[p] == (x >> 56) as u8 && b[p + 1] == (x >> 48) as u8 && b[p + 2] == (x >> 40) as u8
        && b[p + 3] == (x >> 32) as u8 && b[p + 4] == (x >> 24) as u8 && b[p + 5] == (x
        >> 16) as u8 && b[p + 6] == (x >> 8) as u8 && b[p + 7] == x as u8);
    lemma_be_u64_roundtrip(x);
}

/// A length-prefixed field written after `prefix` is read back unchanged at
/// position `prefix.len()`, wherever the wire continues after it.
pub proof fn lemma_read_field_of_len_prefixed(prefix: Seq<u8>, field: Seq<u8>, suffix: Seq<u8>)
    requires
        field.len() <= u64::MAX,
    ensures
        spec_read_field(prefix + len_prefixed(field) + suffix, prefix.len() as int) == Some(
            (field, prefix.len() + 8 + field.len() as int),
        ),
{
    let b = prefix + len_prefixed(field) + suffix;
    let p = prefix.len() as int;
    let n = field.len() as u64;
    assert(b =~= prefix + be_u64(n) + (field + suffix));
    lemma_be_u64_at_concat(prefix, n, field + suffix);
    assert(b.subrange(p + 8, p + 8 + n as int) =~= field);
}

/// A 64-bit integer that ends the wire is read back unchanged at position
/// `prefix.len()`.
pub proof fn lemma_be_u64_at_end(prefix: Seq<u8>, x: u64)
    ensures
        be_u64_at(prefix + be_u64(x), prefix.len() as int) == x,
{
    assert(prefix + be_u64(x) =~= prefix + be_u64(x) + Seq::<u8>::empty());
    lemma_be_u64_at_concat(prefix, x, Seq::<u8>::empty());
}

/// A length-prefixed field that ends the wire is read back unchanged at
/// position `prefix.len()`.
pub proof fn lemma_read_field_of_len_prefixed_exact(prefix: Seq<u8>, field: Seq<u8>)
    requires
        field.len() <= u64::MAX,
    ensures
        spec_read_field(prefix + len_prefixed(field), prefix.len() as int) == Some(
            (field, prefix.len() + 8 + field.len() as int),
        ),
{
    assert(prefix + len_prefixed(field) =~= prefix + len_prefixed(field) + Seq::<u8>::empty());
    lemma_read_field_of_len_prefixed(prefix, field, Seq::<u8>::empty());
}

/// Reads the 32-bit integer held big-endian at `at` in `b`.
pub fn read_be_u32(b: &[u8], at: usize) -> (r: u32)
    requires
        at + 4 <= b@.len(),
    ensures
        r == be_u32_at(b@, at as int),
{
    ((b[at] as u32) << 24) | ((b[at + 1] as u32) << 16) | ((b[at + 2] as u32) << 8) | (b[at
        + 3] as u32)
}

/// Reads the 64-bit integer held big-endian at `at` in `b`.
pub fn read_be_u64(b: &[u8], at: usize) -> (r: u64)
    requires
        at + 8 <= b@.len(),
    ensures
        r == be_u64_at(b@, at as int),
{
    ((b[at] as u64) << 56) | ((b[at + 1] as u64) << 48) | ((b[at + 2] as u64) << 40) | ((b[at
        + 3] as u64) << 32) | ((b[at + 4] as u64) << 24) | ((b[at + 5] as u64) << 16) | ((b[at
        + 6] as u64) << 8) | (b[at + 7] as u64)
}

} // verus!
