//! Small steps over a byte buffer that the reader is built from.

use crate::wire::{int_of_le, span};
use vstd::prelude::*;
use vstd::slice::{slice_subrange, slice_to_vec};

verus! {

/// The offset of the first NUL byte at or after `from`, or the length of the
/// buffer where none follows.
pub(crate) fn scan_span(b: &[u8], from: usize) -> (z: usize)
    requires
        from <= b.len(),
    ensures
        z == from + span(b@, from as int),
        z <= b.len(),
{
    let mut z: usize = from;
    while z < b.len() && b[z] != 0
        invariant
            from <= z <= b.len(),
            span(b@, from as int) == (z - from) + span(b@, z as int),
        decreases b.len() - z,
    {
        z = z + 1;
    }
    z
}

/// A copy of the bytes of `b` from `from` up to `to`.
pub(crate) fn copy_range(b: &[u8], from: usize, to: usize) -> (v: Vec<u8>)
    requires
        from <= to <= b.len(),
    ensures
        v@ == b@.subrange(from as int, to as int),
{
    slice_to_vec(slice_subrange(b, from, to))
}

/// Whether two byte strings are the same.
pub(crate) fn same_bytes(x: &[u8], y: &[u8]) -> (r: bool)
    ensures
        r == (x@ == y@),
{
    if x.len() != y.len() {
        return false;
    }
    let mut i: usize = 0;
    while i < x.len()
        invariant
            i <= x.len(),
            x.len() == y.len(),
            forall|j: int| 0 <= j < i ==> x@[j] == y@[j],
        decreases x.len() - i,
    {
        if x[i] != y[i] {
            return false;
        }
        i = i + 1;
    }
    assert(x@ =~= y@);
    true
}

/// The integer that the four bytes from `at` hold, little-endian.
pub(crate) fn read_int(b: &[u8], at: usize) -> (n: i32)
    requires
        at + 4 <= b.len(),
    ensures
        n == int_of_le(b@.subrange(at as int, at + 4)),
{
    let u: u32 = (b[at] as u32) + 0x100 * (b[at + 1] as u32) + 0x1_0000 * (b[at + 2] as u32)
        + 0x100_0000 * (b[at + 3] as u32);
    if u < 0x8000_0000 {
        u as i32
    } else {
        let low: u32 = u - 0x8000_0000;
        (low as i32) + i32::MIN
    }
}

} // verus!
