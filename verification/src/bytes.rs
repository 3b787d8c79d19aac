//! Byte strings: payloads, and the few operations on slices that the rest of
//! the library is written with.

use vstd::prelude::*;
use vstd::slice::slice_subrange;
use vstd::slice::slice_to_vec;
use vstd::string::StringSliceAdditionalSpecFns;

verus! {
/// A payload: the bytes a publisher puts into a packet.
#[derive(Debug)]
pub struct Bytes(pub Vec<u8>);

impl View for Bytes {
    type V = Seq<u8>;

    open spec fn view(&self) -> Seq<u8> {
        self.0@
    }
}

impl Clone for Bytes {
    fn clone(&self) -> (copy: Self)
        ensures
            copy@ == self@,
    {
        Bytes(copy_of(self.0.as_slice()))
    }
}

/// The payload that holds the UTF-8 encoding of `payload`.
pub fn create_payload(payload: &str) -> (bytes: Bytes)
    ensures
        bytes@ == payload.spec_bytes(),
{
    Bytes(copy_of(payload.as_bytes()))
}

/// A fresh vector with the bytes of `source`.
pub fn copy_of(source: &[u8]) -> (copy: Vec<u8>)
    ensures
        copy@ == source@,
{
    slice_to_vec(source)
}

/// The bytes of `source` from `from` up to, not including, `to`.
pub fn part_of(source: &[u8], from: usize, to: usize) -> (part: Vec<u8>)
    requires
        from <= to <= source@.len(),
    ensures
        part@ == source@.subrange(from as int, to as int),
{
    slice_to_vec(slice_subrange(source, from, to))
}

/// Appends the bytes of `source` to `target`.
pub fn append(target: &mut Vec<u8>, source: &[u8])
    ensures
        final(target)@ == old(target)@ + source@,
{
    let mut i: usize = 0;
    while i < source.len()
        invariant
            i <= source@.len(),
            target@ == old(target)@ + source@.subrange(0, i as int),
        decreases source@.len() - i,
    {
        target.push(source[i]);
        i += 1;
    }
}

/// Whether two byte strings are the same.
pub fn same_bytes(left: &[u8], right: &[u8]) -> (same: bool)
    ensures
        same == (left@ == right@),
{
    if left.len() != right.len() {
        return false;
    }
    let mut i: usize = 0;
    while i < left.len()
        invariant
            left@.len() == right@.len(),
            i <= left@.len(),
            forall|k: int| 0 <= k < i ==> left@[k] == right@[k],
        decreases left@.len() - i,
    {
        if left[i] != right[i] {
            return false;
        }
        i += 1;
    }
    assert(left@ =~= right@);
    true
}
} // verus!
