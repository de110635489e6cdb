//! Fixed-capacity text lines, as the kernel builds them for the screen and
//! the serial port: what does not fit is cut off.
use vstd::prelude::*;
use crate::text::{spec_dec, spec_hex, push_dec, push_hex};

verus! {

/// `s` cut to at most `room` bytes.
pub open spec fn fit(s: Seq<u8>, room: int) -> Seq<u8> {
    if s.len() <= room { s } else { s.take(room) }
}

/// Room left in a line of capacity `cap` holding `len` bytes.
pub open spec fn room(cap: usize, len: nat) -> int {
    if len >= cap { 0 } else { cap - len }
}

/// Appends as much of `src` as fits in a line of capacity `cap`; returns
/// how many bytes were appended.
pub fn append_bytes(dst: &mut Vec<u8>, cap: usize, src: &[u8]) -> (n: usize)
    ensures
        final(dst)@ == old(dst)@ + fit(src@, room(cap, old(dst)@.len())),
        n == fit(src@, room(cap, old(dst)@.len())).len(),
{
    let free: usize = if dst.len() >= cap { 0 } else { cap - dst.len() };
    let count: usize = if free < src.len() { free } else { src.len() };
    let ghost base = dst@;
    let mut i: usize = 0;
    while i < count
        invariant
            count <= src@.len(),
            i <= count,
            dst@ == base + src@.take(i as int),
        decreases count - i,
    {
        dst.push(src[i]);
        i += 1;
        assert(dst@ =~= base + src@.take(i as int));
    }
    assert(src@.take(count as int) =~= fit(src@, room(cap, base.len())));
    count
}

/// Appends as many leading decimal digits of `value` as fit.
pub fn append_u64(dst: &mut Vec<u8>, cap: usize, value: u64) -> (n: usize)
    ensures
        final(dst)@ == old(dst)@ + fit(spec_dec(value as nat), room(cap, old(dst)@.len())),
        n == fit(spec_dec(value as nat), room(cap, old(dst)@.len())).len(),
{
    let mut digits: Vec<u8> = Vec::new();
    push_dec(&mut digits, value);
    assert(digits@ =~= spec_dec(value as nat));
    append_bytes(dst, cap, digits.as_slice())
}

/// Appends as many leading lowercase hex digits of `value` as fit.
pub fn append_hex_u64(dst: &mut Vec<u8>, cap: usize, value: u64) -> (n: usize)
    ensures
        final(dst)@ == old(dst)@ + fit(spec_hex(value as nat), room(cap, old(dst)@.len())),
        n == fit(spec_hex(value as nat), room(cap, old(dst)@.len())).len(),
{
    let mut digits: Vec<u8> = Vec::new();
    push_hex(&mut digits, value);
    assert(digits@ =~= spec_hex(value as nat));
    append_bytes(dst, cap, digits.as_slice())
}

/// `v` cut to at most `cap` bytes.
pub fn cut(v: Vec<u8>, cap: usize) -> (r: Vec<u8>)
    ensures
        r@ == fit(v@, cap as int),
{
    let mut r: Vec<u8> = Vec::new();
    let n: usize = if v.len() <= cap { v.len() } else { cap };
    let mut i: usize = 0;
    while i < n
        invariant
            n <= v@.len(),
            i <= n,
            r@ == v@.take(i as int),
        decreases n - i,
    {
        r.push(v[i]);
        i += 1;
        assert(r@ =~= v@.take(i as int));
    }
    assert(v@.take(n as int) =~= fit(v@, cap as int));
    r
}

} // verus!
