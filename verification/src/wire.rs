//! Shared wire-format primitives: big-endian 16- and 32-bit integer
//! packing and the scan for a terminating byte inside a buffer.

use vstd::prelude::*;

verus! {

/// The 16-bit value formed by a big-endian pair of bytes.
pub open spec fn be16(hi: u8, lo: u8) -> u16 {
    ((hi as u16) << 8) | (lo as u16)
}

/// The high byte of a 16-bit value on the wire.
pub open spec fn hi16(x: u16) -> u8 {
    (x >> 8) as u8
}

/// The low byte of a 16-bit value on the wire.
pub open spec fn lo16(x: u16) -> u8 {
    x as u8
}

/// The four big-endian bytes of a 32-bit value, most significant first.
pub open spec fn be32_bytes(x: u32) -> Seq<u8> {
    seq![(x >> 24) as u8, (x >> 16) as u8, (x >> 8) as u8, x as u8]
}

/// Reassembling the two wire bytes of a 16-bit value gives it back.
pub proof fn lemma_be16_round_trip(x: u16)
    ensures
        be16(hi16(x), lo16(x)) == x,
{
    assert(((((x >> 8) as u8) as u16) << 8) | ((x as u8) as u16) == x) by (bit_vector);
}

/// The index of the first occurrence of `target` in `s` at or after
/// `off`, or `s.len()` if there is none.
pub open spec fn seq_find(s: Seq<u8>, target: u8, off: int) -> int
    decreases s.len() - off when 0 <= off <= s.len()
{
    if off >= s.len() {
        s.len() as int
    } else if s[off] == target {
        off
    } else {
        seq_find(s, target, off + 1)
    }
}

/// `seq_find` names the first occurrence: an occurrence at `i` with no
/// earlier occurrence from `off` on pins the result to `i`.
pub proof fn lemma_seq_find_is_first(s: Seq<u8>, target: u8, off: int, i: int)
    requires
        0 <= off <= i < s.len(),
        s[i] == target,
        forall|j: int| off <= j < i ==> s[j] != target,
    ensures
        seq_find(s, target, off) == i,
    decreases i - off,
{
    if off < i {
        lemma_seq_find_is_first(s, target, off + 1, i);
    }
}

/// Where `target` does not occur from `off` on, `seq_find` is `s.len()`.
pub proof fn lemma_seq_find_absent(s: Seq<u8>, target: u8, off: int)
    requires
        0 <= off <= s.len(),
        forall|j: int| off <= j < s.len() ==> s[j] != target,
    ensures
        seq_find(s, target, off) == s.len(),
    decreases s.len() - off,
{
    if off < s.len() {
        lemma_seq_find_absent(s, target, off + 1);
    }
}

/// What `seq_find` returns is in range, marks an occurrence when it is
/// short of the end, and is preceded by no occurrence.
pub proof fn lemma_seq_find_properties(s: Seq<u8>, target: u8, off: int)
    requires
        0 <= off <= s.len(),
    ensures
        off <= seq_find(s, target, off) <= s.len(),
        seq_find(s, target, off) < s.len() ==> s[seq_find(s, target, off)] == target,
        forall|j: int| off <= j < seq_find(s, target, off) ==> s[j] != target,
    decreases s.len() - off,
{
    if off < s.len() && s[off] != target {
        lemma_seq_find_properties(s, target, off + 1);
    }
}

/// Appends every byte of `src` to `dst`, in order.
pub fn append_bytes(dst: &mut Vec<u8>, src: &Vec<u8>)
    ensures
        final(dst)@ == old(dst)@ + src@,
{
    let ghost dst0 = old(dst)@;
    let mut k: usize = 0;
    proof {
        assert(dst@ =~= dst0 + src@.subrange(0, 0));
    }
    while k < src.len()
        invariant
            k <= src@.len(),
            dst@ == dst0 + src@.subrange(0, k as int),
        decreases src@.len() - k,
    {
        let b = src[k];
        dst.push(b);
        proof {
            assert(dst@ =~= dst0 + src@.subrange(0, k + 1));
        }
        k = k + 1;
    }
    proof {
        assert(dst@ =~= dst0 + src@);
    }
}

/// Scans `buf` from `from` for the first occurrence of `target`,
/// returning `buf.len()` if there is none.
pub fn find_byte(buf: &Vec<u8>, from: usize, target: u8) -> (r: usize)
    requires
        from <= buf@.len(),
    ensures
        r == seq_find(buf@, target, from as int),
{
    let mut i: usize = from;
    while i < buf.len()
        invariant
            from <= i <= buf@.len(),
            forall|j: int| from <= j < i ==> buf@[j] != target,
        decreases buf@.len() - i,
    {
        if buf[i] == target {
            proof {
                lemma_seq_find_is_first(buf@, target, from as int, i as int);
            }
            return i;
        }
        i = i + 1;
    }
    proof {
        lemma_seq_find_absent(buf@, target, from as int);
    }
    buf.len()
}

} // verus!
