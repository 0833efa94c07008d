//! The question entry of a DNS message: a domain name stored as a raw
//! length-prefixed label sequence (terminator included), followed by a
//! 16-bit query type and a 16-bit query class.

use vstd::prelude::*;

use crate::DnsError;
use crate::wire::be16;
use crate::wire::find_byte;
use crate::wire::hi16;
use crate::wire::lo16;
use crate::wire::lemma_be16_round_trip;
use crate::wire::lemma_seq_find_is_first;
use crate::wire::lemma_seq_find_properties;
use crate::wire::seq_find;

verus! {

/// A decoded question. `qname` holds the label sequence exactly as it
/// stands on the wire, including the terminating zero-length label.
#[derive(Debug, PartialEq, Eq)]
pub struct Query {
    /// Query type, big-endian on the wire.
    pub qtype: u16,
    /// Query class, big-endian on the wire.
    pub qclass: u16,
    /// Raw label sequence, terminator included.
    pub qname: Vec<u8>,
}

/// The characters of one label, read byte for byte.
pub open spec fn label_chars(s: Seq<u8>) -> Seq<char> {
    Seq::new(s.len(), |i: int| s[i] as char)
}

/// The dot-joined human-readable name a label sequence decodes to: each
/// label's characters followed by a separator, a separator after the
/// last label included. A length byte that claims more bytes than
/// remain yields the remaining bytes with no final separator.
pub open spec fn spec_decoded_name(s: Seq<u8>) -> Seq<char>
    decreases s.len(),
{
    if s.len() == 0 {
        Seq::<char>::empty()
    } else {
        let n = s[0] as int;
        if n == 0 {
            spec_decoded_name(s.skip(1))
        } else if n <= s.len() - 1 {
            label_chars(s.subrange(1, 1 + n)).push('.') + spec_decoded_name(s.skip(1 + n))
        } else {
            label_chars(s.skip(1))
        }
    }
}

/// Appends one character to a string.
///
/// Relies on `String::push`: the string afterwards is the old string
/// with `c` appended.
#[verifier::external_body]
fn push_char(s: &mut String, c: char)
    ensures
        final(s)@ == old(s)@.push(c),
{
    s.push(c);
}

impl Query {
    /// The label sequence is non-empty, ends with the terminating zero
    /// byte, and holds no zero byte before it.
    pub open spec fn wf(self) -> bool {
        &&& self.qname@.len() >= 1
        &&& self.qname@.last() == 0
        &&& forall|i: int| 0 <= i < self.qname@.len() - 1 ==> self.qname@[i] != 0
    }

    /// The exact bytes this question encodes to: the raw label
    /// sequence, then type and class, each big-endian.
    pub open spec fn spec_encode(self) -> Seq<u8> {
        self.qname@ + seq![hi16(self.qtype), lo16(self.qtype), hi16(self.qclass), lo16(self.qclass)]
    }

    /// Decoding succeeds at `off` exactly when a terminating zero byte
    /// stands at or after `off` with at least four bytes behind it.
    pub open spec fn spec_decodes(s: Seq<u8>, off: int) -> bool {
        &&& 0 <= off <= s.len()
        &&& seq_find(s, 0, off) + 5 <= s.len()
    }

    /// The name bytes a successful decode at `off` yields: everything
    /// from `off` through the first zero byte, inclusive.
    pub open spec fn spec_name_bytes(s: Seq<u8>, off: int) -> Seq<u8>
        recommends
            Query::spec_decodes(s, off),
    {
        s.subrange(off, seq_find(s, 0, off) + 1)
    }

    /// The query type a successful decode at `off` yields.
    pub open spec fn spec_qtype(s: Seq<u8>, off: int) -> u16
        recommends
            Query::spec_decodes(s, off),
    {
        be16(s[seq_find(s, 0, off) + 1], s[seq_find(s, 0, off) + 2])
    }

    /// The query class a successful decode at `off` yields.
    pub open spec fn spec_qclass(s: Seq<u8>, off: int) -> u16
        recommends
            Query::spec_decodes(s, off),
    {
        be16(s[seq_find(s, 0, off) + 3], s[seq_find(s, 0, off) + 4])
    }

    /// The offset of the first byte after the question decoded at
    /// `off`: one past the terminator, plus the four type/class bytes.
    pub open spec fn spec_next_offset(s: Seq<u8>, off: int) -> int
        recommends
            Query::spec_decodes(s, off),
    {
        seq_find(s, 0, off) + 5
    }

    /// Scans forward from `offset` for the terminating zero byte and
    /// reads the question that ends there, returning it together with
    /// the offset of the next entry. Fails when no terminator exists
    /// before the end of the buffer, or fewer than four bytes follow
    /// the terminator.
    pub fn from_buffer(buf: &Vec<u8>, offset: usize) -> (r: Result<(Query, usize), DnsError>)
        ensures
            r is Ok <==> Query::spec_decodes(buf@, offset as int),
            r is Ok ==> {
                let (q, next) = r->Ok_0;
                &&& q.qname@ == Query::spec_name_bytes(buf@, offset as int)
                &&& q.qtype == Query::spec_qtype(buf@, offset as int)
                &&& q.qclass == Query::spec_qclass(buf@, offset as int)
                &&& next == Query::spec_next_offset(buf@, offset as int)
                &&& q.wf()
            },
            r is Err ==> r->Err_0 == DnsError::Truncated,
    {
        if offset > buf.len() {
            return Err(DnsError::Truncated);
        }
        let end = find_byte(buf, offset, 0);
        proof {
            lemma_seq_find_properties(buf@, 0, offset as int);
        }
        if end >= buf.len() || buf.len() - end < 5 {
            return Err(DnsError::Truncated);
        }
        let qname: Vec<u8> = buf_slice_to_vec(buf, offset, end + 1);
        let q = Query {
            qname,
            qtype: ((buf[end + 1] as u16) << 8) | (buf[end + 2] as u16),
            qclass: ((buf[end + 3] as u16) << 8) | (buf[end + 4] as u16),
        };
        Ok((q, end + 5))
    }

    /// Interprets the stored label sequence as a dot-joined name, a
    /// separator after each label included.
    pub fn get_name(&self) -> (r: String)
        ensures
            r@ == spec_decoded_name(self.qname@),
    {
        let q = &self.qname;
        let ghost qs = q@;
        let mut out = String::new();
        let mut i: usize = 0;
        proof {
            assert(qs.skip(0) =~= qs);
            assert(out@ + spec_decoded_name(qs.skip(0)) =~= spec_decoded_name(qs));
        }
        while i < q.len()
            invariant
                i <= qs.len(),
                qs == q@,
                spec_decoded_name(qs) == out@ + spec_decoded_name(qs.skip(i as int)),
            decreases qs.len() - i,
        {
            let n = q[i] as usize;
            if n == 0 {
                proof {
                    assert(qs.skip(i as int).skip(1) =~= qs.skip(i + 1));
                }
                i = i + 1;
            } else if n <= q.len() - 1 - i {
                proof {
                    assert(qs.skip(i as int).subrange(1, 1 + n as int) =~= qs.subrange(
                        i + 1,
                        i + 1 + n,
                    ));
                    assert(qs.skip(i as int).skip(1 + n as int) =~= qs.skip(i + 1 + n));
                }
                let ghost out0 = out@;
                let stop: usize = i + 1 + n;
                let mut j: usize = i + 1;
                while j < stop
                    invariant
                        i + 1 <= j <= stop,
                        stop == i + 1 + n,
                        stop <= qs.len(),
                        qs == q@,
                        out@ == out0 + label_chars(qs.subrange(i + 1, j as int)),
                    decreases stop - j,
                {
                    proof {
                        assert(label_chars(qs.subrange(i + 1, j + 1)) =~= label_chars(
                            qs.subrange(i + 1, j as int),
                        ).push(qs[j as int] as char));
                    }
                    let c = q[j];
                    push_char(&mut out, c as char);
                    j = j + 1;
                }
                push_char(&mut out, '.');
                proof {
                    assert(out@ + spec_decoded_name(qs.skip(i + 1 + n as int)) =~= spec_decoded_name(
                        qs,
                    ));
                }
                i = i + 1 + n;
            } else {
                proof {
                    assert(qs.skip(i as int).skip(1) =~= qs.subrange(i + 1, qs.len() as int));
                }
                let ghost out0 = out@;
                let mut j: usize = i + 1;
                while j < q.len()
                    invariant
                        i + 1 <= j <= qs.len(),
                        qs == q@,
                        out@ == out0 + label_chars(qs.subrange(i + 1, j as int)),
                    decreases qs.len() - j,
                {
                    proof {
                        assert(label_chars(qs.subrange(i + 1, j + 1)) =~= label_chars(
                            qs.subrange(i + 1, j as int),
                        ).push(qs[j as int] as char));
                    }
                    let c = q[j];
                    push_char(&mut out, c as char);
                    j = j + 1;
                }
                proof {
                    assert(qs.skip(qs.len() as int) =~= Seq::<u8>::empty());
                    assert(out@ + spec_decoded_name(qs.skip(qs.len() as int))
                        =~= spec_decoded_name(qs));
                }
                i = q.len();
            }
        }
        proof {
            assert(qs.skip(i as int) =~= Seq::<u8>::empty());
            assert(out@ =~= spec_decoded_name(qs));
        }
        out
    }

    /// Concatenates the raw label sequence with the big-endian type
    /// and class bytes.
    pub fn to_buffer(&self) -> (r: Vec<u8>)
        ensures
            r@ == self.spec_encode(),
            r@.len() == self.qname@.len() + 4,
    {
        let mut result: Vec<u8> = Vec::new();
        let mut k: usize = 0;
        while k < self.qname.len()
            invariant
                k <= self.qname@.len(),
                result@ == self.qname@.subrange(0, k as int),
            decreases self.qname@.len() - k,
        {
            let b = self.qname[k];
            result.push(b);
            proof {
                assert(result@ =~= self.qname@.subrange(0, k + 1));
            }
            k = k + 1;
        }
        proof {
            assert(result@ =~= self.qname@);
        }
        result.push((self.qtype >> 8) as u8);
        result.push(self.qtype as u8);
        result.push((self.qclass >> 8) as u8);
        result.push(self.qclass as u8);
        proof {
            assert(result@ =~= self.spec_encode());
        }
        result
    }
}

/// Round trip: decoding the bytes a well-formed question encodes to,
/// from offset 0, gives back the question's own fields and advances
/// the offset by the whole encoding, label length plus terminator
/// plus the four type and class bytes.
pub proof fn lemma_question_round_trip(q: Query)
    requires
        q.wf(),
    ensures
        q.spec_encode().len() == q.qname@.len() + 4,
        Query::spec_decodes(q.spec_encode(), 0),
        Query::spec_name_bytes(q.spec_encode(), 0) == q.qname@,
        Query::spec_qtype(q.spec_encode(), 0) == q.qtype,
        Query::spec_qclass(q.spec_encode(), 0) == q.qclass,
        Query::spec_next_offset(q.spec_encode(), 0) == q.qname@.len() + 4,
{
    let b = q.spec_encode();
    let m = q.qname@.len() as int;
    assert(b[m - 1] == 0);
    assert(forall|j: int| 0 <= j < m - 1 ==> b[j] != 0);
    lemma_seq_find_is_first(b, 0, 0, m - 1);
    assert(b.subrange(0, m) =~= q.qname@);
    lemma_be16_round_trip(q.qtype);
    lemma_be16_round_trip(q.qclass);
}

/// Two questions laid out back to back in one buffer decode in turn:
/// the first decode lands its next offset exactly on the start of the
/// second question, and the second decode lands one past the end.
pub proof fn lemma_sequential_questions(q1: Query, q2: Query)
    requires
        q1.wf(),
        q2.wf(),
    ensures
        ({
            let b = q1.spec_encode() + q2.spec_encode();
            let n1 = q1.qname@.len() + 4;
            let n2 = q2.qname@.len() + 4;
            &&& Query::spec_decodes(b, 0)
            &&& Query::spec_name_bytes(b, 0) == q1.qname@
            &&& Query::spec_qtype(b, 0) == q1.qtype
            &&& Query::spec_qclass(b, 0) == q1.qclass
            &&& Query::spec_next_offset(b, 0) == n1
            &&& Query::spec_decodes(b, n1 as int)
            &&& Query::spec_name_bytes(b, n1 as int) == q2.qname@
            &&& Query::spec_qtype(b, n1 as int) == q2.qtype
            &&& Query::spec_qclass(b, n1 as int) == q2.qclass
            &&& Query::spec_next_offset(b, n1 as int) == n1 + n2
        }),
{
    let b = q1.spec_encode() + q2.spec_encode();
    let m1 = q1.qname@.len() as int;
    let m2 = q2.qname@.len() as int;
    let n1 = m1 + 4;
    assert(b.len() == n1 + m2 + 4);
    assert(b[m1 - 1] == 0);
    assert(forall|j: int| 0 <= j < m1 - 1 ==> b[j] != 0);
    lemma_seq_find_is_first(b, 0, 0, m1 - 1);
    assert(b.subrange(0, m1) =~= q1.qname@);
    assert(b[m1] == hi16(q1.qtype) && b[m1 + 1] == lo16(q1.qtype));
    assert(b[m1 + 2] == hi16(q1.qclass) && b[m1 + 3] == lo16(q1.qclass));
    lemma_be16_round_trip(q1.qtype);
    lemma_be16_round_trip(q1.qclass);
    assert(b[n1 + m2 - 1] == q2.qname@[m2 - 1]);
    assert(forall|j: int| n1 <= j < n1 + m2 - 1 ==> b[j] == q2.qname@[j - n1] && b[j] != 0);
    lemma_seq_find_is_first(b, 0, n1, n1 + m2 - 1);
    assert(b.subrange(n1, n1 + m2) =~= q2.qname@);
    assert(b[n1 + m2] == hi16(q2.qtype) && b[n1 + m2 + 1] == lo16(q2.qtype));
    assert(b[n1 + m2 + 2] == hi16(q2.qclass) && b[n1 + m2 + 3] == lo16(q2.qclass));
    lemma_be16_round_trip(q2.qtype);
    lemma_be16_round_trip(q2.qclass);
}

/// Copies `buf[from..to]` into a fresh vector.
fn buf_slice_to_vec(buf: &Vec<u8>, from: usize, to: usize) -> (r: Vec<u8>)
    requires
        from <= to <= buf@.len(),
    ensures
        r@ == buf@.subrange(from as int, to as int),
{
    let mut r: Vec<u8> = Vec::new();
    let mut k: usize = from;
    while k < to
        invariant
            from <= k <= to <= buf@.len(),
            r@ == buf@.subrange(from as int, k as int),
        decreases to - k,
    {
        let b = buf[k];
        r.push(b);
        proof {
            assert(r@ =~= buf@.subrange(from as int, k + 1));
        }
        k = k + 1;
    }
    r
}

} // verus!
