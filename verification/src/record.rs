//! The resource-record entry of a DNS answer: a name reference, type,
//! class, time-to-live, data length and raw data payload, together with
//! the dotted-decimal address parser that fills the payload of an
//! address record.

use vstd::prelude::*;
use vstd::slice::slice_to_vec;
use vstd::string::StringSliceAdditionalSpecFns;

use crate::DnsError;
use crate::wire::be32_bytes;
use crate::wire::find_byte;
use crate::wire::hi16;
use crate::wire::lo16;
use crate::wire::lemma_seq_find_properties;
use crate::wire::seq_find;

verus! {

/// A resource record ready for encoding. `name` holds the wire bytes
/// of the name reference; for records built by [`ResourceRecord::new`]
/// that is the two-byte compression pointer to offset 12, where the
/// first question's name stands.
#[derive(Debug, PartialEq, Eq)]
pub struct ResourceRecord {
    /// Wire bytes of the name reference.
    pub name: Vec<u8>,
    /// Record type, big-endian on the wire.
    pub rtype: u16,
    /// Record class, big-endian on the wire.
    pub class: u16,
    /// Time-to-live in seconds, big-endian on the wire.
    pub ttl: u32,
    /// Length in bytes of the data payload.
    pub rdlength: u16,
    /// Raw data payload.
    pub rdata: Vec<u8>,
}

/// An ASCII decimal digit.
pub open spec fn is_digit_byte(b: u8) -> bool {
    0x30 <= b && b <= 0x39
}

/// The numeric value of one ASCII decimal digit.
pub open spec fn digit_val(b: u8) -> int {
    b - 0x30
}

/// Every byte of `s` is an ASCII decimal digit.
pub open spec fn all_digits(s: Seq<u8>) -> bool {
    forall|i: int| 0 <= i < s.len() ==> is_digit_byte(s[i])
}

/// The number the digit string `s` denotes, read left to right.
pub open spec fn octet_value(s: Seq<u8>) -> int
    decreases s.len(),
{
    if s.len() == 0 {
        0
    } else {
        octet_value(s.drop_last()) * 10 + digit_val(s.last())
    }
}

/// A segment names one octet: non-empty, all digits, value at most 255.
pub open spec fn valid_octet(s: Seq<u8>) -> bool {
    &&& s.len() >= 1
    &&& all_digits(s)
    &&& octet_value(s) <= 255
}

/// The byte strings split on dots form exactly four valid octets.
pub open spec fn quad_valid(s: Seq<u8>) -> bool {
    let d1 = seq_find(s, 0x2e, 0);
    if d1 < s.len() {
        let d2 = seq_find(s, 0x2e, d1 + 1);
        if d2 < s.len() {
            let d3 = seq_find(s, 0x2e, d2 + 1);
            if d3 < s.len() {
                &&& seq_find(s, 0x2e, d3 + 1) == s.len()
                &&& valid_octet(s.subrange(0, d1))
                &&& valid_octet(s.subrange(d1 + 1, d2))
                &&& valid_octet(s.subrange(d2 + 1, d3))
                &&& valid_octet(s.subrange(d3 + 1, s.len() as int))
            } else {
                false
            }
        } else {
            false
        }
    } else {
        false
    }
}

/// The four octet values a valid dotted quad denotes, in order.
pub open spec fn quad_octets(s: Seq<u8>) -> Seq<u8>
    recommends
        quad_valid(s),
{
    let d1 = seq_find(s, 0x2e, 0);
    let d2 = seq_find(s, 0x2e, d1 + 1);
    let d3 = seq_find(s, 0x2e, d2 + 1);
    seq![
        octet_value(s.subrange(0, d1)) as u8,
        octet_value(s.subrange(d1 + 1, d2)) as u8,
        octet_value(s.subrange(d2 + 1, d3)) as u8,
        octet_value(s.subrange(d3 + 1, s.len() as int)) as u8,
    ]
}

/// Reads the digit segment `bytes[start..end]` as one octet value,
/// returning `None` when it is empty, holds a non-digit, or denotes a
/// number above 255.
fn parse_octet(bytes: &Vec<u8>, start: usize, end: usize) -> (r: Option<u8>)
    requires
        start <= end <= bytes@.len(),
    ensures
        r is Some <==> valid_octet(bytes@.subrange(start as int, end as int)),
        r is Some ==> r->Some_0 as int == octet_value(bytes@.subrange(start as int, end as int)),
{
    let ghost seg = bytes@.subrange(start as int, end as int);
    if start == end {
        return None;
    }
    let mut acc: u32 = 0;
    let mut k: usize = start;
    while k < end
        invariant
            start <= k <= end <= bytes@.len(),
            seg == bytes@.subrange(start as int, end as int),
            all_digits(bytes@.subrange(start as int, k as int)),
            acc <= 256,
            octet_value(bytes@.subrange(start as int, k as int)) <= 255 ==> acc == octet_value(
                bytes@.subrange(start as int, k as int),
            ),
            octet_value(bytes@.subrange(start as int, k as int)) > 255 ==> acc == 256,
        decreases end - k,
    {
        let b = bytes[k];
        if b < 0x30 || b > 0x39 {
            proof {
                assert(seg[k - start] == bytes@[k as int]);
                assert(!all_digits(seg));
            }
            return None;
        }
        let d = (b - 0x30) as u32;
        proof {
            assert(bytes@.subrange(start as int, k + 1).drop_last() =~= bytes@.subrange(
                start as int,
                k as int,
            ));
            assert(bytes@.subrange(start as int, k + 1).last() == bytes@[k as int]);
            assert(all_digits(bytes@.subrange(start as int, k + 1)));
        }
        if acc * 10 + d > 255 {
            acc = 256;
        } else {
            acc = acc * 10 + d;
        }
        k = k + 1;
    }
    proof {
        assert(bytes@.subrange(start as int, k as int) =~= seg);
    }
    if acc <= 255 {
        Some(acc as u8)
    } else {
        None
    }
}

/// Parses a dotted-decimal address string into its four octets,
/// returning `None` unless the string's bytes split on dots into
/// exactly four segments that each name an octet in 0..=255.
pub fn parse_dotted_quad(s: &str) -> (r: Option<Vec<u8>>)
    ensures
        r is Some <==> quad_valid(s.spec_bytes()),
        r is Some ==> r->Some_0@ == quad_octets(s.spec_bytes()),
        r is Some ==> r->Some_0@.len() == 4,
{
    let bytes: Vec<u8> = slice_to_vec(s.as_bytes());
    let n = bytes.len();
    let d1 = find_byte(&bytes, 0, 0x2e);
    if d1 >= n {
        return None;
    }
    let d2 = find_byte(&bytes, d1 + 1, 0x2e);
    proof {
        lemma_seq_find_properties(bytes@, 0x2e, d1 + 1);
    }
    if d2 >= n {
        return None;
    }
    let d3 = find_byte(&bytes, d2 + 1, 0x2e);
    proof {
        lemma_seq_find_properties(bytes@, 0x2e, d2 + 1);
    }
    if d3 >= n {
        return None;
    }
    let d4 = find_byte(&bytes, d3 + 1, 0x2e);
    proof {
        lemma_seq_find_properties(bytes@, 0x2e, d3 + 1);
    }
    if d4 < n {
        return None;
    }
    let o1 = match parse_octet(&bytes, 0, d1) {
        Some(v) => v,
        None => { return None; },
    };
    let o2 = match parse_octet(&bytes, d1 + 1, d2) {
        Some(v) => v,
        None => { return None; },
    };
    let o3 = match parse_octet(&bytes, d2 + 1, d3) {
        Some(v) => v,
        None => { return None; },
    };
    let o4 = match parse_octet(&bytes, d3 + 1, n) {
        Some(v) => v,
        None => { return None; },
    };
    let r = vec![o1, o2, o3, o4];
    proof {
        assert(r@ =~= quad_octets(s.spec_bytes()));
    }
    Some(r)
}

impl ResourceRecord {
    /// The stated data length matches the payload.
    pub open spec fn wf(self) -> bool {
        self.rdlength == self.rdata@.len()
    }

    /// The exact bytes this record encodes to: the name reference,
    /// then type, class, 32-bit time-to-live and data length,
    /// big-endian, then the raw payload.
    pub open spec fn spec_encode(self) -> Seq<u8> {
        self.name@ + seq![
            hi16(self.rtype),
            lo16(self.rtype),
            hi16(self.class),
            lo16(self.class),
        ] + be32_bytes(self.ttl) + seq![hi16(self.rdlength), lo16(self.rdlength)] + self.rdata@
    }

    /// Builds an address record from a time-to-live and a
    /// dotted-decimal address string. The name is the fixed two-byte
    /// compression pointer to offset 12, the first question's name;
    /// type and class are the address-record and internet-class
    /// values. Fails unless the string names exactly four octets in
    /// 0..=255.
    pub fn new(ttl: u32, rdata: &str) -> (r: Result<ResourceRecord, DnsError>)
        ensures
            r is Ok <==> quad_valid(rdata.spec_bytes()),
            r is Ok ==> {
                let rec = r->Ok_0;
                &&& rec.name@ == seq![0xc0u8, 0x0cu8]
                &&& rec.rtype == 1
                &&& rec.class == 1
                &&& rec.ttl == ttl
                &&& rec.rdlength == 4
                &&& rec.rdata@ == quad_octets(rdata.spec_bytes())
                &&& rec.wf()
            },
            r is Err ==> r->Err_0 == DnsError::MalformedAddress,
    {
        let parts = match parse_dotted_quad(rdata) {
            Some(v) => v,
            None => { return Err(DnsError::MalformedAddress); },
        };
        let rdlength = parts.len() as u16;
        Ok(ResourceRecord { name: vec![0xc0, 0x0c], rtype: 1, class: 1, ttl, rdlength, rdata: parts })
    }

    /// Concatenates the name reference, the big-endian fixed-width
    /// fields and the raw payload.
    pub fn to_buffer(&self) -> (r: Vec<u8>)
        ensures
            r@ == self.spec_encode(),
            r@.len() == self.name@.len() + 10 + self.rdata@.len(),
    {
        let mut result: Vec<u8> = Vec::new();
        crate::wire::append_bytes(&mut result, &self.name);
        result.push((self.rtype >> 8) as u8);
        result.push(self.rtype as u8);
        result.push((self.class >> 8) as u8);
        result.push(self.class as u8);
        result.push((self.ttl >> 24) as u8);
        result.push((self.ttl >> 16) as u8);
        result.push((self.ttl >> 8) as u8);
        result.push(self.ttl as u8);
        result.push((self.rdlength >> 8) as u8);
        result.push(self.rdlength as u8);
        crate::wire::append_bytes(&mut result, &self.rdata);
        proof {
            assert(result@ =~= self.spec_encode());
        }
        result
    }
}

} // verus!
