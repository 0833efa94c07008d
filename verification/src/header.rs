//! The fixed 12-byte DNS message header: a 16-bit transaction id, two
//! flag bytes packed from six bit-fields plus a reserved field and a
//! response code, and four 16-bit section counts.

use vstd::prelude::*;

use crate::DnsError;
use crate::wire::be16;
use crate::wire::hi16;
use crate::wire::lo16;

verus! {

/// A decoded DNS header. The flag fields are stored unpacked, one per
/// byte-sized field; a header is well formed when each fits the bit
/// width it occupies on the wire.
#[derive(Clone, Copy, Debug, PartialEq, Eq, Structural)]
pub struct Header {
    /// Transaction identifier.
    pub id: u16,
    /// Query (0) or response (1); 1 bit.
    pub qr: u8,
    /// Kind of query in this message; 4 bits.
    pub opcode: u8,
    /// Authoritative answer; 1 bit.
    pub aa: u8,
    /// Truncation; 1 bit.
    pub tc: u8,
    /// Recursion desired; 1 bit.
    pub rd: u8,
    /// Recursion available; 1 bit.
    pub ra: u8,
    /// Reserved; 3 bits.
    pub z: u8,
    /// Response code; 4 bits.
    pub rcode: u8,
    /// Number of entries in the question section.
    pub qdcount: u16,
    /// Number of resource records in the answer section.
    pub ancount: u16,
    /// Number of name-server records in the authority section.
    pub nscount: u16,
    /// Number of records in the additional section.
    pub arcount: u16,
}

/// The number of bytes a header occupies on the wire.
pub open spec fn spec_header_size() -> int {
    12
}

impl Header {
    /// Every flag field fits the bit width it occupies on the wire.
    pub open spec fn wf(self) -> bool {
        &&& self.qr < 2
        &&& self.opcode < 16
        &&& self.aa < 2
        &&& self.tc < 2
        &&& self.rd < 2
        &&& self.ra < 2
        &&& self.z < 8
        &&& self.rcode < 16
    }

    /// The exact 12 bytes this header encodes to.
    pub open spec fn spec_encode(self) -> Seq<u8> {
        seq![
            hi16(self.id),
            lo16(self.id),
            (self.qr << 7) | (self.opcode << 3) | (self.aa << 2) | (self.tc << 1) | self.rd,
            (self.ra << 7) | (self.z << 4) | self.rcode,
            hi16(self.qdcount),
            lo16(self.qdcount),
            hi16(self.ancount),
            lo16(self.ancount),
            hi16(self.nscount),
            lo16(self.nscount),
            hi16(self.arcount),
            lo16(self.arcount),
        ]
    }

    /// The header read from 12 bytes of `s` starting at `off`.
    pub open spec fn spec_decode(s: Seq<u8>, off: int) -> Header
        recommends
            0 <= off,
            off + spec_header_size() <= s.len(),
    {
        Header {
            id: be16(s[off], s[off + 1]),
            qr: (s[off + 2] & 0b1000_0000) >> 7,
            opcode: (s[off + 2] & 0b0111_1000) >> 3,
            aa: (s[off + 2] & 0b0000_0100) >> 2,
            tc: (s[off + 2] & 0b0000_0010) >> 1,
            rd: s[off + 2] & 0b0000_0001,
            ra: (s[off + 3] & 0b1000_0000) >> 7,
            z: (s[off + 3] & 0b0111_0000) >> 4,
            rcode: s[off + 3] & 0b0000_1111,
            qdcount: be16(s[off + 4], s[off + 5]),
            ancount: be16(s[off + 6], s[off + 7]),
            nscount: be16(s[off + 8], s[off + 9]),
            arcount: be16(s[off + 10], s[off + 11]),
        }
    }

    /// Reads the 12-byte header starting at `offset`, failing when
    /// fewer than 12 bytes remain from there.
    pub fn from_buffer(buf: &Vec<u8>, offset: usize) -> (r: Result<Header, DnsError>)
        ensures
            r is Ok <==> offset + spec_header_size() <= buf@.len(),
            r is Ok ==> r->Ok_0 == Header::spec_decode(buf@, offset as int),
            r is Ok ==> r->Ok_0.wf(),
            r is Err ==> r->Err_0 == DnsError::Truncated,
    {
        if buf.len() < 12 || offset > buf.len() - 12 {
            return Err(DnsError::Truncated);
        }
        let h = Header {
            id: ((buf[offset] as u16) << 8) | (buf[offset + 1] as u16),
            qr: (buf[offset + 2] & 0b1000_0000) >> 7,
            opcode: (buf[offset + 2] & 0b0111_1000) >> 3,
            aa: (buf[offset + 2] & 0b0000_0100) >> 2,
            tc: (buf[offset + 2] & 0b0000_0010) >> 1,
            rd: buf[offset + 2] & 0b0000_0001,
            ra: (buf[offset + 3] & 0b1000_0000) >> 7,
            z: (buf[offset + 3] & 0b0111_0000) >> 4,
            rcode: buf[offset + 3] & 0b0000_1111,
            qdcount: ((buf[offset + 4] as u16) << 8) | (buf[offset + 5] as u16),
            ancount: ((buf[offset + 6] as u16) << 8) | (buf[offset + 7] as u16),
            nscount: ((buf[offset + 8] as u16) << 8) | (buf[offset + 9] as u16),
            arcount: ((buf[offset + 10] as u16) << 8) | (buf[offset + 11] as u16),
        };
        proof {
            Self::lemma_decoded_fields_fit(buf@, offset as int);
        }
        Ok(h)
    }

    /// The fields `spec_decode` masks out of the flag bytes fit their
    /// bit widths.
    proof fn lemma_decoded_fields_fit(s: Seq<u8>, off: int)
        requires
            0 <= off,
            off + spec_header_size() <= s.len(),
        ensures
            Header::spec_decode(s, off).wf(),
    {
        let b2 = s[off + 2];
        let b3 = s[off + 3];
        assert((b2 & 0b1000_0000) >> 7 < 2) by (bit_vector);
        assert((b2 & 0b0111_1000) >> 3 < 16) by (bit_vector);
        assert((b2 & 0b0000_0100) >> 2 < 2) by (bit_vector);
        assert((b2 & 0b0000_0010) >> 1 < 2) by (bit_vector);
        assert(b2 & 0b0000_0001 < 2) by (bit_vector);
        assert((b3 & 0b1000_0000) >> 7 < 2) by (bit_vector);
        assert((b3 & 0b0111_0000) >> 4 < 8) by (bit_vector);
        assert(b3 & 0b0000_1111 < 16) by (bit_vector);
    }

    /// Packs the header into its exact 12-byte wire form.
    pub fn to_buffer(&self) -> (r: Vec<u8>)
        ensures
            r@ == self.spec_encode(),
            r@.len() == spec_header_size(),
    {
        let r = vec![
            (self.id >> 8) as u8,
            self.id as u8,
            (self.qr << 7) | (self.opcode << 3) | (self.aa << 2) | (self.tc << 1) | self.rd,
            (self.ra << 7) | (self.z << 4) | self.rcode,
            (self.qdcount >> 8) as u8,
            self.qdcount as u8,
            (self.ancount >> 8) as u8,
            self.ancount as u8,
            (self.nscount >> 8) as u8,
            self.nscount as u8,
            (self.arcount >> 8) as u8,
            self.arcount as u8,
        ];
        proof {
            assert(r@ =~= self.spec_encode());
        }
        r
    }
}

/// Round trip: decoding the 12 bytes a well-formed header encodes to
/// gives the header back, field for field.
pub proof fn lemma_header_round_trip(h: Header)
    requires
        h.wf(),
    ensures
        h.spec_encode().len() == spec_header_size(),
        Header::spec_decode(h.spec_encode(), 0) == h,
{
    let b = h.spec_encode();
    let id = h.id;
    let qr = h.qr;
    let opcode = h.opcode;
    let aa = h.aa;
    let tc = h.tc;
    let rd = h.rd;
    let ra = h.ra;
    let z = h.z;
    let rcode = h.rcode;
    assert(((((id >> 8) as u8) as u16) << 8) | ((id as u8) as u16) == id) by (bit_vector);
    let b2 = (qr << 7) | (opcode << 3) | (aa << 2) | (tc << 1) | rd;
    assert((b2 & 0b1000_0000) >> 7 == qr && (b2 & 0b0111_1000) >> 3 == opcode && (b2
        & 0b0000_0100) >> 2 == aa && (b2 & 0b0000_0010) >> 1 == tc && b2 & 0b0000_0001
        == rd) by (bit_vector)
        requires
            qr < 2,
            opcode < 16,
            aa < 2,
            tc < 2,
            rd < 2,
            b2 == (qr << 7) | (opcode << 3) | (aa << 2) | (tc << 1) | rd,
    ;
    let b3 = (ra << 7) | (z << 4) | rcode;
    assert((b3 & 0b1000_0000) >> 7 == ra && (b3 & 0b0111_0000) >> 4 == z && b3 & 0b0000_1111
        == rcode) by (bit_vector)
        requires
            ra < 2,
            z < 8,
            rcode < 16,
            b3 == (ra << 7) | (z << 4) | rcode,
    ;
    let qd = h.qdcount;
    let an = h.ancount;
    let ns = h.nscount;
    let ar = h.arcount;
    assert(((((qd >> 8) as u8) as u16) << 8) | ((qd as u8) as u16) == qd) by (bit_vector);
    assert(((((an >> 8) as u8) as u16) << 8) | ((an as u8) as u16) == an) by (bit_vector);
    assert(((((ns >> 8) as u8) as u16) << 8) | ((ns as u8) as u16) == ns) by (bit_vector);
    assert(((((ar >> 8) as u8) as u16) << 8) | ((ar as u8) as u16) == ar) by (bit_vector);
}

} // verus!
