use dns_codec::DnsError;
use dns_codec::header::Header;
use dns_codec::question::Query;
use dns_codec::record::ResourceRecord;
use dns_codec::record::parse_dotted_quad;

fn sample_header() -> Header {
    Header {
        id: 0x1234,
        qr: 1,
        opcode: 0,
        aa: 0,
        tc: 0,
        rd: 1,
        ra: 1,
        z: 0,
        rcode: 0,
        qdcount: 0,
        ancount: 0,
        nscount: 0,
        arcount: 0,
    }
}

#[test]
fn header_bit_packing() {
    let bytes = sample_header().to_buffer();
    assert_eq!(
        bytes,
        vec![0x12, 0x34, 0x81, 0x80, 0, 0, 0, 0, 0, 0, 0, 0]
    );
}

#[test]
fn header_round_trip() {
    let h = Header {
        id: 0xabcd,
        qr: 1,
        opcode: 5,
        aa: 1,
        tc: 0,
        rd: 1,
        ra: 0,
        z: 3,
        rcode: 9,
        qdcount: 1,
        ancount: 2,
        nscount: 3,
        arcount: 4,
    };
    let bytes = h.to_buffer();
    assert_eq!(Header::from_buffer(&bytes, 0), Ok(h));
}

#[test]
fn header_round_trip_simple() {
    let h = sample_header();
    assert_eq!(Header::from_buffer(&h.to_buffer(), 0), Ok(h));
}

#[test]
fn header_decode_fields() {
    let buf = vec![0x12, 0x34, 0x81, 0x80, 0, 1, 0, 2, 0, 3, 0, 4];
    let h = Header::from_buffer(&buf, 0).unwrap();
    assert_eq!(h.id, 0x1234);
    assert_eq!(h.qr, 1);
    assert_eq!(h.opcode, 0);
    assert_eq!(h.aa, 0);
    assert_eq!(h.tc, 0);
    assert_eq!(h.rd, 1);
    assert_eq!(h.ra, 1);
    assert_eq!(h.z, 0);
    assert_eq!(h.rcode, 0);
    assert_eq!(h.qdcount, 1);
    assert_eq!(h.ancount, 2);
    assert_eq!(h.nscount, 3);
    assert_eq!(h.arcount, 4);
}

#[test]
fn header_decode_at_offset() {
    let mut buf = vec![0xff, 0xee];
    buf.extend_from_slice(&sample_header().to_buffer());
    assert_eq!(Header::from_buffer(&buf, 2), Ok(sample_header()));
}

#[test]
fn header_truncated() {
    let buf = vec![0u8; 11];
    assert_eq!(Header::from_buffer(&buf, 0), Err(DnsError::Truncated));
    let buf12 = vec![0u8; 12];
    assert_eq!(Header::from_buffer(&buf12, 1), Err(DnsError::Truncated));
    assert!(Header::from_buffer(&buf12, 0).is_ok());
}

fn www_com_name() -> Vec<u8> {
    vec![3, b'w', b'w', b'w', 3, b'c', b'o', b'm', 0]
}

#[test]
fn question_round_trip() {
    let q = Query {
        qtype: 1,
        qclass: 1,
        qname: www_com_name(),
    };
    let bytes = q.to_buffer();
    let (decoded, next) = Query::from_buffer(&bytes, 0).unwrap();
    assert_eq!(decoded.qname, q.qname);
    assert_eq!(decoded.qtype, q.qtype);
    assert_eq!(decoded.qclass, q.qclass);
    assert_eq!(next, q.qname.len() + 4);
}

#[test]
fn question_decode_fields() {
    let buf = vec![3, b'w', b'w', b'w', 3, b'c', b'o', b'm', 0, 0, 1, 0, 1];
    let (q, next) = Query::from_buffer(&buf, 0).unwrap();
    assert_eq!(q.qname, www_com_name());
    assert_eq!(q.qtype, 1);
    assert_eq!(q.qclass, 1);
    assert_eq!(next, 13);
}

#[test]
fn question_encode_bytes() {
    let q = Query {
        qtype: 0x0102,
        qclass: 0x0304,
        qname: vec![1, b'a', 0],
    };
    assert_eq!(q.to_buffer(), vec![1, b'a', 0, 0x01, 0x02, 0x03, 0x04]);
}

#[test]
fn question_boundary_terminator() {
    // The buffer ends exactly at the terminator: no type and class
    // bytes remain, so decoding reports truncated input.
    let buf = vec![3, b'w', b'w', b'w', 0];
    assert_eq!(Query::from_buffer(&buf, 0), Err(DnsError::Truncated));
}

#[test]
fn question_no_terminator() {
    let buf = vec![3, b'w', b'w', b'w'];
    assert_eq!(Query::from_buffer(&buf, 0), Err(DnsError::Truncated));
    assert_eq!(
        Query::from_buffer(&buf, buf.len() + 1),
        Err(DnsError::Truncated)
    );
}

#[test]
fn question_offset_advance() {
    // Two questions back to back: each decode advances the offset by
    // label length + 1 + 4, landing exactly on the next question.
    let q1 = Query {
        qtype: 1,
        qclass: 1,
        qname: www_com_name(),
    };
    let q2 = Query {
        qtype: 0x1c,
        qclass: 1,
        qname: vec![2, b'a', b'b', 0],
    };
    let mut buf = q1.to_buffer();
    buf.extend_from_slice(&q2.to_buffer());
    let (d1, next1) = Query::from_buffer(&buf, 0).unwrap();
    assert_eq!(d1.qname, q1.qname);
    assert_eq!(next1, q1.qname.len() + 4);
    let (d2, next2) = Query::from_buffer(&buf, next1).unwrap();
    assert_eq!(d2.qname, q2.qname);
    assert_eq!(d2.qtype, 0x1c);
    assert_eq!(next2, next1 + q2.qname.len() + 4);
    assert_eq!(next2, buf.len());
}

#[test]
fn get_name_www_com() {
    let q = Query {
        qtype: 1,
        qclass: 1,
        qname: www_com_name(),
    };
    assert_eq!(q.get_name(), "www.com.");
}

#[test]
fn get_name_root() {
    let q = Query {
        qtype: 1,
        qclass: 1,
        qname: vec![0],
    };
    assert_eq!(q.get_name(), "");
}

#[test]
fn get_name_truncated_label() {
    // A length byte claiming more bytes than remain yields the
    // remaining bytes with no final separator.
    let q = Query {
        qtype: 1,
        qclass: 1,
        qname: vec![5, b'a', b'b', 0],
    };
    assert_eq!(q.get_name(), "ab\u{0}");
}

#[test]
fn record_construct() {
    let r = ResourceRecord::new(60, "192.168.1.1").unwrap();
    assert_eq!(r.name, vec![0xc0, 0x0c]);
    assert_eq!(r.rtype, 1);
    assert_eq!(r.class, 1);
    assert_eq!(r.ttl, 60);
    assert_eq!(r.rdlength, 4);
    assert_eq!(r.rdata, vec![192, 168, 1, 1]);
}

#[test]
fn record_construct_rejects_malformed() {
    for bad in [
        "1.2.3",
        "1.2.3.4.5",
        "256.1.1.1",
        "1.2.3.",
        ".1.2.3",
        "1..2.3",
        "a.b.c.d",
        "",
        "1.2.3.4x",
        "1 .2.3.4",
    ] {
        assert_eq!(
            ResourceRecord::new(60, bad),
            Err(DnsError::MalformedAddress),
            "expected rejection of {bad:?}"
        );
    }
}

#[test]
fn record_construct_leading_zeros() {
    let r = ResourceRecord::new(5, "010.001.000.255").unwrap();
    assert_eq!(r.rdata, vec![10, 1, 0, 255]);
}

#[test]
fn record_encode_bytes() {
    let r = ResourceRecord::new(60, "192.168.1.1").unwrap();
    assert_eq!(
        r.to_buffer(),
        vec![0xc0, 0x0c, 0, 1, 0, 1, 0, 0, 0, 60, 0, 4, 192, 168, 1, 1]
    );
}

#[test]
fn record_encode_large_ttl() {
    let r = ResourceRecord::new(0x01020304, "0.0.0.0").unwrap();
    let bytes = r.to_buffer();
    assert_eq!(&bytes[6..10], &[0x01, 0x02, 0x03, 0x04]);
}

#[test]
fn parse_dotted_quad_values() {
    assert_eq!(parse_dotted_quad("0.0.0.0"), Some(vec![0, 0, 0, 0]));
    assert_eq!(
        parse_dotted_quad("255.255.255.255"),
        Some(vec![255, 255, 255, 255])
    );
    assert_eq!(parse_dotted_quad("8.8.4.4"), Some(vec![8, 8, 4, 4]));
    assert_eq!(parse_dotted_quad("1.2.3.256"), None);
    assert_eq!(parse_dotted_quad("1.2.3"), None);
}

#[test]
fn whole_response_layout() {
    // A response assembled the way the I/O shell does it: header,
    // then the question, then one answer record.
    let buf = vec![3, b'w', b'w', b'w', 3, b'c', b'o', b'm', 0, 0, 1, 0, 1];
    let (q, _next) = Query::from_buffer(&buf, 0).unwrap();
    let mut h = sample_header();
    h.qdcount = 1;
    h.ancount = 1;
    let answer = ResourceRecord::new(60, "192.168.1.1").unwrap();
    let mut response = h.to_buffer();
    response.extend_from_slice(&q.to_buffer());
    response.extend_from_slice(&answer.to_buffer());
    assert_eq!(response.len(), 12 + 13 + 16);
    // The answer's name pointer refers to offset 12, where the
    // question's name begins.
    assert_eq!(&response[25..27], &[0xc0, 0x0c]);
    assert_eq!(response[12], 3);
}

