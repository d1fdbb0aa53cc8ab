//! Tests for the entity codecs: records, headers and questions.

use dns_codec::types::{DNSHeader, DNSQuestion, DNSRecord, DnsError, QClass, QType};

#[test]
fn test_record_to_bytes() {
    let test_cases: Vec<(DNSRecord, Vec<u8>)> = vec![
        // Most of the values are set to 0.
        (
            DNSRecord {
                name: vec![],
                rtype: QType::NULL,
                class: QClass::CS,
                ttl: 0,
                rdlength: 0,
                rdata: vec![],
            },
            vec![0, 10, 0, 2, 0, 0, 0, 0, 0, 0],
        ),
        // A single-space record name.
        (
            DNSRecord {
                name: vec![b' '],
                rtype: QType::NS,
                class: QClass::CH,
                ttl: 0,
                rdlength: 1,
                rdata: vec![],
            },
            vec![32, 0, 2, 0, 3, 0, 0, 0, 0, 0, 1],
        ),
        // A record with a valid name and data.
        (
            DNSRecord {
                name: vec![b'g', b'o', b'o', b'g', b'l', b'e', b'.', b'c', b'o', b'm'],
                rtype: QType::ANY,
                class: QClass::IN,
                ttl: 3600,
                rdlength: 4,
                rdata: vec![127, 0, 0, 1],
            },
            vec![
                103, 111, 111, 103, 108, 101, 46, 99, 111, 109, 0, 255, 0, 1, 0, 0, 14, 16, 0, 4,
                127, 0, 0, 1,
            ],
        ),
        // A record with a different name and data.
        (
            DNSRecord {
                name: vec![
                    b'f', b'a', b'c', b'e', b'b', b'o', b'o', b'k', b'.', b'c', b'o', b'm',
                ],
                rtype: QType::A,
                class: QClass::HS,
                ttl: 7200,
                rdlength: 4,
                rdata: vec![157, 240, 0, 1],
            },
            vec![
                102, 97, 99, 101, 98, 111, 111, 107, 46, 99, 111, 109, 0, 1, 0, 4, 0, 0, 28, 32,
                0, 4, 157, 240, 0, 1,
            ],
        ),
    ];

    for (record, expected) in test_cases {
        let actual = record.to_bytes().unwrap();
        assert_eq!(actual, expected, "failed for dns record: {:?}", record);
    }
}

#[test]
fn test_qtype_into() {
    let test_cases: Vec<(QType, u16)> = vec![
        (QType::A, 1),
        (QType::NS, 2),
        (QType::CNAME, 5),
        (QType::SOA, 6),
        (QType::MB, 7),
        (QType::MG, 8),
        (QType::MR, 9),
        (QType::NULL, 10),
        (QType::WKS, 11),
        (QType::PTR, 12),
        (QType::HINFO, 13),
        (QType::MINFO, 14),
        (QType::MX, 15),
        (QType::TXT, 16),
        (QType::AXFR, 252),
        (QType::MAILB, 253),
        (QType::ANY, 255),
    ];

    for (qtype, expected) in test_cases {
        let actual: u16 = qtype.into();
        assert_eq!(actual, expected, "failed for qtype: {:?}", qtype);
    }
}

#[test]
fn test_qclass_into() {
    let test_cases: Vec<(QClass, u16)> = vec![
        (QClass::IN, 1),
        (QClass::CS, 2),
        (QClass::CH, 3),
        (QClass::HS, 4),
        (QClass::ANY, 255),
    ];

    for (qclass, expected) in test_cases {
        let actual: u16 = qclass.into();
        assert_eq!(actual, expected, "failed for qclass: {:?}", qclass);
    }
}

#[test]
fn test_header_to_bytes() {
    let test_cases: Vec<(DNSHeader, Vec<u8>)> = vec![
        // All values are set to 0.
        (
            DNSHeader { id: 0, flags: 0, qdcount: 0, ancount: 0, nscount: 0, arcount: 0 },
            vec![0, 0, 0, 0, 0, 0, 0, 0, 0, 0, 0, 0],
        ),
        // Some values are zero, others are not.
        (
            DNSHeader { id: 0, flags: 1024, qdcount: 0, ancount: 4, nscount: 0, arcount: 1 },
            vec![0, 0, 4, 0, 0, 0, 0, 4, 0, 0, 0, 1],
        ),
        // Values set to high numbers.
        (
            DNSHeader {
                id: 65535,
                flags: 8191,
                qdcount: 5000,
                ancount: 3000,
                nscount: 2000,
                arcount: 1000,
            },
            vec![255, 255, 31, 255, 19, 136, 11, 184, 7, 208, 3, 232],
        ),
    ];

    for (header, expected) in test_cases {
        let actual = header.to_bytes().unwrap();
        assert_eq!(actual, expected, "failed for dns header: {:?}", header);
    }
}

#[test]
fn test_qn_to_bytes() {
    let test_cases: Vec<(DNSQuestion, Vec<u8>)> = vec![
        // Some values are zero, others are not.
        (
            DNSQuestion { qname: vec![], qtype: QType::NULL, qclass: QClass::IN },
            vec![0, 10, 0, 1],
        ),
        // Values set to arbitrary numbers.
        (
            DNSQuestion {
                qname: vec![b'g', b'o', b'o', b'g', b'l', b'e', b'.', b'c', b'o', b'm'],
                qtype: QType::TXT,
                qclass: QClass::ANY,
            },
            vec![103, 111, 111, 103, 108, 101, 46, 99, 111, 109, 0, 16, 0, 255],
        ),
    ];

    for (question, expected) in test_cases {
        let actual = question.to_bytes().unwrap();
        assert_eq!(actual, expected, "failed for dns question: {:?}", question);
    }
}

#[test]
fn test_header_all_ones_is_12_bytes() {
    let header = DNSHeader {
        id: 0xFFFF,
        flags: 0xFFFF,
        qdcount: 0xFFFF,
        ancount: 0xFFFF,
        nscount: 0xFFFF,
        arcount: 0xFFFF,
    };
    let bytes = header.to_bytes().unwrap();
    assert_eq!(bytes.len(), 12);
    assert_eq!(bytes, vec![255; 12]);
}

#[test]
fn test_header_roundtrip() {
    let header = DNSHeader {
        id: 0x0133,
        flags: 0x0100,
        qdcount: 1,
        ancount: 2,
        nscount: 3,
        arcount: 4,
    };
    let bytes = header.to_bytes().unwrap();
    let decoded = DNSHeader::from_bytes(&bytes).unwrap();
    assert_eq!(decoded, header);
}

#[test]
fn test_header_from_bytes_truncated() {
    let bytes: Vec<u8> = vec![0; 11];
    assert_eq!(DNSHeader::from_bytes(&bytes), Err(DnsError::TruncatedMessage));
}

#[test]
fn test_question_roundtrip() {
    let qname = dns_codec::encode::dns_name("google.com").unwrap();
    let question = DNSQuestion { qname, qtype: QType::TXT, qclass: QClass::IN };
    let bytes = question.to_bytes().unwrap();
    let (decoded, end) = DNSQuestion::from_bytes(&bytes, 0).unwrap();
    assert_eq!(end, bytes.len());
    assert_eq!(decoded, question);
}

#[test]
fn test_question_from_bytes_truncated() {
    let qname = dns_codec::encode::dns_name("google.com").unwrap();
    let question = DNSQuestion { qname, qtype: QType::TXT, qclass: QClass::IN };
    let mut bytes = question.to_bytes().unwrap();
    bytes.pop();
    assert_eq!(
        DNSQuestion::from_bytes(&bytes, 0),
        Err(DnsError::TruncatedMessage)
    );
}

#[test]
fn test_record_roundtrip() {
    let name = dns_codec::encode::dns_name("facebook.com").unwrap();
    let record = DNSRecord {
        name,
        rtype: QType::A,
        class: QClass::IN,
        ttl: 7200,
        rdlength: 4,
        rdata: vec![157, 240, 0, 1],
    };
    let bytes = record.to_bytes().unwrap();
    let (decoded, end) = DNSRecord::from_bytes(&bytes, 0).unwrap();
    assert_eq!(end, bytes.len());
    assert_eq!(decoded, record);
}

#[test]
fn test_record_from_bytes_short_rdata() {
    // The record declares four data bytes but the buffer holds three.
    let name = dns_codec::encode::dns_name("facebook.com").unwrap();
    let record = DNSRecord {
        name,
        rtype: QType::A,
        class: QClass::IN,
        ttl: 7200,
        rdlength: 4,
        rdata: vec![157, 240, 0, 1],
    };
    let mut bytes = record.to_bytes().unwrap();
    bytes.pop();
    assert_eq!(DNSRecord::from_bytes(&bytes, 0), Err(DnsError::TruncatedMessage));
}

#[test]
fn test_record_from_bytes_unknown_codes() {
    // Type code 3 and class code 9 map to no named variant: the decode
    // keeps them as Unknown values rather than failing.
    let mut bytes: Vec<u8> = vec![3, b'f', b'o', b'o', 0];
    bytes.extend_from_slice(&[0, 3, 0, 9, 0, 0, 0, 60, 0, 1, 42]);
    let (decoded, end) = DNSRecord::from_bytes(&bytes, 0).unwrap();
    assert_eq!(end, bytes.len());
    assert_eq!(decoded.rtype, QType::Unknown(3));
    assert_eq!(decoded.class, QClass::Unknown(9));
    assert_eq!(decoded.ttl, 60);
    assert_eq!(decoded.rdlength, 1);
    assert_eq!(decoded.rdata, vec![42]);
}

#[test]
fn test_qtype_from_code() {
    assert_eq!(QType::from_code(1), QType::A);
    assert_eq!(QType::from_code(5), QType::CNAME);
    assert_eq!(QType::from_code(255), QType::ANY);
    assert_eq!(QType::from_code(3), QType::Unknown(3));
    assert_eq!(QType::Unknown(77).code(), 77);
}

#[test]
fn test_qclass_from_code() {
    assert_eq!(QClass::from_code(1), QClass::IN);
    assert_eq!(QClass::from_code(4), QClass::HS);
    assert_eq!(QClass::from_code(255), QClass::ANY);
    assert_eq!(QClass::from_code(6), QClass::Unknown(6));
    assert_eq!(QClass::Unknown(9).code(), 9);
}
