//! Tests for the message builder.

use dns_codec::dns::{build_query, build_query_with_id};
use dns_codec::encode::dns_name;
use dns_codec::types::{DnsError, QClass, QType};

use rand::rngs::StdRng;
use rand::{Rng, SeedableRng};

/// The transaction id that a generator seeded with all-ones bytes
/// draws first: the id the expected byte sequences below carry.
fn seeded_id() -> u16 {
    let seed = [1; 32];
    let mut rng: StdRng = SeedableRng::from_seed(seed);
    rng.gen_range(0..=65535)
}

#[test]
fn test_build_query() {
    let test_cases: Vec<(&str, QType, QClass, Vec<u8>)> = vec![
        // The empty name is the root: a single zero byte as the qname.
        (
            "",
            QType::A,
            QClass::IN,
            vec![1, 51, 1, 0, 0, 1, 0, 0, 0, 0, 0, 0, 0, 0, 1, 0, 1],
        ),
        (
            "google.com",
            QType::A,
            QClass::IN,
            vec![
                1, 51, 1, 0, 0, 1, 0, 0, 0, 0, 0, 0, // header
                6, 103, 111, 111, 103, 108, 101, 3, 99, 111, 109, 0, // question
                0, 1, 0, 1,
            ],
        ),
        (
            "google.com",
            QType::TXT,
            QClass::ANY,
            vec![
                1, 51, 1, 0, 0, 1, 0, 0, 0, 0, 0, 0, // header
                6, 103, 111, 111, 103, 108, 101, 3, 99, 111, 109, 0, // question
                0, 16, 0, 255,
            ],
        ),
    ];

    for (domain, record_type, record_class, expected) in test_cases {
        let actual = build_query_with_id(domain, record_type, record_class, seeded_id()).unwrap();
        assert_eq!(
            actual, expected,
            "failed for domain: {}, type: {:?} & class: {:?}",
            domain, record_type, record_class
        );
    }
}

#[test]
fn test_build_query_cname_in() {
    let query = build_query("google.com", QType::CNAME, QClass::IN).unwrap();
    let name = dns_name("google.com").unwrap();
    assert_eq!(query.len(), 12 + name.len() + 4);
    // Flags: only the recursion-desired bit.
    assert_eq!(&query[2..4], &[1, 0]);
    // One question, no other sections.
    assert_eq!(&query[4..6], &[0, 1]);
    assert_eq!(&query[6..8], &[0, 0]);
    assert_eq!(&query[8..10], &[0, 0]);
    assert_eq!(&query[10..12], &[0, 0]);
    // The question: the encoded name, then CNAME (5) in IN (1).
    assert_eq!(&query[12..12 + name.len()], &name[..]);
    assert_eq!(&query[12 + name.len()..], &[0, 5, 0, 1]);
}

#[test]
fn test_build_query_invalid_label() {
    let domain = format!("{}.com", "x".repeat(64));
    assert_eq!(
        build_query(&domain, QType::A, QClass::IN),
        Err(DnsError::InvalidLabel)
    );
    assert_eq!(
        build_query_with_id(&domain, QType::A, QClass::IN, 7),
        Err(DnsError::InvalidLabel)
    );
}

#[test]
fn test_build_query_with_id_places_id() {
    let query = build_query_with_id("google.com", QType::A, QClass::IN, 0xABCD).unwrap();
    assert_eq!(&query[0..2], &[0xAB, 0xCD]);
}
