//! The message builder: one self-contained query per call.
//!
//! A query is the 12-byte header followed by one question: the encoded
//! domain name and the requested type and class codes.  The transaction
//! id comes from the caller or from a fresh random draw; the flags carry
//! only the "recursion desired" bit.

use vstd::prelude::*;
use vstd::string::StringSliceAdditionalSpecFns;

use crate::encode::{dns_name, encode_name, valid_name};
use crate::types::{
    header_bytes, qclass_code, qtype_code, DNSHeader, DNSQuestion, DnsError, QClass, QType,
};
use crate::wire::u16_be;

verus! {

/// The header flag bit that asks the server to resolve the query fully.
pub const RECURSION_DESIRED: u16 = 0x100;

/// The header of a query: one question, no other sections, recursion
/// desired.
pub open spec fn query_header(id: u16) -> DNSHeader {
    DNSHeader { id, flags: RECURSION_DESIRED, qdcount: 1, ancount: 0, nscount: 0, arcount: 0 }
}

/// The full bytes of a query: the header, then the encoded name and the
/// two codes of its single question.
pub open spec fn query_bytes(id: u16, s: Seq<u8>, t: QType, c: QClass) -> Seq<u8> {
    header_bytes(query_header(id)) + encode_name(s) + u16_be(qtype_code(t)) + u16_be(
        qclass_code(c),
    )
}

/// Relies on rand::random: draws a fresh 16-bit transaction id from the
/// thread-local generator.  Nothing is promised of the value.
#[verifier::external_body]
fn random_id() -> u16 {
    rand::random::<u16>()
}

/// Build one query message with the given transaction id.
///
/// Fails with `InvalidLabel` exactly when the label encoder rejects the
/// domain name; every accepted name gives exactly the wire bytes of a
/// header with `qdcount` one followed by the one question.
pub fn build_query_with_id(
    domain_name: &str,
    record_type: QType,
    record_class: QClass,
    id: u16,
) -> (r: Result<Vec<u8>, DnsError>)
    ensures
        r matches Ok(v) ==> valid_name(domain_name.spec_bytes()) && v@ == query_bytes(
            id,
            domain_name.spec_bytes(),
            record_type,
            record_class,
        ),
        r matches Err(e) ==> e == DnsError::InvalidLabel && !valid_name(domain_name.spec_bytes()),
{
    let name = match dns_name(domain_name) {
        Ok(v) => v,
        Err(e) => {
            return Err(e);
        },
    };
    let hdr = DNSHeader {
        id,
        flags: RECURSION_DESIRED,
        qdcount: 1,
        ancount: 0,
        nscount: 0,
        arcount: 0,
    };
    let qn = DNSQuestion { qname: name, qtype: record_type, qclass: record_class };
    let mut res = match hdr.to_bytes() {
        Ok(v) => v,
        Err(e) => {
            return Err(e);
        },
    };
    let mut qb = match qn.to_bytes() {
        Ok(v) => v,
        Err(e) => {
            return Err(e);
        },
    };
    res.append(&mut qb);
    proof {
        assert(res@ =~= query_bytes(
            id,
            domain_name.spec_bytes(),
            record_type,
            record_class,
        ));
    }
    Ok(res)
}

/// Build one query message, drawing a fresh random transaction id.
///
/// The id is unpredictable, so the result is pinned up to it: some
/// 16-bit id makes the bytes exactly a query for this name, type and
/// class.  Failure does not depend on the id at all.
pub fn build_query(domain_name: &str, record_type: QType, record_class: QClass) -> (r: Result<
    Vec<u8>,
    DnsError,
>)
    ensures
        r matches Ok(v) ==> valid_name(domain_name.spec_bytes()) && (exists|id: u16|
            v@ == query_bytes(id, domain_name.spec_bytes(), record_type, record_class)),
        r matches Err(e) ==> e == DnsError::InvalidLabel && !valid_name(domain_name.spec_bytes()),
{
    let id = random_id();
    match build_query_with_id(domain_name, record_type, record_class, id) {
        Ok(v) => {
            proof {
                assert(exists|i: u16|
                    v@ == query_bytes(
                        i,
                        domain_name.spec_bytes(),
                        record_type,
                        record_class,
                    )) by {
                    assert(v@ == query_bytes(
                        id,
                        domain_name.spec_bytes(),
                        record_type,
                        record_class,
                    ));
                }
            }
            Ok(v)
        },
        Err(e) => Err(e),
    }
}

} // verus!
