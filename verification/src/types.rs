//! The entities of a DNS message and their byte-level codecs.
//!
//! Resource records, questions and the fixed 12-byte header are all
//! serialized field by field in network byte order, as RFC1035 fixes them.

use vstd::prelude::*;

use crate::decode::{decode_name, lemma_name_end_widen, name_end, wf_name};
use crate::wire::{
    bytes_range, lemma_u16_be_inverse, lemma_u32_be_inverse, push_bytes, push_u16_be, push_u32_be,
    read_u16_be, read_u32_be, u16_be, u16_of_be, u32_be, u32_of_be,
};

verus! {

/// The ways the codec can fail.
#[derive(Debug, Clone, Copy, PartialEq, Eq, Structural)]
pub enum DnsError {
    /// A label of a domain name is longer than 63 bytes, or the encoded
    /// name would be longer than 255 bytes.
    InvalidLabel,
    /// A decode ran out of buffer before the entity was complete.
    TruncatedMessage,
}

/// The type of a record or question, with its RFC-assigned 16-bit code.
///
/// A code met on the wire that maps to no named variant decodes to
/// `Unknown` rather than failing: unrecognized codes are routine in live
/// traffic and must not be conflated with an error.
#[derive(Debug, Clone, Copy, PartialEq, Eq, Structural)]
pub enum QType {
    /// A host address.
    A,
    /// An authoritative name server.
    NS,
    /// The canonical name for an alias.
    CNAME,
    /// Marks the start of a zone of authority.
    SOA,
    /// A mailbox domain name (experimental).
    MB,
    /// A mail group member (experimental).
    MG,
    /// A mail rename domain name (experimental).
    MR,
    /// A null RR (experimental).
    NULL,
    /// A well known service description.
    WKS,
    /// A domain name pointer.
    PTR,
    /// Host information.
    HINFO,
    /// Mailbox or mail list information.
    MINFO,
    /// Mail exchange.
    MX,
    /// Text strings.
    TXT,
    /// A request for a transfer of an entire zone.
    AXFR,
    /// A request for mailbox-related records (MB, MG or MR).
    MAILB,
    /// A request for all records.
    ANY,
    /// A code with no named variant.
    Unknown(u16),
}

/// The class of a record or question, with its RFC-assigned 16-bit code.
#[derive(Debug, Clone, Copy, PartialEq, Eq, Structural)]
pub enum QClass {
    /// The Internet.
    IN,
    /// The CSNET class (obsolete).
    CS,
    /// The CHAOS class.
    CH,
    /// Hesiod.
    HS,
    /// Any class.
    ANY,
    /// A code with no named variant.
    Unknown(u16),
}

/// The 16-bit wire code of a record type.
pub open spec fn qtype_code(t: QType) -> u16 {
    match t {
        QType::A => 1,
        QType::NS => 2,
        QType::CNAME => 5,
        QType::SOA => 6,
        QType::MB => 7,
        QType::MG => 8,
        QType::MR => 9,
        QType::NULL => 10,
        QType::WKS => 11,
        QType::PTR => 12,
        QType::HINFO => 13,
        QType::MINFO => 14,
        QType::MX => 15,
        QType::TXT => 16,
        QType::AXFR => 252,
        QType::MAILB => 253,
        QType::ANY => 255,
        QType::Unknown(c) => c,
    }
}

/// The record type a 16-bit wire code stands for.
pub open spec fn qtype_of_code(c: u16) -> QType {
    if c == 1 {
        QType::A
    } else if c == 2 {
        QType::NS
    } else if c == 5 {
        QType::CNAME
    } else if c == 6 {
        QType::SOA
    } else if c == 7 {
        QType::MB
    } else if c == 8 {
        QType::MG
    } else if c == 9 {
        QType::MR
    } else if c == 10 {
        QType::NULL
    } else if c == 11 {
        QType::WKS
    } else if c == 12 {
        QType::PTR
    } else if c == 13 {
        QType::HINFO
    } else if c == 14 {
        QType::MINFO
    } else if c == 15 {
        QType::MX
    } else if c == 16 {
        QType::TXT
    } else if c == 252 {
        QType::AXFR
    } else if c == 253 {
        QType::MAILB
    } else if c == 255 {
        QType::ANY
    } else {
        QType::Unknown(c)
    }
}

/// A record type that decoding its own code gives back: every named
/// variant, and `Unknown` only where the code has no named variant.
pub open spec fn canonical_qtype(t: QType) -> bool {
    qtype_of_code(qtype_code(t)) == t
}

/// The 16-bit wire code of a record class.
pub open spec fn qclass_code(c: QClass) -> u16 {
    match c {
        QClass::IN => 1,
        QClass::CS => 2,
        QClass::CH => 3,
        QClass::HS => 4,
        QClass::ANY => 255,
        QClass::Unknown(x) => x,
    }
}

/// The record class a 16-bit wire code stands for.
pub open spec fn qclass_of_code(x: u16) -> QClass {
    if x == 1 {
        QClass::IN
    } else if x == 2 {
        QClass::CS
    } else if x == 3 {
        QClass::CH
    } else if x == 4 {
        QClass::HS
    } else if x == 255 {
        QClass::ANY
    } else {
        QClass::Unknown(x)
    }
}

/// A record class that decoding its own code gives back.
pub open spec fn canonical_qclass(c: QClass) -> bool {
    qclass_of_code(qclass_code(c)) == c
}

/// Every named record-type variant decodes back from its own code.
pub proof fn lemma_named_qtype_canonical(t: QType)
    requires
        !(t matches QType::Unknown(_)),
    ensures
        canonical_qtype(t),
{
}

/// Every named record-class variant decodes back from its own code.
pub proof fn lemma_named_qclass_canonical(c: QClass)
    requires
        !(c matches QClass::Unknown(_)),
    ensures
        canonical_qclass(c),
{
}

impl QType {
    /// The RFC-assigned 16-bit code of this record type.
    pub fn code(self) -> (c: u16)
        ensures
            c == qtype_code(self),
    {
        match self {
            QType::A => 1,
            QType::NS => 2,
            QType::CNAME => 5,
            QType::SOA => 6,
            QType::MB => 7,
            QType::MG => 8,
            QType::MR => 9,
            QType::NULL => 10,
            QType::WKS => 11,
            QType::PTR => 12,
            QType::HINFO => 13,
            QType::MINFO => 14,
            QType::MX => 15,
            QType::TXT => 16,
            QType::AXFR => 252,
            QType::MAILB => 253,
            QType::ANY => 255,
            QType::Unknown(c) => c,
        }
    }

    /// The record type a 16-bit wire code stands for; an unmapped code
    /// gives `Unknown`, never an error.
    pub fn from_code(c: u16) -> (t: QType)
        ensures
            t == qtype_of_code(c),
    {
        match c {
            1 => QType::A,
            2 => QType::NS,
            5 => QType::CNAME,
            6 => QType::SOA,
            7 => QType::MB,
            8 => QType::MG,
            9 => QType::MR,
            10 => QType::NULL,
            11 => QType::WKS,
            12 => QType::PTR,
            13 => QType::HINFO,
            14 => QType::MINFO,
            15 => QType::MX,
            16 => QType::TXT,
            252 => QType::AXFR,
            253 => QType::MAILB,
            255 => QType::ANY,
            _ => QType::Unknown(c),
        }
    }
}

impl QClass {
    /// The RFC-assigned 16-bit code of this record class.
    pub fn code(self) -> (x: u16)
        ensures
            x == qclass_code(self),
    {
        match self {
            QClass::IN => 1,
            QClass::CS => 2,
            QClass::CH => 3,
            QClass::HS => 4,
            QClass::ANY => 255,
            QClass::Unknown(x) => x,
        }
    }

    /// The record class a 16-bit wire code stands for; an unmapped code
    /// gives `Unknown`, never an error.
    pub fn from_code(x: u16) -> (c: QClass)
        ensures
            c == qclass_of_code(x),
    {
        match x {
            1 => QClass::IN,
            2 => QClass::CS,
            3 => QClass::CH,
            4 => QClass::HS,
            255 => QClass::ANY,
            _ => QClass::Unknown(x),
        }
    }
}

impl From<QType> for u16 {
    fn from(t: QType) -> (c: u16) {
        t.code()
    }
}

impl vstd::std_specs::convert::FromSpecImpl<QType> for u16 {
    open spec fn obeys_from_spec() -> bool {
        true
    }

    open spec fn from_spec(t: QType) -> u16 {
        qtype_code(t)
    }
}

impl From<QClass> for u16 {
    fn from(c: QClass) -> (x: u16) {
        c.code()
    }
}

impl vstd::std_specs::convert::FromSpecImpl<QClass> for u16 {
    open spec fn obeys_from_spec() -> bool {
        true
    }

    open spec fn from_spec(c: QClass) -> u16 {
        qclass_code(c)
    }
}

/// The fixed 12-byte message header.
#[derive(Debug, Clone, Copy, PartialEq, Eq, Structural)]
pub struct DNSHeader {
    /// Correlation token assigned by the program that builds the query.
    pub id: u16,
    /// 16-bit flag field; bit 8 is "recursion desired".
    pub flags: u16,
    /// Number of entries in the question section.
    pub qdcount: u16,
    /// Number of resource records in the answer section.
    pub ancount: u16,
    /// Number of name server records in the authority section.
    pub nscount: u16,
    /// Number of resource records in the additional section.
    pub arcount: u16,
}

/// The 12 bytes of a header: its six fields, big-endian, in wire order.
pub open spec fn header_bytes(h: DNSHeader) -> Seq<u8> {
    u16_be(h.id) + u16_be(h.flags) + u16_be(h.qdcount) + u16_be(h.ancount) + u16_be(h.nscount)
        + u16_be(h.arcount)
}

/// The header whose six fields sit big-endian in the first 12 bytes.
pub open spec fn header_of_bytes(b: Seq<u8>) -> DNSHeader {
    DNSHeader {
        id: u16_of_be(b[0], b[1]),
        flags: u16_of_be(b[2], b[3]),
        qdcount: u16_of_be(b[4], b[5]),
        ancount: u16_of_be(b[6], b[7]),
        nscount: u16_of_be(b[8], b[9]),
        arcount: u16_of_be(b[10], b[11]),
    }
}

impl DNSHeader {
    /// Serialize the header: always exactly 12 bytes, whatever the
    /// field values.
    pub fn to_bytes(&self) -> (r: Result<Vec<u8>, DnsError>)
        ensures
            r matches Ok(v) && v@ == header_bytes(*self),
            r matches Ok(v) && v@.len() == 12,
    {
        let mut bytes: Vec<u8> = Vec::new();
        push_u16_be(&mut bytes, self.id);
        push_u16_be(&mut bytes, self.flags);
        push_u16_be(&mut bytes, self.qdcount);
        push_u16_be(&mut bytes, self.ancount);
        push_u16_be(&mut bytes, self.nscount);
        push_u16_be(&mut bytes, self.arcount);
        Ok(bytes)
    }

    /// Decode a header from the first 12 bytes of the buffer: the exact
    /// inverse of `to_bytes`.  Fewer than 12 bytes fail with
    /// `TruncatedMessage`; nothing else fails.
    pub fn from_bytes(b: &[u8]) -> (r: Result<DNSHeader, DnsError>)
        ensures
            b@.len() >= 12 ==> r == Ok::<DNSHeader, DnsError>(header_of_bytes(b@)),
            b@.len() < 12 ==> r == Err::<DNSHeader, DnsError>(DnsError::TruncatedMessage),
    {
        if b.len() < 12 {
            return Err(DnsError::TruncatedMessage);
        }
        Ok(
            DNSHeader {
                id: read_u16_be(b, 0),
                flags: read_u16_be(b, 2),
                qdcount: read_u16_be(b, 4),
                ancount: read_u16_be(b, 6),
                nscount: read_u16_be(b, 8),
                arcount: read_u16_be(b, 10),
            },
        )
    }
}

/// Decoding the 12 bytes of any header gives the header back.
pub proof fn lemma_header_roundtrip(h: DNSHeader)
    ensures
        header_of_bytes(header_bytes(h)) == h,
{
    let b = header_bytes(h);
    assert(b[0] == u16_be(h.id)[0] && b[1] == u16_be(h.id)[1]);
    assert(b[2] == u16_be(h.flags)[0] && b[3] == u16_be(h.flags)[1]);
    assert(b[4] == u16_be(h.qdcount)[0] && b[5] == u16_be(h.qdcount)[1]);
    assert(b[6] == u16_be(h.ancount)[0] && b[7] == u16_be(h.ancount)[1]);
    assert(b[8] == u16_be(h.nscount)[0] && b[9] == u16_be(h.nscount)[1]);
    assert(b[10] == u16_be(h.arcount)[0] && b[11] == u16_be(h.arcount)[1]);
    lemma_u16_be_inverse(h.id);
    lemma_u16_be_inverse(h.flags);
    lemma_u16_be_inverse(h.qdcount);
    lemma_u16_be_inverse(h.ancount);
    lemma_u16_be_inverse(h.nscount);
    lemma_u16_be_inverse(h.arcount);
}

/// One question entry: what is being asked.
#[derive(Debug, PartialEq, Eq)]
pub struct DNSQuestion {
    /// The domain name asked about, already in wire-format label form.
    /// This codec writes it verbatim and does not validate it.
    pub qname: Vec<u8>,
    /// The type of record requested.
    pub qtype: QType,
    /// The class of the query, almost always the Internet.
    pub qclass: QClass,
}

/// The bytes of a question: the name, then the type and class codes.
pub open spec fn question_bytes(q: DNSQuestion) -> Seq<u8> {
    q.qname@ + u16_be(qtype_code(q.qtype)) + u16_be(qclass_code(q.qclass))
}

/// Where the question that starts at `p` ends, or `None` when the
/// buffer ends before its name or its two codes do.
pub open spec fn question_end(b: Seq<u8>, p: int) -> Option<int> {
    match name_end(b, p) {
        Some(ne) => if ne + 4 <= b.len() {
            Some(ne + 4)
        } else {
            None
        },
        None => None,
    }
}

impl DNSQuestion {
    /// Serialize the question: the name bytes verbatim, then the two
    /// 16-bit codes, big-endian.
    pub fn to_bytes(&self) -> (r: Result<Vec<u8>, DnsError>)
        ensures
            r matches Ok(v) && v@ == question_bytes(*self),
    {
        let mut bytes: Vec<u8> = Vec::new();
        push_bytes(&mut bytes, &self.qname);
        push_u16_be(&mut bytes, self.qtype.code());
        push_u16_be(&mut bytes, self.qclass.code());
        proof {
            assert(bytes@ =~= question_bytes(*self));
        }
        Ok(bytes)
    }

    /// Decode one question from position `start` of the buffer: a name
    /// read to its terminator, then the type and class codes.  Fails
    /// with `TruncatedMessage` exactly when the buffer ends first.
    pub fn from_bytes(b: &[u8], start: usize) -> (r: Result<(DNSQuestion, usize), DnsError>)
        ensures
            r matches Ok((q, end)) ==> question_end(b@, start as int) == Some(end as int)
                && (name_end(b@, start as int) matches Some(ne) && {
                &&& q.qname@ == b@.subrange(start as int, ne)
                &&& wf_name(q.qname@)
                &&& q.qtype == qtype_of_code(u16_of_be(b@[ne], b@[ne + 1]))
                &&& q.qclass == qclass_of_code(u16_of_be(b@[ne + 2], b@[ne + 3]))
                &&& end == ne + 4
            }),
            r matches Err(e) ==> e == DnsError::TruncatedMessage && question_end(
                b@,
                start as int,
            ) is None,
    {
        let (qname, ne) = match decode_name(b, start) {
            Ok(v) => v,
            Err(e) => {
                return Err(e);
            },
        };
        if b.len() - ne < 4 {
            return Err(DnsError::TruncatedMessage);
        }
        let qtype = QType::from_code(read_u16_be(b, ne));
        let qclass = QClass::from_code(read_u16_be(b, ne + 2));
        Ok((DNSQuestion { qname, qtype, qclass }, ne + 4))
    }
}

/// Decoding the bytes of a well-formed question gives the question
/// back, whole: no other parse exists.
pub proof fn lemma_question_roundtrip(q: DNSQuestion)
    requires
        wf_name(q.qname@),
        canonical_qtype(q.qtype),
        canonical_qclass(q.qclass),
    ensures
        ({
            let b = question_bytes(q);
            let nlen = q.qname@.len() as int;
            &&& b.len() == nlen + 4
            &&& name_end(b, 0) == Some(nlen)
            &&& b.subrange(0, nlen) == q.qname@
            &&& qtype_of_code(u16_of_be(b[nlen], b[nlen + 1])) == q.qtype
            &&& qclass_of_code(u16_of_be(b[nlen + 2], b[nlen + 3])) == q.qclass
            &&& question_end(b, 0) == Some(b.len() as int)
        }),
{
    let b = question_bytes(q);
    let nlen = q.qname@.len() as int;
    assert(b.subrange(0, nlen) =~= q.qname@);
    lemma_name_end_widen(q.qname@, b, 0, 0);
    let tc = u16_be(qtype_code(q.qtype));
    let cc = u16_be(qclass_code(q.qclass));
    assert(b[nlen] == tc[0] && b[nlen + 1] == tc[1]);
    assert(b[nlen + 2] == cc[0] && b[nlen + 3] == cc[1]);
    lemma_u16_be_inverse(qtype_code(q.qtype));
    lemma_u16_be_inverse(qclass_code(q.qclass));
}

/// One resource record: a name bound to typed data with a lifetime.
#[derive(Debug, PartialEq, Eq)]
pub struct DNSRecord {
    /// The domain name the record applies to, in wire-format label form.
    pub name: Vec<u8>,
    /// The type of the record, such as a host address or an alias.
    pub rtype: QType,
    /// The class of the record, typically the Internet.
    pub class: QClass,
    /// How many seconds the record may be cached; an unsigned quantity.
    pub ttl: u32,
    /// The declared length in bytes of the data field.
    pub rdlength: u16,
    /// The record's data, opaque to the codec.
    pub rdata: Vec<u8>,
}

/// The bytes of a record: name, type, class, ttl, declared data length,
/// then the data verbatim.
pub open spec fn record_bytes(r: DNSRecord) -> Seq<u8> {
    r.name@ + u16_be(qtype_code(r.rtype)) + u16_be(qclass_code(r.class)) + u32_be(r.ttl) + u16_be(
        r.rdlength,
    ) + r.rdata@
}

/// Where the record that starts at `p` ends, or `None` when the buffer
/// ends before the name, the fixed fields, or the declared data do.
pub open spec fn record_end(b: Seq<u8>, p: int) -> Option<int> {
    match name_end(b, p) {
        Some(ne) => if ne + 10 <= b.len() && ne + 10 + u16_of_be(b[ne + 8], b[ne + 9])
            <= b.len() {
            Some(ne + 10 + u16_of_be(b[ne + 8], b[ne + 9]))
        } else {
            None
        },
        None => None,
    }
}

impl DNSRecord {
    /// Serialize the record.  The declared `rdlength` is written as it
    /// stands and the data verbatim: the codec inspects neither, so the
    /// length of the result is the length of the name, plus 10 bytes of
    /// fixed fields, plus the length of the data, for every record.
    pub fn to_bytes(&self) -> (r: Result<Vec<u8>, DnsError>)
        ensures
            r matches Ok(v) && v@ == record_bytes(*self),
            r matches Ok(v) && v@.len() == self.name@.len() + 2 + 2 + 4 + 2 + self.rdata@.len(),
    {
        let mut bytes: Vec<u8> = Vec::new();
        push_bytes(&mut bytes, &self.name);
        push_u16_be(&mut bytes, self.rtype.code());
        push_u16_be(&mut bytes, self.class.code());
        push_u32_be(&mut bytes, self.ttl);
        push_u16_be(&mut bytes, self.rdlength);
        push_bytes(&mut bytes, &self.rdata);
        proof {
            assert(bytes@ =~= record_bytes(*self));
        }
        Ok(bytes)
    }

    /// Decode one record from position `start` of the buffer, reading
    /// exactly the `rdlength` the buffer declares.  Fails with
    /// `TruncatedMessage` exactly when the buffer ends first — also when
    /// it holds fewer than `rdlength` data bytes — and then hands back
    /// no record at all.
    pub fn from_bytes(b: &[u8], start: usize) -> (r: Result<(DNSRecord, usize), DnsError>)
        ensures
            r matches Ok((rec, end)) ==> record_end(b@, start as int) == Some(end as int)
                && (name_end(b@, start as int) matches Some(ne) && {
                &&& rec.name@ == b@.subrange(start as int, ne)
                &&& wf_name(rec.name@)
                &&& rec.rtype == qtype_of_code(u16_of_be(b@[ne], b@[ne + 1]))
                &&& rec.class == qclass_of_code(u16_of_be(b@[ne + 2], b@[ne + 3]))
                &&& rec.ttl == u32_of_be(b@[ne + 4], b@[ne + 5], b@[ne + 6], b@[ne + 7])
                &&& rec.rdlength == u16_of_be(b@[ne + 8], b@[ne + 9])
                &&& rec.rdata@ == b@.subrange(ne + 10, ne + 10 + rec.rdlength as int)
                &&& rec.rdata@.len() == rec.rdlength
                &&& end == ne + 10 + rec.rdlength as int
            }),
            r matches Err(e) ==> e == DnsError::TruncatedMessage && record_end(
                b@,
                start as int,
            ) is None,
    {
        let (name, ne) = match decode_name(b, start) {
            Ok(v) => v,
            Err(e) => {
                return Err(e);
            },
        };
        if b.len() - ne < 10 {
            return Err(DnsError::TruncatedMessage);
        }
        let rtype = QType::from_code(read_u16_be(b, ne));
        let class = QClass::from_code(read_u16_be(b, ne + 2));
        let ttl = read_u32_be(b, ne + 4);
        let rdlength = read_u16_be(b, ne + 8);
        if b.len() - (ne + 10) < rdlength as usize {
            return Err(DnsError::TruncatedMessage);
        }
        let rdata = bytes_range(b, ne + 10, ne + 10 + rdlength as usize);
        Ok((DNSRecord { name, rtype, class, ttl, rdlength, rdata }, ne + 10 + rdlength as usize))
    }
}

/// Decoding the bytes of a well-formed record — its name complete, its
/// declared length the length of its data — gives the record back.
pub proof fn lemma_record_roundtrip(r: DNSRecord)
    requires
        wf_name(r.name@),
        canonical_qtype(r.rtype),
        canonical_qclass(r.class),
        r.rdlength == r.rdata@.len(),
    ensures
        ({
            let b = record_bytes(r);
            let nlen = r.name@.len() as int;
            &&& b.len() == nlen + 10 + r.rdata@.len()
            &&& name_end(b, 0) == Some(nlen)
            &&& b.subrange(0, nlen) == r.name@
            &&& qtype_of_code(u16_of_be(b[nlen], b[nlen + 1])) == r.rtype
            &&& qclass_of_code(u16_of_be(b[nlen + 2], b[nlen + 3])) == r.class
            &&& u32_of_be(b[nlen + 4], b[nlen + 5], b[nlen + 6], b[nlen + 7]) == r.ttl
            &&& u16_of_be(b[nlen + 8], b[nlen + 9]) == r.rdlength
            &&& b.subrange(nlen + 10, nlen + 10 + r.rdlength as int) == r.rdata@
            &&& record_end(b, 0) == Some(b.len() as int)
        }),
{
    let b = record_bytes(r);
    let nlen = r.name@.len() as int;
    assert(b.subrange(0, nlen) =~= r.name@);
    lemma_name_end_widen(r.name@, b, 0, 0);
    let tc = u16_be(qtype_code(r.rtype));
    let cc = u16_be(qclass_code(r.class));
    let tt = u32_be(r.ttl);
    let lc = u16_be(r.rdlength);
    assert(b[nlen] == tc[0] && b[nlen + 1] == tc[1]);
    assert(b[nlen + 2] == cc[0] && b[nlen + 3] == cc[1]);
    assert(b[nlen + 4] == tt[0] && b[nlen + 5] == tt[1] && b[nlen + 6] == tt[2] && b[nlen + 7]
        == tt[3]);
    assert(b[nlen + 8] == lc[0] && b[nlen + 9] == lc[1]);
    lemma_u16_be_inverse(qtype_code(r.rtype));
    lemma_u16_be_inverse(qclass_code(r.class));
    lemma_u32_be_inverse(r.ttl);
    lemma_u16_be_inverse(r.rdlength);
    assert(b.subrange(nlen + 10, nlen + 10 + r.rdlength as int) =~= r.rdata@);
}

} // verus!
