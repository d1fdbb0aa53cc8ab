//! The label encoder: a domain name as wire-format labels.
//!
//! A domain name is split on the dots into labels; each label is written
//! as one length byte followed by its raw bytes, and a single zero byte
//! (the root's empty label) terminates the sequence.  `"google.com"`
//! becomes `[6, b'g', b'o', b'o', b'g', b'l', b'e', 3, b'c', b'o', b'm', 0]`.

use vstd::prelude::*;
use vstd::string::StringSliceAdditionalSpecFns;

use crate::types::DnsError;

verus! {

/// The dot that separates the labels of a domain name.
pub const DOT: u8 = 46;

/// Index of the first dot in `s`, or `s.len()` when there is none.
pub open spec fn first_dot(s: Seq<u8>) -> nat
    decreases s.len(),
{
    if s.len() == 0 {
        0
    } else if s[0] == DOT {
        0
    } else {
        1 + first_dot(s.drop_first())
    }
}

/// The labels of a domain name: the byte sequence split on the dots.
/// A name without a dot is one label; each dot begins a further one,
/// so an empty or trailing label is kept, as splitting does.
pub open spec fn name_labels(s: Seq<u8>) -> Seq<Seq<u8>>
    decreases s.len(),
{
    let i = first_dot(s);
    if i >= s.len() {
        seq![s]
    } else {
        seq![s.take(i as int)] + name_labels(s.skip(i as int + 1))
    }
}

/// Wire form of a sequence of labels: each label after its length byte.
pub open spec fn encode_labels(ls: Seq<Seq<u8>>) -> Seq<u8>
    decreases ls.len(),
{
    if ls.len() == 0 {
        Seq::empty()
    } else {
        seq![ls[0].len() as u8] + ls[0] + encode_labels(ls.drop_first())
    }
}

/// Every label fits the wire bound of 63 bytes.
pub open spec fn labels_ok(ls: Seq<Seq<u8>>) -> bool {
    forall|i: int| 0 <= i < ls.len() ==> (#[trigger] ls[i]).len() <= 63
}

/// Wire form of a whole domain name: its labels, then the terminating
/// zero byte.  The empty name is the root alone: a single zero byte.
pub open spec fn encode_name(s: Seq<u8>) -> Seq<u8> {
    if s.len() == 0 {
        seq![0u8]
    } else {
        encode_labels(name_labels(s)) + seq![0u8]
    }
}

/// A name the encoder accepts: every label at most 63 bytes, and the
/// encoded form at most 255 bytes.
pub open spec fn valid_name(s: Seq<u8>) -> bool {
    labels_ok(name_labels(s)) && encode_name(s).len() <= 255
}

/// `first_dot` points at a dot, and nothing before it is one.
pub proof fn lemma_first_dot(s: Seq<u8>)
    ensures
        first_dot(s) <= s.len(),
        forall|j: int| 0 <= j < first_dot(s) ==> s[j] != DOT,
        first_dot(s) < s.len() ==> s[first_dot(s) as int] == DOT,
    decreases s.len(),
{
    if s.len() == 0 {
    } else if s[0] == DOT {
    } else {
        lemma_first_dot(s.drop_first());
        assert forall|j: int| 0 <= j < first_dot(s) implies s[j] != DOT by {
            if j > 0 {
                assert(s.drop_first()[j - 1] != DOT);
            }
        }
    }
}

/// A position with no dot before it, holding a dot or ending the name,
/// is where `first_dot` points.
pub proof fn lemma_first_dot_is(s: Seq<u8>, q: int)
    requires
        0 <= q <= s.len(),
        forall|j: int| 0 <= j < q ==> s[j] != DOT,
        q == s.len() || s[q] == DOT,
    ensures
        first_dot(s) == q,
    decreases s.len(),
{
    if s.len() == 0 {
    } else if s[0] == DOT {
        assert(q == 0);
    } else {
        assert(q >= 1);
        lemma_first_dot_is(s.drop_first(), q - 1);
    }
}

/// Appending a label to a sequence appends its wire form.
pub proof fn lemma_encode_labels_snoc(ls: Seq<Seq<u8>>, l: Seq<u8>)
    ensures
        encode_labels(ls.push(l)) == encode_labels(ls) + seq![l.len() as u8] + l,
    decreases ls.len(),
{
    if ls.len() == 0 {
        assert(ls.push(l).drop_first() =~= ls);
        assert(encode_labels(ls.push(l)) =~= encode_labels(ls) + seq![l.len() as u8] + l);
    } else {
        lemma_encode_labels_snoc(ls.drop_first(), l);
        assert(ls.push(l).drop_first() =~= ls.drop_first().push(l));
        assert(encode_labels(ls.push(l)) =~= encode_labels(ls) + seq![l.len() as u8] + l);
    }
}

/// The label blocks of a name fill one byte more than the name itself:
/// each dot becomes a length byte, and one length byte is added in front.
pub proof fn lemma_encode_labels_total_len(s: Seq<u8>)
    ensures
        encode_labels(name_labels(s)).len() == s.len() + 1,
    decreases s.len(),
{
    lemma_first_dot(s);
    let i = first_dot(s);
    if i >= s.len() {
        assert(name_labels(s) == seq![s]);
        assert(name_labels(s)[0] == s);
        assert(name_labels(s).drop_first() =~= Seq::<Seq<u8>>::empty());
        assert(encode_labels(Seq::<Seq<u8>>::empty()).len() == 0);
        assert(encode_labels(name_labels(s)).len() == 1 + s.len() + encode_labels(
            name_labels(s).drop_first(),
        ).len());
    } else {
        let rest = s.skip(i as int + 1);
        lemma_encode_labels_total_len(rest);
        assert(name_labels(s) == seq![s.take(i as int)] + name_labels(rest));
        assert(name_labels(s)[0] == s.take(i as int));
        assert(name_labels(s).drop_first() =~= name_labels(rest));
        assert(encode_labels(name_labels(s)).len() == 1 + i + encode_labels(
            name_labels(rest),
        ).len());
    }
}

/// The wire length that a label sequence fills: one length byte, then
/// the label's own bytes, for each label in turn.
pub open spec fn labels_wire_len(ls: Seq<Seq<u8>>) -> int
    decreases ls.len(),
{
    if ls.len() == 0 {
        0
    } else {
        1 + ls[0].len() + labels_wire_len(ls.drop_first())
    }
}

/// A label sequence's wire form fills exactly its wire length.
pub proof fn lemma_encode_labels_len(ls: Seq<Seq<u8>>)
    ensures
        encode_labels(ls).len() == labels_wire_len(ls),
    decreases ls.len(),
{
    if ls.len() == 0 {
    } else {
        lemma_encode_labels_len(ls.drop_first());
    }
}

/// A nonempty label sequence's wire form ends in the last label's last
/// byte, when that label is not empty.
pub proof fn lemma_encode_labels_last(ls: Seq<Seq<u8>>)
    requires
        ls.len() > 0,
        ls.last().len() > 0,
    ensures
        encode_labels(ls).len() > 0,
        encode_labels(ls).last() == ls.last().last(),
    decreases ls.len(),
{
    lemma_encode_labels_len(ls);
    if ls.len() == 1 {
        assert(ls.drop_first() =~= Seq::<Seq<u8>>::empty());
        assert(encode_labels(Seq::<Seq<u8>>::empty()) =~= Seq::<u8>::empty());
        assert(encode_labels(ls) == seq![ls[0].len() as u8] + ls[0] + Seq::<u8>::empty());
    } else {
        lemma_encode_labels_len(ls.drop_first());
        lemma_encode_labels_last(ls.drop_first());
        assert(ls.drop_first().last() == ls.last());
    }
}

/// Law: the wire form of a nonempty name is each label behind its
/// length byte and then the root's zero byte — its length is the sum,
/// over the name's labels, of the label's length plus one, plus one for
/// the terminator; its last byte is the zero terminator, and when the
/// name's final label is nonempty and free of zero bytes, that
/// terminator is the only zero byte at the end.
pub proof fn lemma_encode_name_shape(s: Seq<u8>)
    requires
        s.len() > 0,
    ensures
        encode_name(s).len() == labels_wire_len(name_labels(s)) + 1,
        encode_name(s).last() == 0,
        name_labels(s).last().len() > 0 && name_labels(s).last().last() != 0 ==> encode_name(
            s,
        )[encode_name(s).len() - 2] != 0,
{
    lemma_encode_labels_len(name_labels(s));
    if name_labels(s).last().len() > 0 {
        lemma_encode_labels_last(name_labels(s));
        assert(encode_name(s)[encode_name(s).len() - 2] == encode_labels(
            name_labels(s),
        ).last());
    }
}

/// Turn a domain name into its wire-format label sequence.
///
/// Fails with `InvalidLabel` when a label is longer than 63 bytes or the
/// encoded name would be longer than 255 bytes; every accepted name gets
/// exactly its wire form.
pub fn dns_name(domain_name: &str) -> (r: Result<Vec<u8>, DnsError>)
    ensures
        r matches Ok(v) ==> valid_name(domain_name.spec_bytes()) && v@ == encode_name(
            domain_name.spec_bytes(),
        ),
        r matches Err(e) ==> e == DnsError::InvalidLabel && !valid_name(domain_name.spec_bytes()),
{
    let bytes: &[u8] = domain_name.as_bytes();
    let ghost s = domain_name.spec_bytes();
    let n = bytes.len();
    if n == 0 {
        let mut out: Vec<u8> = Vec::new();
        out.push(0);
        proof {
            assert(out@ =~= encode_name(s));
        }
        return Ok(out);
    }
    if n > 253 {
        proof {
            lemma_encode_labels_total_len(s);
        }
        return Err(DnsError::InvalidLabel);
    }
    let mut out: Vec<u8> = Vec::new();
    let mut p: usize = 0;
    let ghost mut done: Seq<Seq<u8>> = Seq::empty();
    proof {
        assert(s.skip(0) =~= s);
        assert(done + name_labels(s) =~= name_labels(s));
    }
    loop
        invariant_except_break
            s == domain_name.spec_bytes(),
            n == s.len(),
            0 < n <= 253,
            bytes@ == s,
            p <= n,
            name_labels(s) == done + name_labels(s.skip(p as int)),
            out@ == encode_labels(done),
            labels_ok(done),
        ensures
            out@ == encode_labels(name_labels(s)),
            labels_ok(name_labels(s)),
        decreases n - p,
    {
        // Scan to the end of the label that starts at `p`.
        let mut q: usize = p;
        while q < n && bytes[q] != DOT
            invariant
                n == s.len(),
                bytes@ == s,
                p <= q <= n,
                forall|j: int| p <= j < q ==> s[j] != DOT,
            decreases n - q,
        {
            q = q + 1;
        }
        proof {
            let suffix = s.skip(p as int);
            assert forall|j: int| 0 <= j < q - p implies suffix[j] != DOT by {
                assert(s[p + j] != DOT);
            }
            if q < n {
                assert(suffix[q - p as int] == s[q as int]);
            }
            lemma_first_dot_is(suffix, q - p as int);
        }
        let ghost label = s.subrange(p as int, q as int);
        proof {
            assert(s.skip(p as int).take(q - p as int) =~= label);
        }
        if q - p > 63 {
            proof {
                // The over-long label is one of the name's labels.
                let suffix = s.skip(p as int);
                if q == n {
                    assert(suffix =~= label);
                    assert(name_labels(suffix) == seq![label]);
                } else {
                    assert(name_labels(suffix)[0] == label);
                }
                assert(name_labels(s)[done.len() as int] == label);
                assert(!labels_ok(name_labels(s)));
            }
            return Err(DnsError::InvalidLabel);
        }
        out.push((q - p) as u8);
        let mut j = p;
        while j < q
            invariant
                n == s.len(),
                bytes@ == s,
                p <= j <= q <= n,
                q - p <= 63,
                label == s.subrange(p as int, q as int),
                out@ == encode_labels(done) + seq![(q - p) as u8] + s.subrange(p as int, j as int),
            decreases q - j,
        {
            out.push(bytes[j]);
            proof {
                assert(encode_labels(done) + seq![(q - p) as u8] + s.subrange(
                    p as int,
                    j as int + 1,
                ) =~= (encode_labels(done) + seq![(q - p) as u8] + s.subrange(
                    p as int,
                    j as int,
                )).push(s[j as int]));
            }
            j = j + 1;
        }
        proof {
            lemma_encode_labels_snoc(done, label);
            assert(label.len() == q - p);
            assert(out@ == encode_labels(done.push(label)));
        }
        if q == n {
            proof {
                let suffix = s.skip(p as int);
                assert(suffix =~= label);
                assert(name_labels(suffix) == seq![label]);
                assert(done + seq![label] =~= done.push(label));
                assert(name_labels(s) == done.push(label));
                assert(labels_ok(done.push(label)));
            }
            break ;
        }
        proof {
            let suffix = s.skip(p as int);
            assert(name_labels(suffix) == seq![label] + name_labels(
                suffix.skip(q - p as int + 1),
            ));
            assert(suffix.skip(q - p as int + 1) =~= s.skip(q as int + 1));
            assert(done + (seq![label] + name_labels(s.skip(q as int + 1))) =~= done.push(label)
                + name_labels(s.skip(q as int + 1)));
            done = done.push(label);
            assert(labels_ok(done));
        }
        p = q + 1;
    }
    out.push(0);
    proof {
        assert(out@ =~= encode_name(s));
        lemma_encode_labels_total_len(s);
        assert(encode_name(s).len() == n + 2);
    }
    Ok(out)
}

} // verus!
