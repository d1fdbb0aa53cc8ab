//! The decode side of the name codec: a cursor over an immutable buffer.
//!
//! An encoded name is a chain of blocks, each one length byte and that
//! many label bytes, closed by a zero length byte.  `name_end` walks the
//! chain in specification; `decode_name` walks it in executable code and
//! never reads past the buffer.

use vstd::prelude::*;

use crate::types::DnsError;

verus! {

/// Where the encoded name that starts at `p` ends: one past its zero
/// terminator, or `None` when the buffer runs out first.
pub open spec fn name_end(b: Seq<u8>, p: int) -> Option<int>
    decreases b.len() - p,
{
    if p < 0 || p >= b.len() {
        None
    } else if b[p] == 0 {
        Some(p + 1)
    } else if p + 1 + b[p] > b.len() {
        None
    } else {
        name_end(b, p + 1 + b[p])
    }
}

/// A complete wire-form name, nothing more: the chain of its blocks ends
/// exactly at its last byte.
pub open spec fn wf_name(n: Seq<u8>) -> bool {
    name_end(n, 0) == Some(n.len() as int)
}

/// The end of a name lies behind its start and within the buffer.
pub proof fn lemma_name_end_bounds(b: Seq<u8>, p: int)
    requires
        name_end(b, p) is Some,
    ensures
        p < name_end(b, p).unwrap() <= b.len(),
    decreases b.len() - p,
{
    if p < 0 || p >= b.len() {
    } else if b[p] == 0 {
    } else if p + 1 + b[p] > b.len() {
    } else {
        lemma_name_end_bounds(b, p + 1 + b[p]);
    }
}

/// A name parses the same wherever it sits: walking the chain inside `n`
/// and walking it at offset `p` of a buffer that holds `n` there agree.
pub proof fn lemma_name_end_widen(n: Seq<u8>, b: Seq<u8>, p: int, k: int)
    requires
        0 <= p,
        p + n.len() <= b.len(),
        b.subrange(p, p + n.len() as int) == n,
        0 <= k <= n.len(),
        name_end(n, k) is Some,
        name_end(n, k).unwrap() <= n.len(),
    ensures
        name_end(b, p + k) == Some(p + name_end(n, k).unwrap()),
    decreases n.len() - k,
{
    let e = name_end(n, k).unwrap();
    lemma_name_end_bounds(n, k);
    assert(b[p + k] == n[k]);
    if n[k] == 0 {
    } else {
        lemma_name_end_widen(n, b, p, k + 1 + n[k]);
    }
}

/// Cutting the buffer just behind a parsed name does not disturb the
/// parse: the chain runs the same in the shorter buffer.
pub proof fn lemma_name_end_narrow(b: Seq<u8>, p: int, q: int, k: int)
    requires
        0 <= p <= k <= q <= b.len(),
        name_end(b, k) is Some,
        name_end(b, k).unwrap() <= q,
    ensures
        name_end(b.subrange(p, q), k - p) == Some(name_end(b, k).unwrap() - p),
    decreases b.len() - k,
{
    let e = name_end(b, k).unwrap();
    let nb = b.subrange(p, q);
    lemma_name_end_bounds(b, k);
    assert(nb[k - p] == b[k]);
    if b[k] == 0 {
    } else {
        lemma_name_end_bounds(b, k + 1 + b[k]);
        lemma_name_end_narrow(b, p, q, k + 1 + b[k]);
    }
}

/// Read one encoded name from position `start` of the buffer.
///
/// Gives back the name's bytes verbatim, terminator included, together
/// with the position one past it; fails with `TruncatedMessage` exactly
/// when the buffer ends before the name does.
pub fn decode_name(b: &[u8], start: usize) -> (r: Result<(Vec<u8>, usize), DnsError>)
    ensures
        r matches Ok((name, end)) ==> {
            &&& name_end(b@, start as int) == Some(end as int)
            &&& start <= end <= b@.len()
            &&& name@ == b@.subrange(start as int, end as int)
            &&& wf_name(name@)
        },
        r matches Err(e) ==> e == DnsError::TruncatedMessage && name_end(b@, start as int) is None,
{
    let n = b.len();
    let mut p = start;
    loop
        invariant_except_break
            n == b@.len(),
            start <= p,
            name_end(b@, start as int) == name_end(b@, p as int),
        ensures
            name_end(b@, start as int) matches Some(e) && start <= e <= n && p == e - 1 && b@[p
                as int] == 0,
        decreases n - p,
    {
        if p >= n {
            return Err(DnsError::TruncatedMessage);
        }
        let len_byte = b[p];
        if len_byte == 0 {
            proof {
                lemma_name_end_bounds(b@, p as int);
            }
            break ;
        }
        if (len_byte as usize) > n - p - 1 {
            return Err(DnsError::TruncatedMessage);
        }
        p = p + 1 + len_byte as usize;
    }
    let end = p + 1;
    let name = crate::wire::bytes_range(b, start, end);
    proof {
        lemma_name_end_narrow(b@, start as int, end as int, start as int);
        assert(name_end(name@, 0) == Some(end - start as int));
    }
    Ok((name, end))
}

} // verus!
