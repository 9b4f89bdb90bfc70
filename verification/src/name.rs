//! Hostname labels and their DNS wire encoding.
//!
//! A hostname is a dot-separated list of labels. On the wire each label is
//! preceded by a one-byte length, and the whole name ends with a zero byte.

use vstd::prelude::*;

verus! {

use crate::errors::DnsError;
use vstd::string::StringSliceAdditionalSpecFns;

/// Byte value of the label separator `.`.
pub const DOT: u8 = 46;

/// Largest label length the wire format can carry in a length byte.
pub const MAX_LABEL_LEN: usize = 63;

/// Index of the first `.` in `s`, or `s.len()` if there is none.
pub open spec fn first_dot(s: Seq<u8>) -> nat
    decreases s.len(),
{
    if s.len() == 0 {
        0
    } else if s[0] == DOT {
        0
    } else {
        (1 + first_dot(s.skip(1))) as nat
    }
}

/// A hostname is valid when every dot-separated label is 1 to 63 bytes long.
/// The empty string, empty labels (leading, trailing or doubled dots) and
/// labels longer than 63 bytes are all rejected.
pub open spec fn valid_hostname(s: Seq<u8>) -> bool
    decreases s.len(),
{
    let d = first_dot(s);
    &&& 1 <= d <= MAX_LABEL_LEN
    &&& (d < s.len() ==> valid_hostname(s.skip(d + 1 as int)))
}

/// The labels of `s`, split on `.`.
pub open spec fn host_labels(s: Seq<u8>) -> Seq<Seq<u8>>
    decreases s.len(),
{
    let d = first_dot(s);
    if d < s.len() {
        seq![s.take(d as int)] + host_labels(s.skip(d + 1 as int))
    } else {
        seq![s]
    }
}

/// Wire encoding of the name `s`: each label preceded by its length byte,
/// the whole sequence closed by a zero byte.
pub open spec fn wire_name(s: Seq<u8>) -> Seq<u8>
    decreases s.len(),
{
    let d = first_dot(s);
    if d < s.len() {
        seq![d as u8] + s.take(d as int) + wire_name(s.skip(d + 1 as int))
    } else {
        seq![s.len() as u8] + s + seq![0u8]
    }
}

/// The label walk over an encoded name: read a length byte, take that many
/// label bytes, repeat until the zero terminator. Returns the labels and
/// whatever follows the terminator, or `None` if the walk runs off the end.
pub open spec fn read_labels(b: Seq<u8>) -> Option<(Seq<Seq<u8>>, Seq<u8>)>
    decreases b.len(),
{
    if b.len() == 0 {
        None
    } else if b[0] == 0 {
        Some((Seq::<Seq<u8>>::empty(), b.skip(1)))
    } else if 1 + b[0] > b.len() {
        None
    } else {
        match read_labels(b.skip(1 + b[0] as int)) {
            Some(p) => Some((seq![b.subrange(1, 1 + b[0] as int)] + p.0, p.1)),
            None => None,
        }
    }
}

/// `first_dot` points at a dot (or at the end) and nothing before it is one.
pub proof fn lemma_first_dot_spec(s: Seq<u8>)
    ensures
        first_dot(s) <= s.len(),
        forall|k: int| 0 <= k < first_dot(s) ==> s[k] != DOT,
        first_dot(s) < s.len() ==> s[first_dot(s) as int] == DOT,
    decreases s.len(),
{
    if s.len() == 0 {
    } else if s[0] == DOT {
    } else {
        lemma_first_dot_spec(s.skip(1));
        assert forall|k: int| 0 <= k < first_dot(s) implies s[k] != DOT by {
            if k > 0 {
                assert(s.skip(1)[k - 1] == s[k]);
            }
        }
        if first_dot(s) < s.len() {
            assert(s.skip(1)[first_dot(s) as int - 1] == s[first_dot(s) as int]);
        }
    }
}

/// Conversely, a position with no dot before it and a dot (or the end) at it
/// is exactly `first_dot`.
pub proof fn lemma_first_dot_at(s: Seq<u8>, i: int)
    requires
        0 <= i <= s.len(),
        forall|k: int| 0 <= k < i ==> s[k] != DOT,
        i == s.len() || s[i] == DOT,
    ensures
        first_dot(s) == i,
    decreases s.len(),
{
    if i == 0 {
    } else {
        assert(s[0] != DOT);
        assert forall|k: int| 0 <= k < i - 1 implies s.skip(1)[k] != DOT by {
            assert(s.skip(1)[k] == s[k + 1]);
        }
        if i < s.len() {
            assert(s.skip(1)[i - 1] == s[i]);
        }
        lemma_first_dot_at(s.skip(1), i - 1);
    }
}

/// The wire form of a name is never empty: it holds at least a length byte
/// and ends with the zero terminator.
pub proof fn lemma_wire_name_len(s: Seq<u8>)
    ensures
        wire_name(s).len() >= 2,
    decreases s.len(),
{
    let d = first_dot(s);
    if d < s.len() {
        lemma_wire_name_len(s.skip(d + 1 as int));
    }
}

/// Round trip of the name encoding: for a valid hostname, the label walk
/// over `wire_name(s)` reproduces the dot-separated labels of `s` exactly
/// and consumes the whole encoding, terminator included.
pub proof fn lemma_round_trip(s: Seq<u8>)
    requires
        valid_hostname(s),
    ensures
        read_labels(wire_name(s)) == Some((host_labels(s), Seq::<u8>::empty())),
    decreases s.len(),
{
    let d = first_dot(s);
    let w = wire_name(s);
    lemma_first_dot_spec(s);
    if d < s.len() {
        let s2 = s.skip(d + 1 as int);
        lemma_round_trip(s2);
        lemma_wire_name_len(s2);
        assert(w[0] == d as u8);
        assert(w[0] != 0);
        assert(1 + w[0] <= w.len());
        assert(w.skip(1 + d as int) =~= wire_name(s2));
        assert(w.subrange(1, 1 + d as int) =~= s.take(d as int));
        assert(read_labels(w) == Some(
            (seq![s.take(d as int)] + host_labels(s2), Seq::<u8>::empty()),
        ));
    } else {
        assert(d == s.len());
        assert(w =~= seq![s.len() as u8] + s + seq![0u8]);
        assert(w[0] == s.len() as u8);
        assert(w[0] != 0);
        assert(1 + w[0] <= w.len());
        let w2 = w.skip(1 + s.len() as int);
        assert(w2 =~= seq![0u8]);
        assert(w2[0] == 0);
        assert(read_labels(w2) == Some((Seq::<Seq<u8>>::empty(), w2.skip(1))));
        assert(w2.skip(1) =~= Seq::<u8>::empty());
        assert(w.subrange(1, 1 + w[0] as int) =~= s);
        assert(seq![s] + Seq::<Seq<u8>>::empty() =~= seq![s]);
        assert(host_labels(s) == seq![s]);
    }
}

/// Splits `cname` into labels and emits the DNS wire form of the name:
/// a length byte and the raw bytes for each label, then a zero terminator.
/// Rejects hostnames with an empty label or a label longer than 63 bytes
/// before producing anything.
pub fn transform_cname_for_query(cname: &str) -> (r: Result<Vec<u8>, DnsError>)
    ensures
        r is Ok <==> valid_hostname(cname.spec_bytes()),
        r matches Ok(v) ==> v@ == wire_name(cname.spec_bytes()),
        r matches Err(e) ==> e == DnsError::InvalidHostname,
{
    let bytes: &[u8] = cname.as_bytes();
    let ghost s: Seq<u8> = cname.spec_bytes();
    let n: usize = bytes.len();
    let mut out: Vec<u8> = Vec::new();
    let mut start: usize = 0;
    proof {
        assert(s.skip(0) =~= s);
    }
    loop
        invariant
            s == cname.spec_bytes(),
            bytes@ == s,
            n == s.len(),
            start <= n,
            valid_hostname(s) == valid_hostname(s.skip(start as int)),
            valid_hostname(s) ==> wire_name(s) == out@ + wire_name(s.skip(start as int)),
        decreases n - start,
    {
        let ghost rest = s.skip(start as int);
        // scan to the end of the current label
        let mut i: usize = start;
        while i < n && bytes[i] != DOT
            invariant
                bytes@ == s,
                n == s.len(),
                start <= i <= n,
                forall|k: int| start <= k < i ==> s[k] != DOT,
            decreases n - i,
        {
            i = i + 1;
        }
        proof {
            assert forall|k: int| 0 <= k < i - start implies rest[k] != DOT by {
                assert(rest[k] == s[start + k]);
            }
            if i < n {
                assert(rest[i - start] == s[i as int]);
            }
            lemma_first_dot_at(rest, i - start);
        }
        let label_len: usize = i - start;
        if label_len < 1 || label_len > MAX_LABEL_LEN {
            // the current label is empty or too long, so the hostname is invalid
            return Err(DnsError::InvalidHostname);
        }
        out.push(label_len as u8);
        let ghost mid = out@;
        let mut j: usize = start;
        while j < i
            invariant
                bytes@ == s,
                n == s.len(),
                start <= j <= i <= n,
                out@ == mid + s.subrange(start as int, j as int),
            decreases i - j,
        {
            out.push(bytes[j]);
            j = j + 1;
        }
        if i == n {
            // last label: close the name with the zero terminator
            out.push(0);
            proof {
                assert(rest =~= s.subrange(start as int, n as int));
                assert(valid_hostname(rest));
                assert(wire_name(rest) =~= seq![label_len as u8] + rest + seq![0u8]);
                assert(out@ =~= (mid + s.subrange(start as int, n as int)).push(0u8));
                assert(out@ =~= wire_name(s));
            }
            return Ok(out);
        } else {
            proof {
                assert(rest.skip(label_len + 1) =~= s.skip(i as int + 1));
                assert(rest.take(label_len as int) =~= s.subrange(start as int, i as int));
                assert(valid_hostname(rest) == valid_hostname(s.skip(i as int + 1)));
                if valid_hostname(s) {
                    assert(wire_name(rest) =~= seq![label_len as u8] + rest.take(label_len as int)
                        + wire_name(rest.skip(label_len + 1)));
                    assert(wire_name(s) =~= out@ + wire_name(s.skip(i as int + 1)));
                }
            }
            start = i + 1;
        }
    }
}

} // verus!
