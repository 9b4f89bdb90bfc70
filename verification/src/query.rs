//! Building a DNS A-record query message.
//!
//! A query is the 12-byte header, the wire-encoded hostname, and the
//! question type and class, all in network byte order.

use vstd::prelude::*;

verus! {

use crate::errors::DnsError;
use crate::fields::be16;
use crate::name::transform_cname_for_query;
use crate::name::valid_hostname;
use crate::name::wire_name;
use vstd::string::StringSliceAdditionalSpecFns;

/// Query id used by `build_query` when the caller does not pick one.
pub const DEFAULT_QUERY_ID: u16 = 1;

/// The 12 header bytes of a query with identifier `id`: the id, flags
/// 0x0100 (recursion desired only), a question count of one, and zero
/// answer, authority and additional counts.
pub open spec fn query_header(id: u16) -> Seq<u8> {
    seq![
        (id / 256) as u8,
        (id % 256) as u8,
        1u8,
        0u8,
        0u8,
        1u8,
        0u8,
        0u8,
        0u8,
        0u8,
        0u8,
        0u8,
    ]
}

/// The complete query message for hostname `s`: header, encoded name,
/// then qtype A (1) and qclass IN (1) as big-endian u16.
pub open spec fn query_message(id: u16, s: Seq<u8>) -> Seq<u8> {
    query_header(id) + wire_name(s) + seq![0u8, 1u8, 0u8, 1u8]
}

/// Builds the full query message for `cname` with query identifier `id`.
/// Rejects invalid hostnames before emitting anything.
pub fn build_query_with_id(cname: &str, id: u16) -> (r: Result<Vec<u8>, DnsError>)
    ensures
        r is Ok <==> valid_hostname(cname.spec_bytes()),
        r matches Ok(v) ==> v@ == query_message(id, cname.spec_bytes()),
        r matches Err(e) ==> e == DnsError::InvalidHostname,
{
    let mut name_bytes = match transform_cname_for_query(cname) {
        Ok(v) => v,
        Err(e) => {
            return Err(e);
        },
    };
    let mut bytes: Vec<u8> = Vec::new();
    // query identifier, high byte first
    bytes.push((id / 256) as u8);
    bytes.push((id % 256) as u8);
    // flags 0x0100: only recursion desired is set
    bytes.push(1);
    bytes.push(0);
    // one question
    bytes.push(0);
    bytes.push(1);
    // no answer, authority or additional records in a query
    bytes.push(0);
    bytes.push(0);
    bytes.push(0);
    bytes.push(0);
    bytes.push(0);
    bytes.push(0);
    // the name being looked up
    bytes.append(&mut name_bytes);
    // qtype 1: A record
    bytes.push(0);
    bytes.push(1);
    // qclass 1: Internet
    bytes.push(0);
    bytes.push(1);
    proof {
        assert(bytes@ =~= query_message(id, cname.spec_bytes()));
    }
    Ok(bytes)
}

/// Builds the query message for `cname` with the default identifier.
pub fn build_query(cname: &str) -> (r: Result<Vec<u8>, DnsError>)
    ensures
        r is Ok <==> valid_hostname(cname.spec_bytes()),
        r matches Ok(v) ==> v@ == query_message(DEFAULT_QUERY_ID, cname.spec_bytes()),
        r matches Err(e) ==> e == DnsError::InvalidHostname,
{
    build_query_with_id(cname, DEFAULT_QUERY_ID)
}

/// Header invariants of every encoded query: the id round-trips, the flags
/// field is exactly 0x0100, the question count is one, and the answer,
/// authority and additional counts are zero, whatever the hostname.
pub proof fn lemma_query_header_invariants(id: u16, s: Seq<u8>)
    ensures
        query_message(id, s).len() >= 16,
        be16(query_message(id, s)[0], query_message(id, s)[1]) == id,
        be16(query_message(id, s)[2], query_message(id, s)[3]) == 0x0100,
        be16(query_message(id, s)[4], query_message(id, s)[5]) == 1,
        be16(query_message(id, s)[6], query_message(id, s)[7]) == 0,
        be16(query_message(id, s)[8], query_message(id, s)[9]) == 0,
        be16(query_message(id, s)[10], query_message(id, s)[11]) == 0,
{
    let m = query_message(id, s);
    assert(wire_name(s).len() >= 1);
    assert(forall|k: int| 0 <= k < 12 ==> m[k] == query_header(id)[k]);
    assert(be16(m[0], m[1]) == 256 * ((id / 256) as int) + ((id % 256) as int));
}

/// Determinism of the encoder: the query message is a function of the
/// hostname and the id alone, so encoding the same hostname twice with the
/// same id gives byte-identical output.
pub proof fn lemma_encode_deterministic(id: u16, s: Seq<u8>, r1: Seq<u8>, r2: Seq<u8>)
    requires
        r1 == query_message(id, s),
        r2 == query_message(id, s),
    ensures
        r1 == r2,
{
}

} // verus!
