//! Decoding the answer section of a DNS response.
//!
//! The decoder reads the answer count from the header, walks past the echoed
//! question, then visits each answer record, collecting the addresses of A
//! records and skipping everything else. Every read is bounds-checked: a
//! buffer shorter than its own counts and lengths demand is rejected as a
//! whole, never silently truncated.

use vstd::prelude::*;

verus! {

use crate::addr::dotted_quad;
use crate::addr::format_ipv4;
use crate::cursor::Reader;
use crate::errors::DnsError;
use crate::fields::be16;
use crate::fields::ANCOUNT_OFFSET;
use crate::fields::CLASS_SIZE;
use crate::fields::HEADER_SECTION_SIZE;
use crate::fields::NAME_SIZE;
use crate::fields::QCLASS_SIZE;
use crate::fields::QTYPE_SIZE;
use crate::fields::TTL_SIZE;
use crate::fields::TYPE_A;
use crate::name::first_dot;
use crate::name::lemma_first_dot_spec;
use crate::name::valid_hostname;
use crate::name::wire_name;

/// Walks the label-encoded name starting at `pos`: each byte read is a label
/// length, the label is skipped, and the walk ends one past the zero
/// terminator. `None` when the walk would leave the buffer.
pub open spec fn skip_name(b: Seq<u8>, pos: int) -> Option<int>
    decreases b.len() - pos,
{
    if pos < 0 || pos >= b.len() {
        None
    } else if b[pos] == 0 {
        Some(pos + 1)
    } else if pos + 1 + b[pos] > b.len() {
        None
    } else {
        skip_name(b, pos + 1 + b[pos] as int)
    }
}

/// The addresses of the A records among `n` answer records starting at
/// `pos`. Each record is a two-byte name pointer, type, class, ttl and data
/// length, then the data itself. `None` when a record (or the four address
/// bytes of an A record) does not fit in the buffer.
pub open spec fn parse_answers(b: Seq<u8>, pos: int, n: nat) -> Option<Seq<(u8, u8, u8, u8)>>
    decreases n,
{
    if n == 0 {
        Some(Seq::<(u8, u8, u8, u8)>::empty())
    } else if pos < 0 || pos + 12 > b.len() {
        None
    } else {
        let ty = be16(b[pos + 2], b[pos + 3]);
        let rdlen = be16(b[pos + 10], b[pos + 11]);
        if pos + 12 + rdlen > b.len() {
            None
        } else if ty == TYPE_A {
            if rdlen < 4 {
                None
            } else {
                match parse_answers(b, pos + 12 + rdlen, (n - 1) as nat) {
                    Some(rest) => Some(
                        seq![(b[pos + 12], b[pos + 13], b[pos + 14], b[pos + 15])] + rest,
                    ),
                    None => None,
                }
            }
        } else {
            parse_answers(b, pos + 12 + rdlen, (n - 1) as nat)
        }
    }
}

/// The answer count in the header, at bytes 6 and 7.
pub open spec fn header_ancount(b: Seq<u8>) -> int
    recommends
        b.len() >= 8,
{
    be16(b[6], b[7])
}

/// What decoding a whole response yields: the A-record addresses, in order
/// of appearance, or `None` when the buffer is too short for its own header,
/// question or answer records.
pub open spec fn decode_spec(b: Seq<u8>) -> Option<Seq<(u8, u8, u8, u8)>> {
    if b.len() < 12 {
        None
    } else {
        match skip_name(b, 12) {
            Some(q_end) => if q_end + 4 > b.len() {
                None
            } else {
                parse_answers(b, q_end + 4, header_ancount(b) as nat)
            },
            None => None,
        }
    }
}

/// The dotted-decimal text of each address, in the same order.
pub open spec fn addr_strings(addrs: Seq<(u8, u8, u8, u8)>) -> Seq<Seq<char>> {
    addrs.map_values(|t: (u8, u8, u8, u8)| dotted_quad(t.0, t.1, t.2, t.3))
}

/// The decoder's name walk agrees with the encoder: wherever a buffer holds
/// the wire form of a valid hostname, `skip_name` ends exactly one past its
/// zero terminator. In particular a compliant server echoing the encoded
/// question leaves the decoder positioned at the question's type field.
pub proof fn lemma_skip_name_wire(b: Seq<u8>, s: Seq<u8>, pos: int)
    requires
        valid_hostname(s),
        0 <= pos,
        pos + wire_name(s).len() <= b.len(),
        b.subrange(pos, pos + wire_name(s).len()) == wire_name(s),
    ensures
        skip_name(b, pos) == Some(pos + wire_name(s).len()),
    decreases s.len(),
{
    let d = first_dot(s);
    let w = wire_name(s);
    lemma_first_dot_spec(s);
    assert(b[pos] == w[0]);
    if d < s.len() {
        let s2 = s.skip(d + 1 as int);
        let w2 = wire_name(s2);
        assert(w[0] == d as u8);
        assert(b.subrange(pos + 1 + d, pos + w.len()) =~= w2) by {
            assert(forall|j: int|
                0 <= j < w2.len() ==> b.subrange(pos + 1 + d, pos + w.len())[j] == b[pos + 1 + d
                    + j] && w[1 + d + j] == w2[j]);
        }
        lemma_skip_name_wire(b, s2, pos + 1 + d);
        assert(skip_name(b, pos) == skip_name(b, pos + 1 + d));
    } else {
        assert(d == s.len());
        assert(w[0] == s.len() as u8);
        assert(w[0] != 0);
        assert(b[pos + 1 + s.len()] == w[1 + s.len() as int]);
        assert(w[1 + s.len() as int] == 0);
        assert(skip_name(b, pos) == skip_name(b, pos + 1 + s.len()));
        assert(skip_name(b, pos + 1 + s.len()) == Some(pos + s.len() + 2));
    }
}

/// A buffer too short to hold even the fixed header never decodes.
pub proof fn lemma_short_header_rejected(b: Seq<u8>)
    requires
        b.len() < 12,
    ensures
        decode_spec(b) is None,
{
}

/// A response whose header and question parse cleanly but whose answer
/// count is zero decodes to the empty address list, not to an error.
pub proof fn lemma_empty_answers(b: Seq<u8>)
    requires
        b.len() >= 12,
        header_ancount(b) == 0,
        skip_name(b, 12) is Some,
        skip_name(b, 12).unwrap() + 4 <= b.len(),
    ensures
        decode_spec(b) == Some(Seq::<(u8, u8, u8, u8)>::empty()),
{
}

/// Reads the four bytes of an IPv4 address from the rdata of an A record.
fn read_addr(rd: &mut Reader) -> (r: Result<(u8, u8, u8, u8), DnsError>)
    requires
        old(rd).wf(),
    ensures
        final(rd).wf(),
        final(rd).buf@ == old(rd).buf@,
        r is Ok <==> old(rd).pos + 4 <= old(rd).buf@.len(),
        r matches Ok(v) ==> final(rd).pos == old(rd).pos + 4 && v == (
            old(rd).buf@[old(rd).pos as int],
            old(rd).buf@[old(rd).pos + 1],
            old(rd).buf@[old(rd).pos + 2],
            old(rd).buf@[old(rd).pos + 3],
        ),
        r is Err ==> final(rd).pos == old(rd).pos,
        r matches Err(e) ==> e == DnsError::MalformedResponse,
{
    if rd.buf.len() - rd.pos >= 4 {
        let a0 = rd.buf[rd.pos];
        let a1 = rd.buf[rd.pos + 1];
        let a2 = rd.buf[rd.pos + 2];
        let a3 = rd.buf[rd.pos + 3];
        rd.pos = rd.pos + 4;
        Ok((a0, a1, a2, a3))
    } else {
        Err(DnsError::MalformedResponse)
    }
}

/// Extracts the A-record addresses of the response in `bytes`, formatted as
/// dotted-decimal strings, in the order the records appear. Fails with
/// `MalformedResponse` exactly when the buffer is shorter than its own
/// header, question section or answer records require.
pub fn deserialize_dns_answer(bytes: &[u8]) -> (r: Result<Vec<String>, DnsError>)
    ensures
        r is Ok <==> decode_spec(bytes@) is Some,
        r matches Ok(v) ==> v.deep_view() == addr_strings(decode_spec(bytes@).unwrap()),
        r matches Err(e) ==> e == DnsError::MalformedResponse,
{
    let ghost s: Seq<u8> = bytes@;
    let n: usize = bytes.len();
    let mut rd = Reader::new(bytes);
    if n < HEADER_SECTION_SIZE {
        return Err(DnsError::MalformedResponse);
    }
    // the answer count sits at fixed offsets 6 and 7 of the header
    if let Err(e) = rd.skip(ANCOUNT_OFFSET) {
        return Err(e);
    }
    let ancount: u16 = match rd.read_u16_be() {
        Ok(v) => v,
        Err(e) => {
            return Err(e);
        },
    };
    proof {
        assert(ancount as int == header_ancount(s));
    }
    // the echoed question name starts right after the header
    rd.pos = HEADER_SECTION_SIZE;
    loop
        invariant_except_break
            skip_name(s, 12) == skip_name(s, rd.pos as int),
        invariant
            bytes@ == s,
            rd.buf@ == s,
            rd.wf(),
            n == s.len(),
            HEADER_SECTION_SIZE <= rd.pos,
            n >= HEADER_SECTION_SIZE,
            ancount as int == header_ancount(s),
        ensures
            bytes@ == s,
            rd.buf@ == s,
            rd.wf(),
            n == s.len(),
            n >= HEADER_SECTION_SIZE,
            ancount as int == header_ancount(s),
            skip_name(s, 12) == Some(rd.pos as int),
        decreases n - rd.pos,
    {
        let ghost p0 = rd.pos as int;
        let len_byte: u8 = match rd.read_u8() {
            Ok(v) => v,
            Err(e) => {
                // the name never reaches its terminator inside the buffer
                return Err(e);
            },
        };
        if len_byte == 0 {
            proof {
                assert(skip_name(s, p0) == Some(p0 + 1));
            }
            break ;
        }
        if let Err(e) = rd.skip(len_byte as usize) {
            // the label runs past the end of the buffer
            proof {
                assert(skip_name(s, p0) is None);
            }
            return Err(e);
        }
        proof {
            assert(skip_name(s, p0) == skip_name(s, rd.pos as int));
        }
    }
    // the question's qtype and qclass separate the name from the answers
    if let Err(e) = rd.skip(QTYPE_SIZE + QCLASS_SIZE) {
        return Err(e);
    }
    let ghost astart = rd.pos as int;
    proof {
        assert(decode_spec(s) == parse_answers(s, astart, ancount as nat));
    }
    let mut result: Vec<String> = Vec::new();
    let ghost mut collected: Seq<(u8, u8, u8, u8)> = Seq::empty();
    proof {
        assert(Seq::<(u8, u8, u8, u8)>::empty() + parse_answers(s, astart, ancount as nat).unwrap()
            =~= parse_answers(s, astart, ancount as nat).unwrap());
    }
    let mut i: u16 = 0;
    while i < ancount
        invariant
            bytes@ == s,
            rd.buf@ == s,
            rd.wf(),
            n == s.len(),
            i <= ancount,
            result@.len() == collected.len(),
            forall|k: int| 0 <= k < collected.len() ==> result@[k]@ == addr_strings(collected)[k],
            parse_answers(s, rd.pos as int, (ancount - i) as nat) matches Some(rest)
                ==> decode_spec(s) == Some(collected + rest),
            parse_answers(s, rd.pos as int, (ancount - i) as nat) is None ==> decode_spec(s)
                is None,
        decreases ancount - i,
    {
        let ghost p0 = rd.pos as int;
        let ghost rem = (ancount - i) as nat;
        // the answer's name: assumed to be a two-byte compression pointer
        if let Err(e) = rd.skip(NAME_SIZE) {
            proof {
                assert(parse_answers(s, p0, rem) is None);
            }
            return Err(e);
        }
        let ty: u16 = match rd.read_u16_be() {
            Ok(v) => v,
            Err(e) => {
                proof {
                    assert(parse_answers(s, p0, rem) is None);
                }
                return Err(e);
            },
        };
        if let Err(e) = rd.skip(CLASS_SIZE + TTL_SIZE) {
            proof {
                assert(parse_answers(s, p0, rem) is None);
            }
            return Err(e);
        }
        let rdlen: u16 = match rd.read_u16_be() {
            Ok(v) => v,
            Err(e) => {
                proof {
                    assert(parse_answers(s, p0, rem) is None);
                }
                return Err(e);
            },
        };
        if ty == TYPE_A {
            // four address bytes, then whatever else the record declares
            if rdlen < 4 {
                proof {
                    assert(parse_answers(s, p0, rem) is None);
                }
                return Err(DnsError::MalformedResponse);
            }
            let (a0, a1, a2, a3) = match read_addr(&mut rd) {
                Ok(v) => v,
                Err(e) => {
                    proof {
                        assert(parse_answers(s, p0, rem) is None);
                    }
                    return Err(e);
                },
            };
            if let Err(e) = rd.skip((rdlen - 4) as usize) {
                proof {
                    assert(parse_answers(s, p0, rem) is None);
                }
                return Err(e);
            }
            let addr_text = format_ipv4(a0, a1, a2, a3);
            let ghost prev = result@;
            result.push(addr_text);
            proof {
                let t = (a0, a1, a2, a3);
                let before = collected;
                collected = collected.push(t);
                assert(result@.len() == collected.len());
                assert forall|k: int| 0 <= k < collected.len() implies result@[k]@
                    == addr_strings(collected)[k] by {
                    if k < before.len() {
                        assert(result@[k] == prev[k]);
                        assert(collected[k] == before[k]);
                        assert(prev[k]@ == addr_strings(before)[k]);
                    } else {
                        assert(result@[k] == addr_text);
                        assert(collected[k] == t);
                    }
                }
                match parse_answers(s, rd.pos as int, (rem - 1) as nat) {
                    Some(rest) => {
                        assert(parse_answers(s, p0, rem) == Some(seq![t] + rest));
                        assert((before + (seq![t] + rest)) =~= (collected + rest));
                    },
                    None => {
                        assert(parse_answers(s, p0, rem) is None);
                    },
                }
            }
        } else {
            // not an A record: consume its data and move on
            if let Err(e) = rd.skip(rdlen as usize) {
                proof {
                    assert(parse_answers(s, p0, rem) is None);
                }
                return Err(e);
            }
            proof {
                assert(parse_answers(s, p0, rem) == parse_answers(
                    s,
                    rd.pos as int,
                    (rem - 1) as nat,
                ));
            }
        }
        i = i + 1;
    }
    proof {
        assert(parse_answers(s, rd.pos as int, 0) == Some(Seq::<(u8, u8, u8, u8)>::empty()));
        assert(collected + Seq::<(u8, u8, u8, u8)>::empty() =~= collected);
        assert forall|k: int| 0 <= k < collected.len() implies result.deep_view()[k]
            == addr_strings(collected)[k] by {
            assert(result.deep_view()[k] == result@[k]@);
            assert(result@[k]@ == addr_strings(collected)[k]);
        }
        assert(result.deep_view() =~= addr_strings(collected));
    }
    Ok(result)
}

} // verus!
