use cauldron::deserialize_dns_answer;
use cauldron::format_ipv4;
use cauldron::DnsError;

/// A response header and echoed question for `example.com`, with the given
/// answer count, followed by the given answer records.
fn response(ancount: u16, answers: &[Vec<u8>]) -> Vec<u8> {
    let mut v: Vec<u8> = vec![0x00, 0x01, 0x81, 0x80, 0x00, 0x01];
    v.extend_from_slice(&ancount.to_be_bytes());
    v.extend_from_slice(&[0x00, 0x00, 0x00, 0x00]);
    v.push(7);
    v.extend_from_slice(b"example");
    v.push(3);
    v.extend_from_slice(b"com");
    v.push(0);
    v.extend_from_slice(&[0x00, 0x01, 0x00, 0x01]);
    for a in answers {
        v.extend_from_slice(a);
    }
    v
}

/// An A record with a pointer-encoded name and the given address bytes.
fn a_record(ip: [u8; 4]) -> Vec<u8> {
    let mut v: Vec<u8> = vec![0xc0, 0x0c, 0x00, 0x01, 0x00, 0x01, 0x00, 0x00, 0x00, 0x3c];
    v.extend_from_slice(&[0x00, 0x04]);
    v.extend_from_slice(&ip);
    v
}

/// A record with an arbitrary non-A type and the given rdata.
fn other_record(rtype: [u8; 2], rdata: &[u8]) -> Vec<u8> {
    let mut v: Vec<u8> = vec![0xc0, 0x0c];
    v.extend_from_slice(&rtype);
    v.extend_from_slice(&[0x00, 0x01, 0x00, 0x00, 0x00, 0x3c]);
    v.extend_from_slice(&(rdata.len() as u16).to_be_bytes());
    v.extend_from_slice(rdata);
    v
}

#[test]
fn extracts_a_record_among_others() {
    // one A record and one CNAME, interleaved: only the A record's address
    // comes back, in order of appearance
    let cname = other_record([0x00, 0x05], b"\x03foo\x00");
    let a = a_record([93, 184, 216, 34]);
    let buf = response(2, &[cname, a]);
    let addrs = deserialize_dns_answer(&buf).unwrap();
    assert_eq!(addrs, vec!["93.184.216.34".to_string()]);
}

#[test]
fn extracts_multiple_a_records_in_order() {
    let a1 = a_record([10, 0, 0, 1]);
    let a2 = a_record([192, 168, 1, 254]);
    let buf = response(2, &[a1, a2]);
    let addrs = deserialize_dns_answer(&buf).unwrap();
    assert_eq!(addrs, vec!["10.0.0.1".to_string(), "192.168.1.254".to_string()]);
}

#[test]
fn empty_answers_is_ok_not_error() {
    let buf = response(0, &[]);
    assert_eq!(deserialize_dns_answer(&buf), Ok(Vec::new()));
}

#[test]
fn type_high_byte_is_not_type_a() {
    // type 0x0100 must not be taken for an A record: a byte-sum check
    // (1 + 0 == 1) would wrongly extract it
    let not_a = other_record([0x01, 0x00], &[9, 9, 9, 9]);
    let buf = response(1, &[not_a]);
    assert_eq!(deserialize_dns_answer(&buf), Ok(Vec::new()));
}

#[test]
fn short_buffer_is_an_error() {
    assert_eq!(deserialize_dns_answer(&[]), Err(DnsError::MalformedResponse));
    assert_eq!(
        deserialize_dns_answer(&[0x00, 0x01, 0x81, 0x80]),
        Err(DnsError::MalformedResponse)
    );
}

#[test]
fn unterminated_question_name_is_an_error() {
    // the question name runs to the end of the buffer without a terminator
    let mut buf = response(0, &[]);
    buf.truncate(16);
    assert_eq!(deserialize_dns_answer(&buf), Err(DnsError::MalformedResponse));
}

#[test]
fn missing_answer_record_is_an_error() {
    // the header promises one answer but none follows
    let buf = response(1, &[]);
    assert_eq!(deserialize_dns_answer(&buf), Err(DnsError::MalformedResponse));
}

#[test]
fn truncated_rdata_is_an_error() {
    // the record's rdlength runs past the end of the buffer
    let mut a = a_record([1, 2, 3, 4]);
    a.truncate(a.len() - 2);
    let buf = response(1, &[a]);
    assert_eq!(deserialize_dns_answer(&buf), Err(DnsError::MalformedResponse));
}

#[test]
fn overlong_rdlength_is_an_error() {
    // a non-A record whose declared rdata length exceeds what is left
    let mut r = other_record([0x00, 0x05], b"abc");
    let n = r.len();
    r[n - 4] = 0x40; // declare 0x4003 bytes of rdata
    let buf = response(1, &[r]);
    assert_eq!(deserialize_dns_answer(&buf), Err(DnsError::MalformedResponse));
}

#[test]
fn no_partial_results_on_late_error() {
    // a good A record followed by a truncated one: the whole decode fails
    // rather than returning the first address alone
    let good = a_record([10, 1, 1, 1]);
    let mut bad = a_record([10, 2, 2, 2]);
    bad.truncate(bad.len() - 1);
    let buf = response(2, &[good, bad]);
    assert_eq!(deserialize_dns_answer(&buf), Err(DnsError::MalformedResponse));
}

#[test]
fn a_record_with_short_rdata_is_an_error() {
    // an A record must carry at least four rdata bytes
    let mut r: Vec<u8> = vec![0xc0, 0x0c, 0x00, 0x01, 0x00, 0x01, 0x00, 0x00, 0x00, 0x3c];
    r.extend_from_slice(&[0x00, 0x02, 7, 7]);
    let buf = response(1, &[r]);
    assert_eq!(deserialize_dns_answer(&buf), Err(DnsError::MalformedResponse));
}

#[test]
fn trailing_bytes_after_answers_are_ignored() {
    // only the records the header declares are walked; bytes after the last
    // one do not disturb the result
    let a = a_record([172, 16, 0, 5]);
    let mut buf = response(1, &[a]);
    buf.extend_from_slice(&[0xde, 0xad, 0xbe, 0xef]);
    let addrs = deserialize_dns_answer(&buf).unwrap();
    assert_eq!(addrs, vec!["172.16.0.5".to_string()]);
}

#[test]
fn format_ipv4_octets() {
    assert_eq!(format_ipv4(0, 0, 0, 0), "0.0.0.0");
    assert_eq!(format_ipv4(255, 255, 255, 255), "255.255.255.255");
    assert_eq!(format_ipv4(93, 184, 216, 34), "93.184.216.34");
    assert_eq!(format_ipv4(8, 65, 100, 199), "8.65.100.199");
}
