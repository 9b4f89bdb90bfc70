use cauldron::build_query;
use cauldron::build_query_with_id;
use cauldron::transform_cname_for_query;
use cauldron::DnsError;

#[test]
fn name_encoding_basic() {
    let bytes = transform_cname_for_query("www.google.com").unwrap();
    let mut expected: Vec<u8> = Vec::new();
    expected.push(3);
    expected.extend_from_slice(b"www");
    expected.push(6);
    expected.extend_from_slice(b"google");
    expected.push(3);
    expected.extend_from_slice(b"com");
    expected.push(0);
    assert_eq!(bytes, expected);
}

#[test]
fn name_encoding_single_label() {
    let bytes = transform_cname_for_query("localhost").unwrap();
    let mut expected: Vec<u8> = vec![9];
    expected.extend_from_slice(b"localhost");
    expected.push(0);
    assert_eq!(bytes, expected);
}

#[test]
fn name_round_trip_walk() {
    // walking the encoded name label by label gives back the hostname's labels
    let hostname = "fga.unb.br";
    let bytes = transform_cname_for_query(hostname).unwrap();
    let mut labels: Vec<String> = Vec::new();
    let mut pos = 0usize;
    loop {
        let len = bytes[pos] as usize;
        if len == 0 {
            break;
        }
        let label = &bytes[pos + 1..pos + 1 + len];
        labels.push(String::from_utf8(label.to_vec()).unwrap());
        pos += 1 + len;
    }
    assert_eq!(pos, bytes.len() - 1);
    assert_eq!(labels, vec!["fga", "unb", "br"]);
}

#[test]
fn empty_hostname_rejected() {
    assert_eq!(transform_cname_for_query(""), Err(DnsError::InvalidHostname));
}

#[test]
fn empty_label_rejected() {
    assert_eq!(transform_cname_for_query("a..b"), Err(DnsError::InvalidHostname));
    assert_eq!(transform_cname_for_query(".a"), Err(DnsError::InvalidHostname));
    assert_eq!(transform_cname_for_query("a."), Err(DnsError::InvalidHostname));
}

#[test]
fn long_label_rejected() {
    let l63 = "a".repeat(63);
    let l64 = "a".repeat(64);
    assert!(transform_cname_for_query(&format!("{}.com", l63)).is_ok());
    assert_eq!(
        transform_cname_for_query(&format!("{}.com", l64)),
        Err(DnsError::InvalidHostname)
    );
}

#[test]
fn query_exact_bytes() {
    let q = build_query_with_id("ab.c", 0x1234).unwrap();
    let expected: Vec<u8> = vec![
        0x12, 0x34, // id
        0x01, 0x00, // flags: recursion desired
        0x00, 0x01, // qdcount
        0x00, 0x00, // ancount
        0x00, 0x00, // nscount
        0x00, 0x00, // arcount
        2, b'a', b'b', 1, b'c', 0, // name
        0x00, 0x01, // qtype A
        0x00, 0x01, // qclass IN
    ];
    assert_eq!(q, expected);
}

#[test]
fn header_invariants() {
    // qdcount 1, all other counts 0 and flags 0x0100, whatever the hostname
    for host in ["example.com", "a.b.c.d.e", "x"] {
        let q = build_query(host).unwrap();
        assert_eq!(&q[..2], &[0x00, 0x01]); // default id 1
        assert_eq!(&q[2..4], &[0x01, 0x00]);
        assert_eq!(&q[4..6], &[0x00, 0x01]);
        assert_eq!(&q[6..12], &[0, 0, 0, 0, 0, 0]);
    }
}

#[test]
fn query_ends_with_qtype_qclass() {
    let q = build_query("example.com").unwrap();
    assert_eq!(&q[q.len() - 4..], &[0x00, 0x01, 0x00, 0x01]);
}

#[test]
fn encoding_is_deterministic() {
    let a = build_query_with_id("example.com", 7).unwrap();
    let b = build_query_with_id("example.com", 7).unwrap();
    assert_eq!(a, b);
    let c = build_query("fga.unb.br").unwrap();
    let d = build_query("fga.unb.br").unwrap();
    assert_eq!(c, d);
}

#[test]
fn invalid_hostname_propagates_through_build_query() {
    assert_eq!(build_query("bad..name"), Err(DnsError::InvalidHostname));
    assert_eq!(build_query_with_id("", 9), Err(DnsError::InvalidHostname));
}
