use cauldron::DnsError;
use cauldron::Reader;

#[test]
fn reads_advance_in_order() {
    let data: Vec<u8> = vec![0xab, 0x12, 0x34, 0x01, 0x02, 0x03, 0x04, 0xff];
    let mut rd = Reader::new(&data);
    assert_eq!(rd.read_u8(), Ok(0xab));
    assert_eq!(rd.read_u16_be(), Ok(0x1234));
    assert_eq!(rd.read_u32_be(), Ok(0x01020304));
    assert_eq!(rd.read_u8(), Ok(0xff));
    assert_eq!(rd.read_u8(), Err(DnsError::MalformedResponse));
}

#[test]
fn skip_moves_past_bytes() {
    let data: Vec<u8> = vec![1, 2, 3, 4, 5];
    let mut rd = Reader::new(&data);
    assert_eq!(rd.skip(3), Ok(()));
    assert_eq!(rd.read_u8(), Ok(4));
    assert_eq!(rd.skip(1), Ok(()));
    assert_eq!(rd.skip(1), Err(DnsError::MalformedResponse));
}

#[test]
fn overrun_fails_and_keeps_position() {
    let data: Vec<u8> = vec![9, 8];
    let mut rd = Reader::new(&data);
    assert_eq!(rd.read_u32_be(), Err(DnsError::MalformedResponse));
    assert_eq!(rd.skip(3), Err(DnsError::MalformedResponse));
    // the failed reads left the cursor where it was
    assert_eq!(rd.read_u16_be(), Ok(0x0908));
}
