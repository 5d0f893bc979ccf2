use oxidedb::memcached::protocol::{
    is_well_formed, HelloFeature, Opcode, PacketHeader, Request, Response, Status,
};

fn packet(opcode: u8, extras: &[u8], key: &[u8], value: &[u8]) -> Vec<u8> {
    let mut out = vec![0x80, opcode];
    out.extend_from_slice(&(key.len() as u16).to_be_bytes());
    out.push(extras.len() as u8);
    out.push(0);
    out.extend_from_slice(&7u16.to_be_bytes());
    let total = (extras.len() + key.len() + value.len()) as u32;
    out.extend_from_slice(&total.to_be_bytes());
    out.extend_from_slice(&0xdead_beefu32.to_be_bytes());
    out.extend_from_slice(&99u64.to_be_bytes());
    out.extend_from_slice(extras);
    out.extend_from_slice(key);
    out.extend_from_slice(value);
    out
}

#[test]
fn requests_are_read_from_bytes() {
    let mut bytes = packet(0x01, &[0, 0, 0, 1, 0, 0, 0, 60], b"k1", b"{\"a\":1}");
    let n = bytes.len();
    bytes.extend_from_slice(&[1, 2, 3]);
    assert!(is_well_formed(&bytes));
    let (req, used) = Request::decode(&bytes).unwrap();
    assert_eq!(used, n);
    assert_eq!(req.header.opcode, Opcode::SetKey);
    assert_eq!(req.header.opaque, 0xdead_beef);
    assert_eq!(req.header.cas, 99);
    assert_eq!(req.vbucket_id(), 7);
    assert_eq!(req.key_str(), "k1");
    assert_eq!(req.value, b"{\"a\":1}".to_vec());
    assert_eq!(req.mutation_extras(), (1, 60));
}

#[test]
fn half_a_packet_is_not_read() {
    let bytes = packet(0x00, &[], b"key", b"");
    assert!(Request::decode(&bytes[..20]).is_none());
    assert!(Request::decode(&bytes[..bytes.len() - 1]).is_none());
    assert!(PacketHeader::decode(&bytes[..24]).is_some());
}

#[test]
fn bodies_shorter_than_their_parts_are_not_well_formed() {
    let mut bytes = packet(0x00, &[], b"key", b"");
    bytes[3] = 200;
    assert!(!is_well_formed(&bytes));
}

#[test]
fn headers_read_back() {
    let bytes = packet(0x04, &[], b"key", b"");
    let header = PacketHeader::decode(&bytes).unwrap();
    let mut again = Vec::new();
    header.encode(&mut again);
    assert_eq!(again, bytes[..24].to_vec());
}

#[test]
fn responses_are_packets() {
    let resp = Response::new(Opcode::Get, Status::Success, 5)
        .with_cas(17)
        .with_extras(vec![0, 0, 0, 9])
        .with_key(b"k".to_vec())
        .with_value(b"v".to_vec())
        .with_datatype(1);
    let bytes = resp.encode();
    assert_eq!(bytes.len(), 24 + 6);
    assert_eq!(bytes[0], 0x81);
    let (back, used) = Request::decode(&bytes).unwrap();
    assert_eq!(used, bytes.len());
    assert_eq!(back.key, b"k".to_vec());
    assert_eq!(back.value, b"v".to_vec());
    assert_eq!(back.extras, vec![0, 0, 0, 9]);
    assert_eq!(back.header.cas, 17);
    assert_eq!(back.header.data_type, 1);
}

#[test]
fn errors_carry_their_message() {
    let resp = Response::error(Opcode::Get, Status::KeyNotFound, 5, "Not found");
    assert_eq!(resp.header.vbucket_or_status, Status::KeyNotFound.to_u16());
    assert_eq!(resp.value, b"Not found".to_vec());
}

#[test]
fn codes_are_those_of_the_protocol() {
    assert_eq!(Opcode::from(0x1f).to_byte(), 0x1f);
    assert_eq!(Opcode::from(0x1f), Opcode::Hello);
    assert_eq!(Opcode::from(0xd0), Opcode::SubdocMultiLookup);
    assert_eq!(Opcode::from(0xf3), Opcode::Unknown);
    assert_eq!(Status::KeyNotFound.to_u16(), 0x0001);
    assert_eq!(Status::NoBucket.to_u16(), 0x0008);
    assert_eq!(HelloFeature::Snappy.to_u16(), 0x000a);
}
