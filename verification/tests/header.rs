use bytes::BytesMut;
use dns_wire::header::{DnsHeader, ResultCode, HEADER_LENGTH};

fn encode(header: &DnsHeader) -> Vec<u8> {
    let mut buf = BytesMut::new();
    header.write_bytes(&mut buf);
    buf.to_vec()
}

fn decode(bytes: &[u8]) -> DnsHeader {
    let mut buf = BytesMut::from(bytes);
    let mut header = DnsHeader::new();
    header.read_bytes(&mut buf);
    header
}

#[test]
fn new_header_is_all_zero() {
    let h = DnsHeader::new();
    assert_eq!(h, DnsHeader::default());
    assert_eq!(h.id, 0);
    assert!(!h.response);
    assert_eq!(h.opcode, 0);
    assert_eq!(h.rescode, ResultCode::NOERROR);
    assert_eq!(encode(&h), vec![0u8; 12]);
    assert_eq!(HEADER_LENGTH, 12);
}

#[test]
fn header_encodes_to_exact_bytes() {
    let mut h = DnsHeader::new();
    h.id = 0xABCD;
    h.response = true;
    h.opcode = 5;
    h.authoritative_answer = true;
    h.truncated_message = true;
    h.recursion_desired = true;
    h.recursion_available = true;
    h.z = true;
    h.rescode = ResultCode::REFUSED;
    h.question_entries = 0x0102;
    h.answer_entries = 0x0304;
    h.authoritative_entries = 0x0506;
    h.additional_entries = 0x0708;
    assert_eq!(
        encode(&h),
        vec![0xAB, 0xCD, 0xAF, 0xC5, 1, 2, 3, 4, 5, 6, 7, 8]
    );
    assert_eq!(decode(&encode(&h)), h);
}

#[test]
fn response_and_opcode_leave_other_flags_clear() {
    let mut h = DnsHeader::new();
    h.response = true;
    h.opcode = 2;
    let bytes = encode(&h);
    assert_eq!(bytes, vec![0, 0, 0x90, 0, 0, 0, 0, 0, 0, 0, 0, 0]);
    let d = decode(&bytes);
    assert!(d.response);
    assert_eq!(d.opcode, 2);
    assert!(!d.authoritative_answer);
    assert!(!d.truncated_message);
    assert!(!d.recursion_desired);
    assert!(!d.recursion_available);
    assert!(!d.z);
    assert!(!d.checking_disabled);
    assert!(!d.authed_data);
    assert_eq!(d.rescode, ResultCode::NOERROR);
    assert_eq!(d.id, 0);
    assert_eq!(d.question_entries, 0);
    assert_eq!(d.answer_entries, 0);
    assert_eq!(d.authoritative_entries, 0);
    assert_eq!(d.additional_entries, 0);
    assert_eq!(d, h);
}

#[test]
fn each_flag_has_its_bit() {
    let mut h = DnsHeader::new();
    h.authoritative_answer = true;
    assert_eq!(encode(&h)[2..4], [0x04, 0x00]);
    let mut h = DnsHeader::new();
    h.truncated_message = true;
    assert_eq!(encode(&h)[2..4], [0x02, 0x00]);
    let mut h = DnsHeader::new();
    h.recursion_desired = true;
    assert_eq!(encode(&h)[2..4], [0x01, 0x00]);
    let mut h = DnsHeader::new();
    h.recursion_available = true;
    assert_eq!(encode(&h)[2..4], [0x00, 0x80]);
    let mut h = DnsHeader::new();
    h.z = true;
    assert_eq!(encode(&h)[2..4], [0x00, 0x40]);
    let mut h = DnsHeader::new();
    h.opcode = 15;
    assert_eq!(encode(&h)[2..4], [0x78, 0x00]);
}

#[test]
fn untransmitted_fields_and_high_opcode_bits_are_not_written() {
    let mut h = DnsHeader::new();
    h.checking_disabled = true;
    h.authed_data = true;
    h.opcode = 0x12;
    assert_eq!(encode(&h)[2..4], [0x10, 0x00]);
}

#[test]
fn read_keeps_untransmitted_fields() {
    let mut buf = BytesMut::from(&[0u8, 1, 0, 0, 0, 0, 0, 0, 0, 0, 0, 0, 99][..]);
    let mut h = DnsHeader::new();
    h.checking_disabled = true;
    h.authed_data = true;
    h.read_bytes(&mut buf);
    assert!(h.checking_disabled);
    assert!(h.authed_data);
    assert_eq!(h.id, 1);
    assert_eq!(buf.to_vec(), vec![99]);
}

#[test]
fn unknown_result_code_reads_as_noerror() {
    assert_eq!(ResultCode::from(0), ResultCode::NOERROR);
    assert_eq!(ResultCode::from(1), ResultCode::FORMERR);
    assert_eq!(ResultCode::from(2), ResultCode::SERVFAIL);
    assert_eq!(ResultCode::from(3), ResultCode::NXDOMAIN);
    assert_eq!(ResultCode::from(4), ResultCode::NOTIMP);
    assert_eq!(ResultCode::from(5), ResultCode::REFUSED);
    assert_eq!(ResultCode::from(6), ResultCode::NOERROR);
    assert_eq!(ResultCode::from(15), ResultCode::NOERROR);
    assert_eq!(ResultCode::default(), ResultCode::NOERROR);
    let d = decode(&[0, 0, 0, 0x0F, 0, 0, 0, 0, 0, 0, 0, 0]);
    assert_eq!(d.rescode, ResultCode::NOERROR);
    let d = decode(&[0, 0, 0, 0x03, 0, 0, 0, 0, 0, 0, 0, 0]);
    assert_eq!(d.rescode, ResultCode::NXDOMAIN);
}

#[test]
fn result_codes_have_their_numbers() {
    let all = [
        ResultCode::NOERROR,
        ResultCode::FORMERR,
        ResultCode::SERVFAIL,
        ResultCode::NXDOMAIN,
        ResultCode::NOTIMP,
        ResultCode::REFUSED,
    ];
    for (n, code) in all.iter().enumerate() {
        assert_eq!(code.code() as usize, n);
        assert_eq!(ResultCode::from(code.code()), *code);
    }
}

#[test]
fn bytes_survive_decode_and_encode() {
    let bytes = [0xDE, 0xAD, 0xFF, 0xC5, 0xFF, 0xFE, 0, 1, 0x80, 0, 0x12, 0x34];
    assert_eq!(encode(&decode(&bytes)), bytes.to_vec());
}

#[test]
fn short_buffer_holds_no_header() {
    let mut buf = BytesMut::from(&[1u8; 11][..]);
    let mut h = DnsHeader::new();
    h.id = 9;
    assert!(!h.try_read_bytes(&mut buf));
    assert_eq!(h.id, 9);
    assert_eq!(buf.len(), 11);
    let mut buf = BytesMut::from(&[1u8; 12][..]);
    assert!(h.try_read_bytes(&mut buf));
    assert_eq!(h.id, 0x0101);
    assert!(buf.is_empty());
}
