use dns_wire::domain_name::DomainName;
use dns_wire::header::{DnsHeader, ResultCode};
use dns_wire::packet::{BytesPacket, DnsPacket};
use dns_wire::question::{DnsQuestion, QueryClass, QueryType};
use dns_wire::record::{DnsRecord, RecordClass, RecordType};

fn packet_of(bytes: &[u8]) -> BytesPacket {
    let mut bp = BytesPacket::new();
    bp.buf.extend_from_slice(bytes);
    bp
}

fn question(name: &str) -> DnsQuestion {
    DnsQuestion::new(DomainName::from(name), QueryType::A, QueryClass::IN)
}

fn answer(name: &str, ttl: u32, data: [u8; 4]) -> DnsRecord {
    DnsRecord::new(DomainName::from(name), RecordType::A, RecordClass::IN, ttl, data)
}

const NAME: [u8; 17] = [
    12, b'c', b'o', b'd', b'e', b'c', b'r', b'a', b'f', b't', b'e', b'r', b's', 2, b'i', b'o', 0,
];

#[test]
fn test_dns_packet_to_bytes_packet_and_back() {
    let mut dns_packet = DnsPacket::new();
    dns_packet.header.id = 1234;
    dns_packet.header.response = true;
    dns_packet.header.truncated_message = true;
    dns_packet.header.recursion_available = true;
    dns_packet.header.rescode = ResultCode::SERVFAIL;

    dns_packet.header.question_entries = 1;
    let domain_name = DomainName::from("codecrafters.io.");
    let dns_question = DnsQuestion::new(domain_name, QueryType::A, QueryClass::IN);
    dns_packet.questions.push(dns_question);

    dns_packet.header.answer_entries = 1;
    let domain_name = DomainName::from("codecrafters.io.");
    let dns_answer = DnsRecord::new(
        domain_name,
        RecordType::A,
        RecordClass::IN,
        3600,
        [127, 0, 0, 1],
    );
    dns_packet.answers.push(dns_answer);

    let bytes_packet = BytesPacket::from(dns_packet.clone());

    let parsed_dns_packet = DnsPacket::from(bytes_packet);

    assert_eq!(dns_packet, parsed_dns_packet);
}

#[test]
fn new_packet_is_empty() {
    let packet = DnsPacket::new();
    assert_eq!(packet.header, DnsHeader::new());
    assert!(packet.questions.is_empty());
    assert!(packet.answers.is_empty());
    assert!(BytesPacket::new().buf.is_empty());
}

#[test]
fn encode_gives_exact_bytes() {
    let mut packet = DnsPacket::new();
    packet.header.id = 1234;
    packet.header.response = true;
    packet.header.question_entries = 1;
    packet.header.answer_entries = 1;
    packet.questions.push(question("codecrafters.io."));
    packet.answers.push(answer("codecrafters.io.", 3600, [127, 0, 0, 1]));

    let mut expected: Vec<u8> = vec![0x04, 0xD2, 0x80, 0x00, 0, 1, 0, 1, 0, 0, 0, 0];
    expected.extend_from_slice(&NAME);
    expected.extend_from_slice(&[0, 1, 0, 1]);
    expected.extend_from_slice(&[0xC0, 0x0C]);
    expected.extend_from_slice(&[0, 1, 0, 1, 0, 0, 0x0E, 0x10, 0, 4, 127, 0, 0, 1]);

    let bytes = BytesPacket::from(packet);
    assert_eq!(bytes.buf.to_vec(), expected);
}

#[test]
fn second_identical_name_becomes_pointer_to_first() {
    let mut packet = DnsPacket::new();
    packet.header.question_entries = 2;
    packet.questions.push(question("a.com."));
    packet.questions.push(question("a.com."));
    let bytes = BytesPacket::from(packet.clone()).buf.to_vec();
    assert_eq!(&bytes[12..23], &[1, b'a', 3, b'c', b'o', b'm', 0, 0, 1, 0, 1]);
    assert_eq!(&bytes[23..], &[0xC0, 12, 0, 1, 0, 1]);

    let decoded = DnsPacket::from(packet_of(&bytes));
    assert_eq!(decoded.questions[0].domain_name, decoded.questions[1].domain_name);
    assert_eq!(decoded, packet);
}

#[test]
fn later_name_points_at_its_own_first_occurrence() {
    let mut packet = DnsPacket::new();
    packet.header.question_entries = 4;
    packet.questions.push(question("a.com."));
    packet.questions.push(question("bb.org."));
    packet.questions.push(question("bb.org."));
    packet.questions.push(question("com."));
    let bytes = BytesPacket::from(packet.clone()).buf.to_vec();
    // "a.com." at 12, "com." at 14, "bb.org." at 23, "org." at 26.
    assert_eq!(&bytes[23..35], &[2, b'b', b'b', 3, b'o', b'r', b'g', 0, 0, 1, 0, 1]);
    assert_eq!(&bytes[35..41], &[0xC0, 23, 0, 1, 0, 1]);
    assert_eq!(&bytes[41..47], &[0xC0, 14, 0, 1, 0, 1]);
    assert_eq!(bytes.len(), 47);
    assert_eq!(DnsPacket::from(packet_of(&bytes)), packet);
}

#[test]
fn suffix_of_earlier_name_becomes_pointer() {
    let mut packet = DnsPacket::new();
    packet.header.question_entries = 2;
    packet.questions.push(question("mail.example.com."));
    packet.questions.push(question("example.com."));
    let bytes = BytesPacket::from(packet.clone()).buf.to_vec();
    // "mail.example.com." starts at 12, so "example.com." starts at 17.
    assert_eq!(&bytes[bytes.len() - 6..], &[0xC0, 17, 0, 1, 0, 1]);
    assert_eq!(DnsPacket::from(packet_of(&bytes)), packet);
}

#[test]
fn encode_reads_only_the_counted_entries() {
    let mut counted = DnsPacket::new();
    counted.header.question_entries = 1;
    counted.header.answer_entries = 1;
    counted.questions.push(question("a.com."));
    counted.answers.push(answer("a.com.", 5, [1, 2, 3, 4]));

    let mut longer = counted.clone();
    longer.questions.push(question("b.org."));
    longer.answers.push(answer("b.org.", 6, [5, 6, 7, 8]));

    let short_bytes = BytesPacket::from(counted).buf.to_vec();
    let long_bytes = BytesPacket::from(longer).buf.to_vec();
    assert_eq!(short_bytes, long_bytes);
    assert_eq!(short_bytes.len(), 12 + 11 + 16);
}

#[test]
fn encode_writes_type_a_class_in_and_length_four() {
    let mut packet = DnsPacket::new();
    packet.header.question_entries = 1;
    packet.header.answer_entries = 1;
    packet.questions.push(DnsQuestion::new(
        DomainName::from("a."),
        QueryType::UNKNOWN(28),
        QueryClass::CH,
    ));
    let mut record = DnsRecord::new(
        DomainName::from("b."),
        RecordType::UNKNOWN(5),
        RecordClass::HS,
        0x01020304,
        [9, 8, 7, 6],
    );
    record.length = 77;
    packet.answers.push(record);
    let bytes = BytesPacket::from(packet).buf.to_vec();
    assert_eq!(&bytes[12..19], &[1, b'a', 0, 0, 1, 0, 1]);
    assert_eq!(&bytes[19..], &[1, b'b', 0, 0, 1, 0, 1, 1, 2, 3, 4, 0, 4, 9, 8, 7, 6]);
}

#[test]
fn decode_keeps_unknown_codes_and_passes_over_length() {
    let mut bytes: Vec<u8> = vec![0, 7, 0, 0, 0, 1, 0, 1, 0, 0, 0, 0];
    bytes.extend_from_slice(&[1, b'a', 0, 0, 28, 0, 255]);
    bytes.extend_from_slice(&[0xC0, 12, 0, 5, 0, 9, 0, 0, 0, 60, 0, 16, 10, 0, 0, 1]);
    bytes.extend_from_slice(&[0, 0, 0]);
    let packet = DnsPacket::try_from(packet_of(&bytes)).unwrap();
    assert_eq!(packet.header.id, 7);
    assert_eq!(packet.questions.len(), 1);
    assert_eq!(packet.questions[0].domain_name, DomainName::from("a."));
    assert_eq!(packet.questions[0].query_type, QueryType::UNKNOWN(28));
    assert_eq!(packet.questions[0].class, QueryClass::ANY);
    assert_eq!(packet.answers.len(), 1);
    assert_eq!(packet.answers[0].domain_name, DomainName::from("a."));
    assert_eq!(packet.answers[0].record_type, RecordType::UNKNOWN(5));
    assert_eq!(packet.answers[0].class, RecordClass::UNKNOWN(9));
    assert_eq!(packet.answers[0].ttl, 60);
    assert_eq!(packet.answers[0].length, 4);
    assert_eq!(packet.answers[0].data, [10, 0, 0, 1]);
}

#[test]
fn decode_resolves_pointer_to_a_suffix() {
    let mut bytes: Vec<u8> = vec![0, 0, 0, 0, 0, 2, 0, 0, 0, 0, 0, 0];
    bytes.extend_from_slice(&[1, b'a', 3, b'c', b'o', b'm', 0, 0, 1, 0, 1]);
    bytes.extend_from_slice(&[1, b'b', 0xC0, 14, 0, 1, 0, 1]);
    let packet = DnsPacket::from(packet_of(&bytes));
    assert_eq!(packet.questions[0].domain_name, DomainName::from("a.com."));
    assert_eq!(packet.questions[1].domain_name, DomainName::from("b.com."));
}

#[test]
fn decode_fails_on_short_header() {
    assert_eq!(DnsPacket::try_from(packet_of(&[0; 11])), None);
    assert!(DnsPacket::try_from(packet_of(&[0; 12])).is_some());
}

#[test]
fn decode_fails_on_missing_entry() {
    let mut bytes: Vec<u8> = vec![0, 0, 0, 0, 0, 1, 0, 0, 0, 0, 0, 0];
    assert_eq!(DnsPacket::try_from(packet_of(&bytes)), None);
    bytes.extend_from_slice(&[1, b'a', 0, 0, 1, 0]);
    assert_eq!(DnsPacket::try_from(packet_of(&bytes)), None);
    bytes.push(1);
    assert!(DnsPacket::try_from(packet_of(&bytes)).is_some());
}

#[test]
fn decode_fails_on_short_record() {
    let mut bytes: Vec<u8> = vec![0, 0, 0, 0, 0, 0, 0, 1, 0, 0, 0, 0];
    bytes.extend_from_slice(&[0, 0, 1, 0, 1, 0, 0, 0, 1, 0, 4, 1, 2, 3]);
    assert_eq!(DnsPacket::try_from(packet_of(&bytes)), None);
    bytes.push(4);
    let packet = DnsPacket::try_from(packet_of(&bytes)).unwrap();
    assert_eq!(packet.answers[0].domain_name, DomainName::new());
    assert_eq!(packet.answers[0].data, [1, 2, 3, 4]);
}

#[test]
fn decode_fails_on_pointer_to_unknown_offset() {
    let mut bytes: Vec<u8> = vec![0, 0, 0, 0, 0, 1, 0, 0, 0, 0, 0, 0];
    bytes.extend_from_slice(&[0xC0, 12, 0, 1, 0, 1]);
    assert_eq!(DnsPacket::try_from(packet_of(&bytes)), None);
}

#[test]
fn datagram_padded_with_zeros_decodes() {
    let mut bytes: Vec<u8> = vec![0x12, 0x34, 0x01, 0x00, 0, 1, 0, 0, 0, 0, 0, 0];
    bytes.extend_from_slice(&NAME);
    bytes.extend_from_slice(&[0, 1, 0, 1]);
    bytes.resize(512, 0);
    let packet = DnsPacket::from(packet_of(&bytes));
    assert_eq!(packet.header.id, 0x1234);
    assert!(packet.header.recursion_desired);
    assert_eq!(packet.questions, vec![question("codecrafters.io.")]);
    assert!(packet.answers.is_empty());
}
