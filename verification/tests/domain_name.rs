use bytes::BytesMut;
use dns_wire::domain_name::{DomainName, LookupTable};
use dns_wire::question::{DnsQuestion, QueryClass, QueryType};
use dns_wire::record::{DnsRecord, RecordClass, RecordType};

fn written(name: &str, table: &mut LookupTable) -> Vec<u8> {
    let mut buf = BytesMut::new();
    DomainName::from(name).write_bytes(&mut buf, table);
    buf.to_vec()
}

#[test]
fn name_is_its_octets() {
    assert_eq!(DomainName::new().as_octets(), b"");
    assert_eq!(DomainName::from("a.b.").as_octets(), b"a.b.");
    assert_eq!(DomainName::from(String::from("a.b.")), DomainName::from("a.b."));
    assert_eq!(DomainName::from_octets(b"x.y."), DomainName::from("x.y."));
    assert_eq!(DomainName::from("a.b.").clone(), DomainName::from("a.b."));
    assert_ne!(DomainName::from("a.b."), DomainName::from("a.b"));
}

#[test]
fn labels_are_written_with_their_lengths() {
    let mut table = LookupTable::new(12);
    assert_eq!(
        written("codecrafters.io.", &mut table),
        vec![12, b'c', b'o', b'd', b'e', b'c', b'r', b'a', b'f', b't', b'e', b'r', b's', 2, b'i', b'o', 0]
    );
    assert_eq!(table.position(), 29);
}

#[test]
fn root_is_a_single_zero() {
    let mut table = LookupTable::new(12);
    assert_eq!(written("", &mut table), vec![0]);
    assert_eq!(table.position(), 13);
    assert_eq!(written("", &mut table), vec![0]);
    assert_eq!(table.compress(&DomainName::new()), None);
}

#[test]
fn name_without_final_dot_is_written_like_its_canonical_form() {
    let mut table = LookupTable::new(12);
    assert_eq!(written("a.bc", &mut table), vec![1, b'a', 2, b'b', b'c', 0]);
    assert_eq!(table.compress(&DomainName::from("a.bc.")), Some(&12));
    assert_eq!(table.compress(&DomainName::from("a.bc")), None);
}

#[test]
fn labels_stop_at_the_first_empty_one() {
    let mut table = LookupTable::new(12);
    assert_eq!(written("a..b.", &mut table), vec![1, b'a', 0]);
    assert_eq!(table.decompress(12).map(|v| v.as_slice()), Some(&b"a."[..]));
    assert_eq!(table.decompress(14), None);
}

#[test]
fn long_label_keeps_low_bits_of_its_length() {
    let label = "x".repeat(300);
    let mut table = LookupTable::new(12);
    let bytes = written(&format!("{}.", label), &mut table);
    assert_eq!(bytes.len(), 302);
    assert_eq!(bytes[0], 44);
    assert_eq!(bytes[301], 0);
}

#[test]
fn known_name_is_written_as_pointer() {
    let mut table = LookupTable::new(12);
    written("mail.example.com.", &mut table);
    assert_eq!(table.position(), 12 + 18);
    assert_eq!(written("mail.example.com.", &mut table), vec![0xC0, 12]);
    assert_eq!(table.position(), 12 + 20);
    assert_eq!(written("example.com.", &mut table), vec![0xC0, 17]);
    assert_eq!(written("com.", &mut table), vec![0xC0, 25]);
    assert_eq!(
        written("www.example.com.", &mut table),
        vec![3, b'w', b'w', b'w', 7, b'e', b'x', b'a', b'm', b'p', b'l', b'e', 3, b'c', b'o', b'm', 0]
    );
}

#[test]
fn insert_registers_every_suffix() {
    let mut table = LookupTable::new(12);
    table.insert(&DomainName::from("mail.example.com."));
    assert_eq!(table.position(), 12);
    assert_eq!(table.compress(&DomainName::from("mail.example.com.")), Some(&12));
    assert_eq!(table.compress(&DomainName::from("example.com.")), Some(&17));
    assert_eq!(table.compress(&DomainName::from("com.")), Some(&25));
    assert_eq!(table.compress(&DomainName::from("ample.com.")), None);
    assert_eq!(table.compress(&DomainName::from("")), None);
    assert_eq!(
        table.decompress(12).map(|v| v.as_slice()),
        Some(&b"mail.example.com."[..])
    );
    assert_eq!(table.decompress(17).map(|v| v.as_slice()), Some(&b"example.com."[..]));
    assert_eq!(table.decompress(25).map(|v| v.as_slice()), Some(&b"com."[..]));
    assert_eq!(table.decompress(13), None);
    assert_eq!(table.decompress(29), None);
}

#[test]
fn first_entry_of_an_offset_and_of_a_suffix_stays() {
    let mut table = LookupTable::new(12);
    table.insert(&DomainName::from("a.com."));
    table.insert(&DomainName::from("b.org."));
    assert_eq!(table.decompress(12).map(|v| v.as_slice()), Some(&b"a.com."[..]));
    assert_eq!(table.decompress(14).map(|v| v.as_slice()), Some(&b"com."[..]));
    assert_eq!(table.compress(&DomainName::from("b.org.")), None);
    table.advance(20);
    table.insert(&DomainName::from("b.com."));
    assert_eq!(table.compress(&DomainName::from("b.com.")), Some(&32));
    assert_eq!(table.compress(&DomainName::from("com.")), Some(&14));
    assert_eq!(table.decompress(34).map(|v| v.as_slice()), Some(&b"com."[..]));
}

#[test]
fn offsets_past_the_pointer_range_are_not_registered() {
    let mut table = LookupTable::new(0x3FFF);
    table.insert(&DomainName::from("a.com."));
    assert_eq!(table.compress(&DomainName::from("a.com.")), Some(&0x3FFF));
    assert_eq!(table.compress(&DomainName::from("com.")), None);
    assert_eq!(table.decompress(0x4001), None);
}

#[test]
fn position_stops_at_its_largest_value() {
    let mut table = LookupTable::new(65000);
    table.advance(535);
    assert_eq!(table.position(), 65535);
    table.advance(1);
    assert_eq!(table.position(), 65535);
    table.advance(usize::MAX);
    assert_eq!(table.position(), 65535);
}

#[test]
fn name_is_read_and_registered() {
    let mut buf = BytesMut::from(&[1u8, b'a', 3, b'c', b'o', b'm', 0, 7, 7][..]);
    let mut table = LookupTable::new(12);
    let name = DomainName::from_bytes(&mut buf, &mut table);
    assert_eq!(name, DomainName::from("a.com."));
    assert_eq!(buf.to_vec(), vec![7, 7]);
    assert_eq!(table.position(), 19);
    assert_eq!(table.compress(&name), Some(&12));
    assert_eq!(table.decompress(14).map(|v| v.as_slice()), Some(&b"com."[..]));
}

#[test]
fn pointer_ends_a_name_and_registers_nothing() {
    let mut table = LookupTable::new(12);
    table.insert(&DomainName::from("a.com."));
    table.advance(7);
    let mut buf = BytesMut::from(&[2u8, b'b', b'b', 0xC0, 14, 1, b'z', 0][..]);
    let name = DomainName::try_from_bytes(&mut buf, &mut table).unwrap();
    assert_eq!(name, DomainName::from("bb.com."));
    assert_eq!(buf.to_vec(), vec![1, b'z', 0]);
    assert_eq!(table.position(), 24);
    assert_eq!(table.compress(&name), None);
    assert_eq!(table.decompress(19), None);
}

#[test]
fn read_appends_to_what_the_name_holds() {
    let mut buf = BytesMut::from(&[1u8, b'b', 0][..]);
    let mut table = LookupTable::new(12);
    let mut name = DomainName::from("a.");
    name.read_bytes(&mut buf, &mut table);
    assert_eq!(name, DomainName::from("a.b."));
    assert_eq!(table.compress(&DomainName::from("a.b.")), Some(&12));
}

#[test]
fn length_with_one_high_bit_is_a_label() {
    let mut bytes: Vec<u8> = vec![0x40];
    bytes.extend_from_slice(&[b'x'; 64]);
    bytes.push(0);
    let mut buf = BytesMut::from(&bytes[..]);
    let mut table = LookupTable::new(12);
    let name = DomainName::try_from_bytes(&mut buf, &mut table).unwrap();
    assert_eq!(name.as_octets().len(), 65);
    assert!(buf.is_empty());
}

#[test]
fn reading_fails_where_octets_run_out() {
    for bytes in [&[][..], &[1][..], &[2, b'a'][..], &[1, b'a'][..], &[0xC0][..]] {
        let mut buf = BytesMut::from(bytes);
        let mut table = LookupTable::new(12);
        let mut name = DomainName::new();
        assert!(!name.try_read_bytes(&mut buf, &mut table));
        assert_eq!(table.position(), 12);
    }
}

#[test]
fn reading_fails_on_unknown_pointer() {
    let mut buf = BytesMut::from(&[0xC0u8, 12][..]);
    let mut table = LookupTable::new(12);
    assert_eq!(DomainName::try_from_bytes(&mut buf, &mut table), None);
    let mut buf = BytesMut::from(&[0xFFu8, 0xFF][..]);
    assert_eq!(DomainName::try_from_bytes(&mut buf, &mut table), None);
}

#[test]
fn question_is_read_and_written() {
    let mut buf = BytesMut::from(&[1u8, b'a', 0, 0, 1, 0, 3, 9][..]);
    let mut table = LookupTable::new(12);
    let q = DnsQuestion::from_bytes(&mut buf, &mut table);
    assert_eq!(q, DnsQuestion::new(DomainName::from("a."), QueryType::A, QueryClass::CH));
    assert_eq!(buf.to_vec(), vec![9]);
    assert_eq!(table.position(), 19);
    assert_eq!(q.clone(), q);

    let mut out = BytesMut::new();
    q.write_bytes(&mut out, &mut table);
    assert_eq!(out.to_vec(), vec![0xC0, 12, 0, 1, 0, 1]);
    assert_eq!(table.position(), 25);

    let mut short = BytesMut::from(&[1u8, b'a', 0, 0, 1, 0][..]);
    let mut table = LookupTable::new(12);
    assert_eq!(DnsQuestion::try_from_bytes(&mut short, &mut table), None);
}

#[test]
fn record_is_read_and_written() {
    let bytes = [1u8, b'a', 0, 0, 1, 0, 1, 0, 1, 0x51, 0x80, 0, 4, 192, 168, 0, 1, 9];
    let mut buf = BytesMut::from(&bytes[..]);
    let mut table = LookupTable::new(12);
    let r = DnsRecord::from_bytes(&mut buf, &mut table);
    assert_eq!(
        r,
        DnsRecord::new(DomainName::from("a."), RecordType::A, RecordClass::IN, 86400, [192, 168, 0, 1])
    );
    assert_eq!(r.length, 4);
    assert_eq!(buf.to_vec(), vec![9]);
    assert_eq!(table.position(), 29);
    assert_eq!(r.clone(), r);

    let mut out = BytesMut::new();
    let mut table = LookupTable::new(12);
    r.write_bytes(&mut out, &mut table);
    assert_eq!(out.to_vec(), bytes[..17].to_vec());
    assert_eq!(table.position(), 29);

    let mut short = BytesMut::from(&bytes[..16]);
    let mut table = LookupTable::new(12);
    assert_eq!(DnsRecord::try_from_bytes(&mut short, &mut table), None);
}

#[test]
fn codes_and_variants_correspond() {
    assert_eq!(QueryType::from(1), QueryType::A);
    assert_eq!(QueryType::from(28), QueryType::UNKNOWN(28));
    assert_eq!(u16::from(QueryType::A), 1);
    assert_eq!(u16::from(QueryType::UNKNOWN(28)), 28);
    assert_eq!(RecordType::from(1), RecordType::A);
    assert_eq!(RecordType::from(0), RecordType::UNKNOWN(0));
    assert_eq!(u16::from(RecordType::A), 1);
    assert_eq!(u16::from(RecordType::UNKNOWN(16)), 16);
    let classes = [
        (1, QueryClass::IN),
        (2, QueryClass::CS),
        (3, QueryClass::CH),
        (4, QueryClass::HS),
        (255, QueryClass::ANY),
        (0, QueryClass::UNKNOWN(0)),
        (254, QueryClass::UNKNOWN(254)),
    ];
    for (code, class) in classes {
        assert_eq!(QueryClass::from(code), class);
        assert_eq!(u16::from(class), code);
    }
    let classes = [
        (1, RecordClass::IN),
        (2, RecordClass::CS),
        (3, RecordClass::CH),
        (4, RecordClass::HS),
        (255, RecordClass::UNKNOWN(255)),
        (5, RecordClass::UNKNOWN(5)),
    ];
    for (code, class) in classes {
        assert_eq!(RecordClass::from(code), class);
        assert_eq!(u16::from(class), code);
    }
}
