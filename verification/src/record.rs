//! One resource record of the answer section. Only host-address records are
//! handled: the data of a record is the four octets of an IPv4 address.
use crate::buffer::{
    be_u16, be_u32, buffer_bytes, get_u16, get_u32, get_u8, put, put_u16, put_u32, remaining,
    u16_be, u32_be,
};
use crate::domain_name::{
    lemma_read_stop, name_wire, parse_name, read_stop, table_after_read, table_after_write, DomainName, LookupTable, TableView,
};
use bytes::BytesMut;
use vstd::prelude::*;

verus! {

/// Length of the data of a host-address record.
pub const ADDRESS_LENGTH: u16 = 4;

/// The type of a record.
#[allow(clippy::upper_case_acronyms)]
#[derive(Debug, Clone, Copy, PartialEq, Eq, Structural)]
pub enum RecordType {
    /// A host address, code 1.
    A,
    /// Any other code.
    UNKNOWN(u16),
}

impl RecordType {
    /// The type that a code stands for.
    pub open spec fn spec_from_code(value: u16) -> RecordType {
        if value == 1 {
            RecordType::A
        } else {
            RecordType::UNKNOWN(value)
        }
    }

    /// The code of the type.
    pub open spec fn spec_code(self) -> u16 {
        match self {
            RecordType::A => 1,
            RecordType::UNKNOWN(n) => n,
        }
    }

    /// A code is read back from the type that it stands for.
    pub proof fn lemma_code_round_trip(value: u16)
        ensures
            Self::spec_from_code(value).spec_code() == value,
    {
    }
}

impl vstd::std_specs::convert::FromSpecImpl<u16> for RecordType {
    open spec fn obeys_from_spec() -> bool {
        true
    }

    open spec fn from_spec(value: u16) -> Self {
        Self::spec_from_code(value)
    }
}

impl From<u16> for RecordType {
    fn from(value: u16) -> (r: Self) {
        match value {
            1 => Self::A,
            n => Self::UNKNOWN(n),
        }
    }
}

impl vstd::std_specs::convert::FromSpecImpl<RecordType> for u16 {
    open spec fn obeys_from_spec() -> bool {
        true
    }

    open spec fn from_spec(value: RecordType) -> Self {
        value.spec_code()
    }
}

impl From<RecordType> for u16 {
    fn from(value: RecordType) -> (r: u16) {
        match value {
            RecordType::A => 1,
            RecordType::UNKNOWN(n) => n,
        }
    }
}

/// The class of a record.
#[allow(clippy::upper_case_acronyms)]
#[derive(Debug, Clone, Copy, PartialEq, Eq, Structural)]
pub enum RecordClass {
    /// The Internet, code 1.
    IN,
    /// CSNET, code 2.
    CS,
    /// CHAOS, code 3.
    CH,
    /// Hesiod, code 4.
    HS,
    /// Any other code.
    UNKNOWN(u16),
}

impl RecordClass {
    /// The class that a code stands for.
    pub open spec fn spec_from_code(value: u16) -> RecordClass {
        if value == 1 {
            RecordClass::IN
        } else if value == 2 {
            RecordClass::CS
        } else if value == 3 {
            RecordClass::CH
        } else if value == 4 {
            RecordClass::HS
        } else {
            RecordClass::UNKNOWN(value)
        }
    }

    /// The code of the class.
    pub open spec fn spec_code(self) -> u16 {
        match self {
            RecordClass::IN => 1,
            RecordClass::CS => 2,
            RecordClass::CH => 3,
            RecordClass::HS => 4,
            RecordClass::UNKNOWN(n) => n,
        }
    }

    /// A code is read back from the class that it stands for.
    pub proof fn lemma_code_round_trip(value: u16)
        ensures
            Self::spec_from_code(value).spec_code() == value,
    {
    }
}

impl vstd::std_specs::convert::FromSpecImpl<u16> for RecordClass {
    open spec fn obeys_from_spec() -> bool {
        true
    }

    open spec fn from_spec(value: u16) -> Self {
        Self::spec_from_code(value)
    }
}

impl From<u16> for RecordClass {
    fn from(value: u16) -> (r: Self) {
        match value {
            1 => Self::IN,
            2 => Self::CS,
            3 => Self::CH,
            4 => Self::HS,
            n => Self::UNKNOWN(n),
        }
    }
}

impl vstd::std_specs::convert::FromSpecImpl<RecordClass> for u16 {
    open spec fn obeys_from_spec() -> bool {
        true
    }

    open spec fn from_spec(value: RecordClass) -> Self {
        value.spec_code()
    }
}

impl From<RecordClass> for u16 {
    fn from(value: RecordClass) -> (r: u16) {
        match value {
            RecordClass::IN => 1,
            RecordClass::CS => 2,
            RecordClass::CH => 3,
            RecordClass::HS => 4,
            RecordClass::UNKNOWN(n) => n,
        }
    }
}

/// A resource record: the name it belongs to, its type and class, the
/// seconds it may be cached, and the four octets of its address.
#[derive(Debug, PartialEq, Eq)]
pub struct DnsRecord {
    pub domain_name: DomainName,
    pub record_type: RecordType,
    pub class: RecordClass,
    pub ttl: u32,
    pub length: u16,
    pub data: [u8; 4],
}

/// What a record holds.
pub struct RecordView {
    pub name: Seq<u8>,
    pub record_type: RecordType,
    pub class: RecordClass,
    pub ttl: u32,
    pub length: u16,
    pub data: Seq<u8>,
}

impl View for DnsRecord {
    type V = RecordView;

    open spec fn view(&self) -> RecordView {
        RecordView {
            name: self.domain_name@,
            record_type: self.record_type,
            class: self.class,
            ttl: self.ttl,
            length: self.length,
            data: self.data@,
        }
    }
}

impl Clone for DnsRecord {
    fn clone(&self) -> (r: Self)
        ensures
            r@ == self@,
    {
        DnsRecord {
            domain_name: self.domain_name.clone(),
            record_type: self.record_type,
            class: self.class,
            ttl: self.ttl,
            length: self.length,
            data: self.data,
        }
    }
}

/// What reading a record gives: the record, the number of octets read, and
/// the table after it.
pub struct ParsedRecord {
    pub record: RecordView,
    pub used: int,
    pub table: TableView,
}

/// Reads a record from the front of `b`: a name, type and class as two
/// big-endian words, the time to live as four octets, a length word that is
/// passed over, and four octets of address. The record's own length is 4.
/// There is no result where `b` holds no name or ends before the fourteen
/// octets after it do.
pub open spec fn parse_record(b: Seq<u8>, t: TableView) -> Option<ParsedRecord> {
    match parse_name(b, t, Seq::<u8>::empty()) {
        None => None,
        Some(p) => if p.used + 14 > b.len() {
            None
        } else {
            Some(
                ParsedRecord {
                    record: RecordView {
                        name: p.name,
                        record_type: RecordType::spec_from_code(be_u16(b.skip(p.used))),
                        class: RecordClass::spec_from_code(be_u16(b.skip(p.used + 2))),
                        ttl: be_u32(b.skip(p.used + 4)),
                        length: ADDRESS_LENGTH,
                        data: b.subrange(p.used + 10, p.used + 14),
                    },
                    used: p.used + 14,
                    table: table_after_read(t, p).advanced(14),
                },
            )
        },
    }
}

/// The octets of a record on the wire: its name, the codes of type `A` and
/// class `IN` whatever type and class it holds, its time to live, the length
/// 4 whatever length it holds, and its address.
pub open spec fn record_wire(r: RecordView, t: TableView) -> Seq<u8> {
    name_wire(r.name, t) + u16_be(1) + u16_be(1) + u32_be(r.ttl) + u16_be(ADDRESS_LENGTH) + r.data
}

/// The table after a record was written.
pub open spec fn table_after_record(name: Seq<u8>, t: TableView) -> TableView {
    table_after_write(name, t).advanced(14)
}

impl DnsRecord {
    /// A record of the given parts, its length that of an address.
    pub fn new(
        domain_name: DomainName,
        record_type: RecordType,
        class: RecordClass,
        ttl: u32,
        data: [u8; 4],
    ) -> (r: Self)
        ensures
            r.domain_name == domain_name,
            r.record_type == record_type,
            r.class == class,
            r.ttl == ttl,
            r.length == ADDRESS_LENGTH,
            r.data == data,
    {
        Self { domain_name, record_type, class, ttl, length: ADDRESS_LENGTH, data }
    }

    /// Reads a record off the front of `buf`, if the octets hold one. On
    /// failure `buf` is left where reading the name stopped, and the table
    /// as the name left it, or as it was where there is no name.
    pub fn try_from_bytes(buf: &mut BytesMut, lookup_table: &mut LookupTable) -> (r: Option<Self>)
        ensures
            r.is_some() == parse_record(buffer_bytes(*old(buf)), old(lookup_table)@).is_some(),
            r.is_some() ==> {
                let p = parse_record(buffer_bytes(*old(buf)), old(lookup_table)@).unwrap();
                &&& r.unwrap()@ == p.record
                &&& 0 <= p.used <= buffer_bytes(*old(buf)).len()
                &&& buffer_bytes(*final(buf)) == buffer_bytes(*old(buf)).skip(p.used)
                &&& final(lookup_table)@ == p.table
            },
            r.is_none() ==> {
                let b = buffer_bytes(*old(buf));
                let t = old(lookup_table)@;
                &&& buffer_bytes(*final(buf)) == b.skip(read_stop(b, 0, t, Seq::empty()).used)
                &&& final(lookup_table)@ == match parse_name(b, t, Seq::empty()) {
                    Some(p) => table_after_read(t, p),
                    None => t,
                }
            },
    {
        let ghost b = buffer_bytes(*buf);
        let domain_name = match DomainName::try_from_bytes(buf, lookup_table) {
            Some(domain_name) => domain_name,
            None => {
                return None;
            },
        };
        if remaining(buf) < 14 {
            proof {
                lemma_read_stop(b, 0, old(lookup_table)@, Seq::empty());
            }
            return None;
        }
        let ghost used = parse_name(b, old(lookup_table)@, Seq::<u8>::empty()).unwrap().used;
        let record_type = RecordType::from(get_u16(buf));
        let class = RecordClass::from(get_u16(buf));
        let ttl: u32 = get_u32(buf);
        let _length: u16 = get_u16(buf);
        let d0: u8 = get_u8(buf);
        let d1: u8 = get_u8(buf);
        let d2: u8 = get_u8(buf);
        let d3: u8 = get_u8(buf);
        let data: [u8; 4] = [d0, d1, d2, d3];
        assert(data@ =~= b.subrange(used + 10, used + 14));
        lookup_table.advance(14);
        Some(Self::new(domain_name, record_type, class, ttl, data))
    }

    /// Reads a record off the front of `buf`. The octets must hold one.
    pub fn from_bytes(buf: &mut BytesMut, lookup_table: &mut LookupTable) -> (r: Self)
        requires
            parse_record(buffer_bytes(*old(buf)), old(lookup_table)@).is_some(),
        ensures
            ({
                let p = parse_record(buffer_bytes(*old(buf)), old(lookup_table)@).unwrap();
                &&& r@ == p.record
                &&& buffer_bytes(*final(buf)) == buffer_bytes(*old(buf)).skip(p.used)
                &&& final(lookup_table)@ == p.table
            }),
    {
        match Self::try_from_bytes(buf, lookup_table) {
            Some(record) => record,
            None => vstd::pervasive::unreached(),
        }
    }

    /// Appends the record to `buf`: its name, the codes of type `A` and
    /// class `IN`, its time to live, the length 4 and its address. The type,
    /// class and length it holds are not written.
    pub fn write_bytes(&self, buf: &mut BytesMut, lookup_table: &mut LookupTable)
        ensures
            buffer_bytes(*final(buf)) == buffer_bytes(*old(buf)) + record_wire(
                self@,
                old(lookup_table)@,
            ),
            final(lookup_table)@ == table_after_record(self@.name, old(lookup_table)@),
    {
        self.domain_name.write_bytes(buf, lookup_table);
        put_u16(buf, u16::from(RecordType::A));
        put_u16(buf, u16::from(RecordClass::IN));
        put_u32(buf, self.ttl);
        put_u16(buf, ADDRESS_LENGTH);
        put(buf, self.data.as_slice());
        lookup_table.advance(14);
    }
}

} // verus!
