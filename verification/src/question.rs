//! One entry of the question section: a name, a type and a class.
use crate::buffer::{be_u16, buffer_bytes, get_u16, put_u16, remaining, u16_be};
use crate::domain_name::{
    lemma_read_stop, name_wire, parse_name, read_stop, table_after_read, table_after_write, DomainName, LookupTable, TableView,
};
use bytes::BytesMut;
use vstd::prelude::*;

verus! {

/// The type a question asks for.
#[allow(clippy::upper_case_acronyms)]
#[derive(Debug, Clone, Copy, PartialEq, Eq, Structural)]
pub enum QueryType {
    /// A host address, code 1.
    A,
    /// Any other code.
    UNKNOWN(u16),
}

impl QueryType {
    /// The type that a code stands for.
    pub open spec fn spec_from_code(value: u16) -> QueryType {
        if value == 1 {
            QueryType::A
        } else {
            QueryType::UNKNOWN(value)
        }
    }

    /// The code of the type.
    pub open spec fn spec_code(self) -> u16 {
        match self {
            QueryType::A => 1,
            QueryType::UNKNOWN(n) => n,
        }
    }

    /// A code is read back from the type that it stands for.
    pub proof fn lemma_code_round_trip(value: u16)
        ensures
            Self::spec_from_code(value).spec_code() == value,
    {
    }
}

impl vstd::std_specs::convert::FromSpecImpl<u16> for QueryType {
    open spec fn obeys_from_spec() -> bool {
        true
    }

    open spec fn from_spec(value: u16) -> Self {
        Self::spec_from_code(value)
    }
}

impl From<u16> for QueryType {
    fn from(value: u16) -> (r: Self) {
        match value {
            1 => Self::A,
            n => Self::UNKNOWN(n),
        }
    }
}

impl vstd::std_specs::convert::FromSpecImpl<QueryType> for u16 {
    open spec fn obeys_from_spec() -> bool {
        true
    }

    open spec fn from_spec(value: QueryType) -> Self {
        value.spec_code()
    }
}

impl From<QueryType> for u16 {
    fn from(value: QueryType) -> (r: u16) {
        match value {
            QueryType::A => 1,
            QueryType::UNKNOWN(n) => n,
        }
    }
}

/// The class a question asks for.
#[allow(clippy::upper_case_acronyms)]
#[derive(Debug, Clone, Copy, PartialEq, Eq, Structural)]
pub enum QueryClass {
    /// The Internet, code 1.
    IN,
    /// CSNET, code 2.
    CS,
    /// CHAOS, code 3.
    CH,
    /// Hesiod, code 4.
    HS,
    /// Any class, code 255.
    ANY,
    /// Any other code.
    UNKNOWN(u16),
}

impl QueryClass {
    /// The class that a code stands for.
    pub open spec fn spec_from_code(value: u16) -> QueryClass {
        if value == 1 {
            QueryClass::IN
        } else if value == 2 {
            QueryClass::CS
        } else if value == 3 {
            QueryClass::CH
        } else if value == 4 {
            QueryClass::HS
        } else if value == 255 {
            QueryClass::ANY
        } else {
            QueryClass::UNKNOWN(value)
        }
    }

    /// The code of the class.
    pub open spec fn spec_code(self) -> u16 {
        match self {
            QueryClass::IN => 1,
            QueryClass::CS => 2,
            QueryClass::CH => 3,
            QueryClass::HS => 4,
            QueryClass::ANY => 255,
            QueryClass::UNKNOWN(n) => n,
        }
    }

    /// A code is read back from the class that it stands for.
    pub proof fn lemma_code_round_trip(value: u16)
        ensures
            Self::spec_from_code(value).spec_code() == value,
    {
    }
}

impl vstd::std_specs::convert::FromSpecImpl<u16> for QueryClass {
    open spec fn obeys_from_spec() -> bool {
        true
    }

    open spec fn from_spec(value: u16) -> Self {
        Self::spec_from_code(value)
    }
}

impl From<u16> for QueryClass {
    fn from(value: u16) -> (r: Self) {
        match value {
            1 => Self::IN,
            2 => Self::CS,
            3 => Self::CH,
            4 => Self::HS,
            255 => Self::ANY,
            n => Self::UNKNOWN(n),
        }
    }
}

impl vstd::std_specs::convert::FromSpecImpl<QueryClass> for u16 {
    open spec fn obeys_from_spec() -> bool {
        true
    }

    open spec fn from_spec(value: QueryClass) -> Self {
        value.spec_code()
    }
}

impl From<QueryClass> for u16 {
    fn from(value: QueryClass) -> (r: u16) {
        match value {
            QueryClass::IN => 1,
            QueryClass::CS => 2,
            QueryClass::CH => 3,
            QueryClass::HS => 4,
            QueryClass::ANY => 255,
            QueryClass::UNKNOWN(n) => n,
        }
    }
}

/// A question: the name asked about, and the type and class asked for.
#[derive(Debug, PartialEq, Eq)]
pub struct DnsQuestion {
    pub domain_name: DomainName,
    pub query_type: QueryType,
    pub class: QueryClass,
}

/// What a question holds.
pub struct QuestionView {
    pub name: Seq<u8>,
    pub query_type: QueryType,
    pub class: QueryClass,
}

impl View for DnsQuestion {
    type V = QuestionView;

    open spec fn view(&self) -> QuestionView {
        QuestionView { name: self.domain_name@, query_type: self.query_type, class: self.class }
    }
}

impl Clone for DnsQuestion {
    fn clone(&self) -> (r: Self)
        ensures
            r@ == self@,
    {
        DnsQuestion {
            domain_name: self.domain_name.clone(),
            query_type: self.query_type,
            class: self.class,
        }
    }
}

/// What reading a question gives: the question, the number of octets read,
/// and the table after it.
pub struct ParsedQuestion {
    pub question: QuestionView,
    pub used: int,
    pub table: TableView,
}

/// Reads a question from the front of `b`: a name, then type and class as
/// two big-endian words. There is no result where `b` holds no name or ends
/// before the two words do.
pub open spec fn parse_question(b: Seq<u8>, t: TableView) -> Option<ParsedQuestion> {
    match parse_name(b, t, Seq::<u8>::empty()) {
        None => None,
        Some(p) => if p.used + 4 > b.len() {
            None
        } else {
            Some(
                ParsedQuestion {
                    question: QuestionView {
                        name: p.name,
                        query_type: QueryType::spec_from_code(be_u16(b.skip(p.used))),
                        class: QueryClass::spec_from_code(be_u16(b.skip(p.used + 2))),
                    },
                    used: p.used + 4,
                    table: table_after_read(t, p).advanced(4),
                },
            )
        },
    }
}

/// The octets of a question on the wire: its name, then the codes of type
/// `A` and class `IN`, whatever type and class it holds.
pub open spec fn question_wire(name: Seq<u8>, t: TableView) -> Seq<u8> {
    name_wire(name, t) + u16_be(1) + u16_be(1)
}

/// The table after a question was written.
pub open spec fn table_after_question(name: Seq<u8>, t: TableView) -> TableView {
    table_after_write(name, t).advanced(4)
}

impl DnsQuestion {
    /// A question of the given parts.
    pub fn new(domain_name: DomainName, query_type: QueryType, class: QueryClass) -> (r: Self)
        ensures
            r.domain_name == domain_name,
            r.query_type == query_type,
            r.class == class,
    {
        Self { domain_name, query_type, class }
    }

    /// Reads a question off the front of `buf`, if the octets hold one. On
    /// failure `buf` is left where reading the name stopped, and the table
    /// as the name left it, or as it was where there is no name.
    pub fn try_from_bytes(buf: &mut BytesMut, lookup_table: &mut LookupTable) -> (r: Option<Self>)
        ensures
            r.is_some() == parse_question(buffer_bytes(*old(buf)), old(lookup_table)@).is_some(),
            r.is_some() ==> {
                let p = parse_question(buffer_bytes(*old(buf)), old(lookup_table)@).unwrap();
                &&& r.unwrap()@ == p.question
                &&& 0 <= p.used <= buffer_bytes(*old(buf)).len()
                &&& buffer_bytes(*final(buf)) == buffer_bytes(*old(buf)).skip(p.used)
                &&& final(lookup_table)@ == p.table
            },
            r.is_none() ==> {
                let b = buffer_bytes(*old(buf));
                let t = old(lookup_table)@;
                &&& buffer_bytes(*final(buf)) == b.skip(read_stop(b, 0, t, Seq::empty()).used)
                &&& final(lookup_table)@ == match parse_name(b, t, Seq::empty()) {
                    Some(p) => table_after_read(t, p),
                    None => t,
                }
            },
    {
        let ghost b = buffer_bytes(*buf);
        let domain_name = match DomainName::try_from_bytes(buf, lookup_table) {
            Some(domain_name) => domain_name,
            None => {
                return None;
            },
        };
        if remaining(buf) < 4 {
            proof {
                lemma_read_stop(b, 0, old(lookup_table)@, Seq::empty());
            }
            return None;
        }
        let query_type = QueryType::from(get_u16(buf));
        let class = QueryClass::from(get_u16(buf));
        lookup_table.advance(4);
        Some(Self::new(domain_name, query_type, class))
    }

    /// Reads a question off the front of `buf`. The octets must hold one.
    pub fn from_bytes(buf: &mut BytesMut, lookup_table: &mut LookupTable) -> (r: Self)
        requires
            parse_question(buffer_bytes(*old(buf)), old(lookup_table)@).is_some(),
        ensures
            ({
                let p = parse_question(buffer_bytes(*old(buf)), old(lookup_table)@).unwrap();
                &&& r@ == p.question
                &&& buffer_bytes(*final(buf)) == buffer_bytes(*old(buf)).skip(p.used)
                &&& final(lookup_table)@ == p.table
            }),
    {
        match Self::try_from_bytes(buf, lookup_table) {
            Some(question) => question,
            None => vstd::pervasive::unreached(),
        }
    }

    /// Appends the question to `buf`: its name, then the codes of type `A`
    /// and class `IN`. The type and class it holds are not written.
    pub fn write_bytes(&self, buf: &mut BytesMut, lookup_table: &mut LookupTable)
        ensures
            buffer_bytes(*final(buf)) == buffer_bytes(*old(buf)) + question_wire(
                self@.name,
                old(lookup_table)@,
            ),
            final(lookup_table)@ == table_after_question(self@.name, old(lookup_table)@),
    {
        self.domain_name.write_bytes(buf, lookup_table);
        put_u16(buf, u16::from(QueryType::A));
        put_u16(buf, u16::from(QueryClass::IN));
        lookup_table.advance(4);
    }
}

} // verus!
