//! A whole message: the header, then as many questions and answer records
//! as the header counts. One lookup table, started behind the header, is
//! shared by every name of the message.
use crate::buffer::{buffer_bytes, with_capacity};
use crate::domain_name::{LookupTable, TableView};
use crate::header::{DnsHeader, HEADER_LENGTH};
use crate::question::{
    parse_question, question_wire, table_after_question, DnsQuestion, QuestionView,
};
use crate::record::{parse_record, record_wire, table_after_record, DnsRecord, RecordView};
use bytes::BytesMut;
use vstd::prelude::*;

verus! {

/// Capacity a fresh packet buffer is made with: the size of a datagram.
pub const PACKET_CAPACITY: usize = 512;

/// A message in structured form.
#[derive(Debug, PartialEq, Eq)]
pub struct DnsPacket {
    pub header: DnsHeader,
    pub questions: Vec<DnsQuestion>,
    pub answers: Vec<DnsRecord>,
}

/// What a message holds.
pub struct PacketView {
    pub header: DnsHeader,
    pub questions: Seq<QuestionView>,
    pub answers: Seq<RecordView>,
}

/// What a list of questions holds.
pub open spec fn questions_view(questions: Seq<DnsQuestion>) -> Seq<QuestionView> {
    Seq::new(questions.len(), |i: int| questions[i]@)
}

/// What a list of records holds.
pub open spec fn records_view(records: Seq<DnsRecord>) -> Seq<RecordView> {
    Seq::new(records.len(), |i: int| records[i]@)
}

impl View for DnsPacket {
    type V = PacketView;

    open spec fn view(&self) -> PacketView {
        PacketView {
            header: self.header,
            questions: questions_view(self.questions@),
            answers: records_view(self.answers@),
        }
    }
}

/// A stretch of the wire with the table after it.
pub struct Written {
    pub bytes: Seq<u8>,
    pub table: TableView,
}

/// The first `count` of `questions` on the wire, one after the other, the
/// table starting at `t`.
pub open spec fn questions_wire(questions: Seq<QuestionView>, count: int, t: TableView) -> Written
    decreases count,
{
    if count <= 0 {
        Written { bytes: Seq::<u8>::empty(), table: t }
    } else {
        let before = questions_wire(questions, count - 1, t);
        Written {
            bytes: before.bytes + question_wire(questions[count - 1].name, before.table),
            table: table_after_question(questions[count - 1].name, before.table),
        }
    }
}

/// The first `count` of `records` on the wire, one after the other, the
/// table starting at `t`.
pub open spec fn records_wire(records: Seq<RecordView>, count: int, t: TableView) -> Written
    decreases count,
{
    if count <= 0 {
        Written { bytes: Seq::<u8>::empty(), table: t }
    } else {
        let before = records_wire(records, count - 1, t);
        Written {
            bytes: before.bytes + record_wire(records[count - 1], before.table),
            table: table_after_record(records[count - 1].name, before.table),
        }
    }
}

/// The message on the wire: the header, then as many questions and as many
/// answers as the header counts, the table starting behind the header.
pub open spec fn packet_wire(p: PacketView) -> Seq<u8> {
    let questions = questions_wire(
        p.questions,
        p.header.question_entries as int,
        TableView::empty(HEADER_LENGTH),
    );
    let answers = records_wire(p.answers, p.header.answer_entries as int, questions.table);
    p.header.wire() + questions.bytes + answers.bytes
}

/// Questions read, with the number of octets read and the table after them.
pub struct ParsedQuestions {
    pub questions: Seq<QuestionView>,
    pub used: int,
    pub table: TableView,
}

/// Records read, with the number of octets read and the table after them.
pub struct ParsedRecords {
    pub records: Seq<RecordView>,
    pub used: int,
    pub table: TableView,
}

/// Reads `count` questions from the front of `b`, one after the other, the
/// table starting at `t`; none where one of them cannot be read.
pub open spec fn parse_questions(b: Seq<u8>, count: int, t: TableView) -> Option<ParsedQuestions>
    decreases count,
{
    if count <= 0 {
        Some(ParsedQuestions { questions: Seq::empty(), used: 0, table: t })
    } else {
        match parse_questions(b, count - 1, t) {
            None => None,
            Some(before) => match parse_question(b.skip(before.used), before.table) {
                None => None,
                Some(p) => Some(
                    ParsedQuestions {
                        questions: before.questions.push(p.question),
                        used: before.used + p.used,
                        table: p.table,
                    },
                ),
            },
        }
    }
}

/// Reads `count` records from the front of `b`, one after the other, the
/// table starting at `t`; none where one of them cannot be read.
pub open spec fn parse_records(b: Seq<u8>, count: int, t: TableView) -> Option<ParsedRecords>
    decreases count,
{
    if count <= 0 {
        Some(ParsedRecords { records: Seq::empty(), used: 0, table: t })
    } else {
        match parse_records(b, count - 1, t) {
            None => None,
            Some(before) => match parse_record(b.skip(before.used), before.table) {
                None => None,
                Some(p) => Some(
                    ParsedRecords {
                        records: before.records.push(p.record),
                        used: before.used + p.used,
                        table: p.table,
                    },
                ),
            },
        }
    }
}

/// The message that `b` holds: the header from its first twelve octets, then
/// as many questions and as many answers as the header counts, the table
/// starting behind the header. There is none where `b` is shorter than a
/// header or one of the entries cannot be read. What follows the last
/// answer is not looked at.
pub open spec fn parse_packet(b: Seq<u8>) -> Option<PacketView> {
    if b.len() < HEADER_LENGTH {
        None
    } else {
        let header = DnsHeader::spec_new().parsed(b);
        match parse_questions(
            b.skip(HEADER_LENGTH as int),
            header.question_entries as int,
            TableView::empty(HEADER_LENGTH),
        ) {
            None => None,
            Some(q) => match parse_records(
                b.skip(HEADER_LENGTH as int).skip(q.used),
                header.answer_entries as int,
                q.table,
            ) {
                None => None,
                Some(a) => Some(
                    PacketView { header, questions: q.questions, answers: a.records },
                ),
            },
        }
    }
}

fn clone_questions(questions: &Vec<DnsQuestion>) -> (r: Vec<DnsQuestion>)
    ensures
        questions_view(r@) == questions_view(questions@),
{
    let mut r: Vec<DnsQuestion> = Vec::new();
    let mut i: usize = 0;
    while i < questions.len()
        invariant
            i <= questions@.len(),
            r@.len() == i,
            forall|j: int| 0 <= j < i ==> r@[j]@ == questions@[j]@,
        decreases questions@.len() - i,
    {
        r.push(questions[i].clone());
        i = i + 1;
    }
    r
}

pub(crate) fn clone_records(records: &Vec<DnsRecord>) -> (r: Vec<DnsRecord>)
    ensures
        records_view(r@) == records_view(records@),
{
    let mut r: Vec<DnsRecord> = Vec::new();
    let mut i: usize = 0;
    while i < records.len()
        invariant
            i <= records@.len(),
            r@.len() == i,
            forall|j: int| 0 <= j < i ==> r@[j]@ == records@[j]@,
        decreases records@.len() - i,
    {
        r.push(records[i].clone());
        i = i + 1;
    }
    r
}

impl Clone for DnsPacket {
    fn clone(&self) -> (r: Self)
        ensures
            r@ == self@,
    {
        DnsPacket {
            header: self.header,
            questions: clone_questions(&self.questions),
            answers: clone_records(&self.answers),
        }
    }
}

impl DnsPacket {
    /// A message with an all-zero header and no entries.
    pub fn new() -> (r: Self)
        ensures
            r.header == DnsHeader::spec_new(),
            r.questions@.len() == 0,
            r.answers@.len() == 0,
    {
        Self { header: DnsHeader::new(), questions: Vec::new(), answers: Vec::new() }
    }

    /// Decodes a message from the octets of `bytes_packet`, if they hold
    /// one.
    #[allow(clippy::should_implement_trait)]
    pub fn try_from(bytes_packet: BytesPacket) -> (r: Option<Self>)
        ensures
            r.is_some() == parse_packet(bytes_packet@).is_some(),
            r.is_some() ==> r.unwrap()@ == parse_packet(bytes_packet@).unwrap(),
    {
        let ghost b = bytes_packet@;
        let mut buf = bytes_packet.buf;
        let mut header = DnsHeader::new();
        if !header.try_read_bytes(&mut buf) {
            return None;
        }
        let ghost body = b.skip(HEADER_LENGTH as int);
        let ghost t0 = TableView::empty(HEADER_LENGTH);
        let mut lookup_table = LookupTable::new(HEADER_LENGTH);

        let mut questions: Vec<DnsQuestion> = Vec::new();
        let mut i: u16 = 0;
        while i < header.question_entries
            invariant
                i <= header.question_entries,
                b == bytes_packet@,
                b.len() >= HEADER_LENGTH,
                body == b.skip(HEADER_LENGTH as int),
                t0 == TableView::empty(HEADER_LENGTH),
                header == DnsHeader::spec_new().parsed(b),
                parse_questions(body, i as int, t0).is_some(),
                ({
                    let p = parse_questions(body, i as int, t0).unwrap();
                    &&& questions_view(questions@) == p.questions
                    &&& 0 <= p.used <= body.len()
                    &&& buffer_bytes(buf) == body.skip(p.used)
                    &&& lookup_table@ == p.table
                }),
            decreases header.question_entries - i,
        {
            match DnsQuestion::try_from_bytes(&mut buf, &mut lookup_table) {
                None => {
                    proof {
                        lemma_questions_fail(body, i as int + 1, header.question_entries as int, t0);
                    }
                    return None;
                },
                Some(question) => {
                    questions.push(question);
                },
            }
            i = i + 1;
        }
        let ghost q = parse_questions(body, header.question_entries as int, t0).unwrap();
        let ghost rest = body.skip(q.used);

        let mut answers: Vec<DnsRecord> = Vec::new();
        let mut k: u16 = 0;
        while k < header.answer_entries
            invariant
                k <= header.answer_entries,
                b == bytes_packet@,
                b.len() >= HEADER_LENGTH,
                body == b.skip(HEADER_LENGTH as int),
                t0 == TableView::empty(HEADER_LENGTH),
                header == DnsHeader::spec_new().parsed(b),
                parse_questions(body, header.question_entries as int, t0) == Some(q),
                rest == body.skip(q.used),
                parse_records(rest, k as int, q.table).is_some(),
                ({
                    let p = parse_records(rest, k as int, q.table).unwrap();
                    &&& records_view(answers@) == p.records
                    &&& 0 <= p.used <= rest.len()
                    &&& buffer_bytes(buf) == rest.skip(p.used)
                    &&& lookup_table@ == p.table
                }),
            decreases header.answer_entries - k,
        {
            match DnsRecord::try_from_bytes(&mut buf, &mut lookup_table) {
                None => {
                    proof {
                        lemma_records_fail(rest, k as int + 1, header.answer_entries as int, q.table);
                    }
                    return None;
                },
                Some(answer) => {
                    answers.push(answer);
                },
            }
            k = k + 1;
        }
        Some(Self { header, questions, answers })
    }

    /// Decodes a message from the octets of `bytes_packet`, which must hold
    /// one.
    #[allow(clippy::should_implement_trait)]
    pub fn from(bytes_packet: BytesPacket) -> (r: Self)
        requires
            parse_packet(bytes_packet@).is_some(),
        ensures
            r@ == parse_packet(bytes_packet@).unwrap(),
    {
        match Self::try_from(bytes_packet) {
            Some(packet) => packet,
            None => vstd::pervasive::unreached(),
        }
    }
}

/// Where the first `count` questions cannot be read, no larger number can.
proof fn lemma_questions_fail(b: Seq<u8>, count: int, more: int, t: TableView)
    requires
        count <= more,
        parse_questions(b, count, t).is_none(),
    ensures
        parse_questions(b, more, t).is_none(),
    decreases more - count,
{
    if count < more {
        lemma_questions_fail(b, count, more - 1, t);
    }
}

/// Where the first `count` records cannot be read, no larger number can.
proof fn lemma_records_fail(b: Seq<u8>, count: int, more: int, t: TableView)
    requires
        count <= more,
        parse_records(b, count, t).is_none(),
    ensures
        parse_records(b, more, t).is_none(),
    decreases more - count,
{
    if count < more {
        lemma_records_fail(b, count, more - 1, t);
    }
}

/// A message as the octets of its wire form.
pub struct BytesPacket {
    pub buf: BytesMut,
}

impl View for BytesPacket {
    type V = Seq<u8>;

    open spec fn view(&self) -> Seq<u8> {
        buffer_bytes(self.buf)
    }
}

impl BytesPacket {
    /// An empty packet, with room for one datagram.
    pub fn new() -> (r: Self)
        ensures
            r@ == Seq::<u8>::empty(),
    {
        Self { buf: with_capacity(PACKET_CAPACITY) }
    }

    /// Encodes a message: its header, then the first questions and the
    /// first answers, as many of each as the header counts. The lists must
    /// hold at least that many.
    #[allow(clippy::should_implement_trait)]
    pub fn from(dns_packet: DnsPacket) -> (r: Self)
        requires
            dns_packet.header.question_entries <= dns_packet.questions@.len(),
            dns_packet.header.answer_entries <= dns_packet.answers@.len(),
        ensures
            r@ == packet_wire(dns_packet@),
    {
        let mut bp = BytesPacket::new();
        dns_packet.header.write_bytes(&mut bp.buf);
        let ghost p = dns_packet@;
        let ghost t0 = TableView::empty(HEADER_LENGTH);
        let mut lookup_table = LookupTable::new(HEADER_LENGTH);

        let question_entries: usize = dns_packet.header.question_entries as usize;
        let mut i: usize = 0;
        while i < question_entries
            invariant
                i <= question_entries <= dns_packet.questions@.len(),
                p == dns_packet@,
                bp@ == p.header.wire() + questions_wire(p.questions, i as int, t0).bytes,
                lookup_table@ == questions_wire(p.questions, i as int, t0).table,
            decreases question_entries - i,
        {
            let ghost before = questions_wire(p.questions, i as int, t0);
            let question = &dns_packet.questions[i];
            question.write_bytes(&mut bp.buf, &mut lookup_table);
            assert(bp@ =~= p.header.wire() + (before.bytes + question_wire(
                question@.name,
                before.table,
            )));
            i = i + 1;
        }
        let ghost q = questions_wire(p.questions, question_entries as int, t0);

        let answer_entries: usize = dns_packet.header.answer_entries as usize;
        let mut k: usize = 0;
        while k < answer_entries
            invariant
                k <= answer_entries <= dns_packet.answers@.len(),
                p == dns_packet@,
                bp@ == p.header.wire() + q.bytes + records_wire(p.answers, k as int, q.table).bytes,
                lookup_table@ == records_wire(p.answers, k as int, q.table).table,
            decreases answer_entries - k,
        {
            let ghost before = records_wire(p.answers, k as int, q.table);
            let answer = &dns_packet.answers[k];
            answer.write_bytes(&mut bp.buf, &mut lookup_table);
            assert(bp@ =~= p.header.wire() + q.bytes + (before.bytes + record_wire(
                answer@,
                before.table,
            )));
            k = k + 1;
        }
        bp
    }
}

} // verus!
