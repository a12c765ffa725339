//! What holds of whole messages: an encoded message is decoded to itself,
//! encoding looks at no more entries than the header counts, the table's
//! position follows the message, and a name that occurs again is written
//! as a pointer to its first occurrence.
use crate::buffer::{lemma_u16_be_round_trip, lemma_u32_be_round_trip, u16_be, u32_be};
use crate::domain_name::{name_wire, pointer_word, TableView, POINTER_LIMIT};
use crate::header::{lemma_header_decode_encode, DnsHeader, HEADER_LENGTH};
use crate::name_laws::{
    extends, label_start, lemma_name_round_trip, lemma_write_coherent, lemma_write_follows,
    lemma_written_suffix_is_known, offset_after, offsets_behind, well_formed,
};
use crate::packet::{
    packet_wire, parse_packet, parse_questions, parse_records, questions_wire, records_wire,
    PacketView, ParsedQuestions, ParsedRecords,
};
use crate::question::{
    parse_question, question_wire, table_after_question, ParsedQuestion, QueryClass, QueryType,
    QuestionView,
};
use crate::record::{
    parse_record, record_wire, table_after_record, ParsedRecord, RecordClass, RecordType,
    RecordView, ADDRESS_LENGTH,
};
use vstd::prelude::*;

verus! {

/// Whether the wire form keeps all of a question: its name is well formed,
/// and its type and class are those that encoding writes.
pub open spec fn question_kept(q: QuestionView) -> bool {
    &&& well_formed(q.name)
    &&& q.query_type == QueryType::A
    &&& q.class == QueryClass::IN
}

/// Whether the wire form keeps all of a record: its name is well formed,
/// its type, class and length are those that encoding writes, and its data
/// is an address.
pub open spec fn record_kept(r: RecordView) -> bool {
    &&& well_formed(r.name)
    &&& r.record_type == RecordType::A
    &&& r.class == RecordClass::IN
    &&& r.length == ADDRESS_LENGTH
    &&& r.data.len() == 4
}

/// Whether the wire form keeps all of a message: the header's opcode fits
/// four bits and its two untransmitted flags are false, the header counts
/// the questions and the answers, and each of them is kept.
pub open spec fn packet_kept(p: PacketView) -> bool {
    &&& p.header.opcode < 16
    &&& !p.header.checking_disabled
    &&& !p.header.authed_data
    &&& p.header.question_entries == p.questions.len()
    &&& p.header.answer_entries == p.answers.len()
    &&& forall|i: int| 0 <= i < p.questions.len() ==> question_kept(#[trigger] p.questions[i])
    &&& forall|i: int| 0 <= i < p.answers.len() ==> record_kept(#[trigger] p.answers[i])
}

/// A question with a well-formed name, written with a coherent table, is
/// read back with that table as the question of that name with type `A` and
/// class `IN`, whatever follows it.
pub proof fn lemma_question_round_trip(name: Seq<u8>, t: TableView, rest: Seq<u8>)
    requires
        well_formed(name),
        t.coherent(),
    ensures
        table_after_question(name, t).coherent(),
        parse_question(question_wire(name, t) + rest, t) == Some(
            ParsedQuestion {
                question: QuestionView {
                    name,
                    query_type: QueryType::A,
                    class: QueryClass::IN,
                },
                used: question_wire(name, t).len() as int,
                table: table_after_question(name, t),
            },
        ),
{
    let n = name_wire(name, t);
    let tail = u16_be(1) + u16_be(1) + rest;
    let b = question_wire(name, t) + rest;
    assert(b =~= n + tail);
    lemma_name_round_trip(name, t, tail);
    lemma_write_coherent(name, t);
}

/// A record that the wire form keeps, written with a coherent table, is
/// read back with that table as itself, whatever follows it.
pub proof fn lemma_record_round_trip(r: RecordView, t: TableView, rest: Seq<u8>)
    requires
        record_kept(r),
        t.coherent(),
    ensures
        table_after_record(r.name, t).coherent(),
        parse_record(record_wire(r, t) + rest, t) == Some(
            ParsedRecord {
                record: r,
                used: record_wire(r, t).len() as int,
                table: table_after_record(r.name, t),
            },
        ),
{
    let n = name_wire(r.name, t);
    let fixed = u16_be(1) + u16_be(1) + u32_be(r.ttl) + u16_be(ADDRESS_LENGTH) + r.data;
    let tail = fixed + rest;
    let b = record_wire(r, t) + rest;
    assert(b =~= n + tail);
    lemma_name_round_trip(r.name, t, tail);
    lemma_write_coherent(r.name, t);
    assert(parse_record(b, t).unwrap().record.data == r.data);
}

/// The first `count` questions, each kept by the wire form, written with a
/// coherent table, are read back with that table, whatever follows them.
pub proof fn lemma_questions_round_trip(
    questions: Seq<QuestionView>,
    count: int,
    t: TableView,
    rest: Seq<u8>,
)
    requires
        0 <= count <= questions.len(),
        t.coherent(),
        forall|i: int| 0 <= i < count ==> question_kept(#[trigger] questions[i]),
    ensures
        questions_wire(questions, count, t).table.coherent(),
        parse_questions(questions_wire(questions, count, t).bytes + rest, count, t) == Some(
            ParsedQuestions {
                questions: questions.take(count),
                used: questions_wire(questions, count, t).bytes.len() as int,
                table: questions_wire(questions, count, t).table,
            },
        ),
    decreases count,
{
    let w = questions_wire(questions, count, t);
    let b = w.bytes + rest;
    if count == 0 {
        assert(questions.take(0) =~= Seq::<QuestionView>::empty());
    } else {
        let before = questions_wire(questions, count - 1, t);
        let q = questions[count - 1];
        let qw = question_wire(q.name, before.table);
        assert(b =~= before.bytes + (qw + rest));
        lemma_questions_round_trip(questions, count - 1, t, qw + rest);
        lemma_question_round_trip(q.name, before.table, rest);
        assert(b.skip(before.bytes.len() as int) =~= qw + rest);
        assert(questions.take(count - 1).push(q) =~= questions.take(count));
    }
}

/// The first `count` records, each kept by the wire form, written with a
/// coherent table, are read back with that table, whatever follows them.
pub proof fn lemma_records_round_trip(
    records: Seq<RecordView>,
    count: int,
    t: TableView,
    rest: Seq<u8>,
)
    requires
        0 <= count <= records.len(),
        t.coherent(),
        forall|i: int| 0 <= i < count ==> record_kept(#[trigger] records[i]),
    ensures
        records_wire(records, count, t).table.coherent(),
        parse_records(records_wire(records, count, t).bytes + rest, count, t) == Some(
            ParsedRecords {
                records: records.take(count),
                used: records_wire(records, count, t).bytes.len() as int,
                table: records_wire(records, count, t).table,
            },
        ),
    decreases count,
{
    let w = records_wire(records, count, t);
    let b = w.bytes + rest;
    if count == 0 {
        assert(records.take(0) =~= Seq::<RecordView>::empty());
    } else {
        let before = records_wire(records, count - 1, t);
        let r = records[count - 1];
        assert(record_kept(r));
        let rw = record_wire(r, before.table);
        assert(b =~= before.bytes + (rw + rest));
        lemma_records_round_trip(records, count - 1, t, rw + rest);
        lemma_record_round_trip(r, before.table, rest);
        assert(b.skip(before.bytes.len() as int) =~= rw + rest);
        assert(records.take(count - 1).push(r) =~= records.take(count));
    }
}

/// The header read from a message is the header read from its first twelve
/// octets.
pub proof fn lemma_header_reads_twelve_octets(base: DnsHeader, b: Seq<u8>, c: Seq<u8>)
    requires
        b.len() >= 12,
        c.len() >= 12,
        b.take(12) == c.take(12),
    ensures
        base.parsed(b) == base.parsed(c),
{
    assert forall|i: int| 0 <= i < 12 implies b[i] == c[i] by {
        assert(c[i] == c.take(12)[i]);
    }
}

/// Decoding what encoding gave returns the message, whatever follows it in
/// the buffer, for every message that the wire form keeps.
pub proof fn lemma_packet_round_trip(p: PacketView, rest: Seq<u8>)
    requires
        packet_kept(p),
    ensures
        parse_packet(packet_wire(p) + rest) == Some(p),
{
    let t0 = TableView::empty(HEADER_LENGTH);
    let q = questions_wire(p.questions, p.header.question_entries as int, t0);
    let a = records_wire(p.answers, p.header.answer_entries as int, q.table);
    let h = p.header.wire();
    let b = packet_wire(p) + rest;
    lemma_header_decode_encode(DnsHeader::spec_new(), p.header);
    assert(b.take(12) =~= h.take(12));
    lemma_header_reads_twelve_octets(DnsHeader::spec_new(), b, h);
    assert(b.skip(12) =~= q.bytes + (a.bytes + rest));
    lemma_questions_round_trip(p.questions, p.questions.len() as int, t0, a.bytes + rest);
    assert(b.skip(12).skip(q.bytes.len() as int) =~= a.bytes + rest);
    lemma_records_round_trip(p.answers, p.answers.len() as int, q.table, rest);
    assert(p.questions.take(p.questions.len() as int) =~= p.questions);
    assert(p.answers.take(p.answers.len() as int) =~= p.answers);
}

/// The wire form of the first `count` questions is that of any list with
/// the same first `count` questions.
pub proof fn lemma_questions_wire_counted(
    a: Seq<QuestionView>,
    b: Seq<QuestionView>,
    count: int,
    t: TableView,
)
    requires
        forall|i: int| 0 <= i < count ==> a[i] == b[i],
    ensures
        questions_wire(a, count, t) == questions_wire(b, count, t),
    decreases count,
{
    if count > 0 {
        lemma_questions_wire_counted(a, b, count - 1, t);
    }
}

/// The wire form of the first `count` records is that of any list with the
/// same first `count` records.
pub proof fn lemma_records_wire_counted(
    a: Seq<RecordView>,
    b: Seq<RecordView>,
    count: int,
    t: TableView,
)
    requires
        forall|i: int| 0 <= i < count ==> a[i] == b[i],
    ensures
        records_wire(a, count, t) == records_wire(b, count, t),
    decreases count,
{
    if count > 0 {
        lemma_records_wire_counted(a, b, count - 1, t);
    }
}

/// Encoding looks at as many questions and answers as the header counts and
/// no more: two messages with the same header that agree on those entries
/// have the same wire form, whatever else their lists hold.
pub proof fn lemma_wire_reads_counted_entries(p: PacketView, q: PacketView)
    requires
        p.header == q.header,
        forall|i: int| 0 <= i < p.header.question_entries ==> p.questions[i] == q.questions[i],
        forall|i: int| 0 <= i < p.header.answer_entries ==> p.answers[i] == q.answers[i],
    ensures
        packet_wire(p) == packet_wire(q),
{
    let t0 = TableView::empty(HEADER_LENGTH);
    lemma_questions_wire_counted(p.questions, q.questions, p.header.question_entries as int, t0);
    let w = questions_wire(p.questions, p.header.question_entries as int, t0);
    lemma_records_wire_counted(p.answers, q.answers, p.header.answer_entries as int, w.table);
}

/// While questions are written the table's position follows the message,
/// every registered offset stays before it, and what the table knew before
/// any of them it knows after.
pub proof fn lemma_questions_follow(
    questions: Seq<QuestionView>,
    from: int,
    count: int,
    t: TableView,
)
    requires
        0 <= from <= count,
        offsets_behind(t),
    ensures
        questions_wire(questions, count, t).table.pos == offset_after(
            t.pos,
            questions_wire(questions, count, t).bytes.len() as int,
        ),
        offsets_behind(questions_wire(questions, count, t).table),
        extends(
            questions_wire(questions, from, t).table,
            questions_wire(questions, count, t).table,
        ),
    decreases count,
{
    if count > 0 {
        let before = questions_wire(questions, count - 1, t);
        let name = questions[count - 1].name;
        lemma_questions_follow(questions, if from < count { from } else { count - 1 }, count - 1, t);
        lemma_write_follows(name, before.table);
    }
}

/// While records are written, each with an address of four octets, the
/// table's position follows the message, every registered offset stays
/// before it, and what the table knew before any of them it knows after.
pub proof fn lemma_records_follow(records: Seq<RecordView>, from: int, count: int, t: TableView)
    requires
        0 <= from <= count,
        offsets_behind(t),
        forall|k: int| 0 <= k < count ==> (#[trigger] records[k]).data.len() == 4,
    ensures
        records_wire(records, count, t).table.pos == offset_after(
            t.pos,
            records_wire(records, count, t).bytes.len() as int,
        ),
        offsets_behind(records_wire(records, count, t).table),
        extends(records_wire(records, from, t).table, records_wire(records, count, t).table),
    decreases count,
{
    if count > 0 {
        let before = records_wire(records, count - 1, t);
        let name = records[count - 1].name;
        lemma_records_follow(records, if from < count { from } else { count - 1 }, count - 1, t);
        lemma_write_follows(name, before.table);
        lemma_u16_be_round_trip(1, Seq::empty());
        lemma_u32_be_round_trip(records[count - 1].ttl, Seq::empty());
    }
}

/// The offset in the message at which question `i` starts, the questions
/// starting at the position of `t`.
pub open spec fn question_offset(questions: Seq<QuestionView>, i: int, t: TableView) -> int {
    t.pos + questions_wire(questions, i, t).bytes.len()
}

/// The offset in the message at which record `i` starts, the records
/// starting at the position of `t`.
pub open spec fn record_offset(records: Seq<RecordView>, i: int, t: TableView) -> int {
    t.pos + records_wire(records, i, t).bytes.len()
}

/// Where the name of question `j` is the name of an earlier question `i`,
/// or the suffix of it that starts at the label at index `from`, it is
/// written as a pointer to the offset at which that suffix stands in
/// question `i`. The name of question `i` is well formed, question `i` is
/// the first occurrence of both, and the suffix stands where a pointer can
/// reach.
pub proof fn lemma_repeated_question_is_pointer(
    questions: Seq<QuestionView>,
    i: int,
    j: int,
    from: int,
    t: TableView,
)
    requires
        0 <= i < j,
        well_formed(questions[i].name),
        label_start(questions[i].name, from),
        questions[j].name == questions[i].name.skip(from),
        offsets_behind(t),
        !questions_wire(questions, i, t).table.compression.contains_key(questions[i].name),
        !questions_wire(questions, i, t).table.compression.contains_key(questions[j].name),
        question_offset(questions, i, t) + from < POINTER_LIMIT,
    ensures
        name_wire(questions[j].name, questions_wire(questions, j, t).table) == u16_be(
            pointer_word((question_offset(questions, i, t) + from) as u16),
        ),
{
    let name = questions[i].name;
    let before = questions_wire(questions, i, t);
    lemma_questions_follow(questions, i, i, t);
    lemma_written_suffix_is_known(name, before.table, from);
    lemma_questions_follow(questions, i + 1, j, t);
    assert(questions_wire(questions, i + 1, t).table.compression.contains_key(name.skip(from)));
}

/// Where the name of answer `j` is the name of question `i`, or the suffix
/// of it that starts at the label at index `from`, it is written as a
/// pointer to the offset at which that suffix stands in question `i`. The
/// name of question `i` is well formed, question `i` is the first
/// occurrence of both, and the suffix stands where a pointer can reach; the
/// answers before `j` hold addresses of four octets.
pub proof fn lemma_answer_to_question_is_pointer(
    questions: Seq<QuestionView>,
    count: int,
    answers: Seq<RecordView>,
    i: int,
    j: int,
    from: int,
    t: TableView,
)
    requires
        0 <= i < count,
        0 <= j,
        forall|k: int| 0 <= k < j ==> (#[trigger] answers[k]).data.len() == 4,
        well_formed(questions[i].name),
        label_start(questions[i].name, from),
        answers[j].name == questions[i].name.skip(from),
        offsets_behind(t),
        !questions_wire(questions, i, t).table.compression.contains_key(questions[i].name),
        !questions_wire(questions, i, t).table.compression.contains_key(answers[j].name),
        question_offset(questions, i, t) + from < POINTER_LIMIT,
    ensures
        name_wire(
            answers[j].name,
            records_wire(answers, j, questions_wire(questions, count, t).table).table,
        ) == u16_be(pointer_word((question_offset(questions, i, t) + from) as u16)),
{
    let name = questions[i].name;
    let before = questions_wire(questions, i, t);
    let asked = questions_wire(questions, count, t).table;
    lemma_questions_follow(questions, i, i, t);
    lemma_written_suffix_is_known(name, before.table, from);
    lemma_questions_follow(questions, i + 1, count, t);
    assert(questions_wire(questions, i + 1, t).table.compression.contains_key(name.skip(from)));
    assert(asked.compression.contains_key(name.skip(from)));
    lemma_records_follow(answers, 0, j, asked);
}

/// Where the name of answer `j` is the name of an earlier answer `i`, or
/// the suffix of it that starts at the label at index `from`, it is written
/// as a pointer to the offset at which that suffix stands in answer `i`.
/// The name of answer `i` is well formed, answer `i` is the first
/// occurrence of both, and the suffix stands where a pointer can reach; the
/// answers before `j` hold addresses of four octets.
pub proof fn lemma_repeated_answer_is_pointer(
    answers: Seq<RecordView>,
    i: int,
    j: int,
    from: int,
    t: TableView,
)
    requires
        0 <= i < j,
        forall|k: int| 0 <= k < j ==> (#[trigger] answers[k]).data.len() == 4,
        well_formed(answers[i].name),
        label_start(answers[i].name, from),
        answers[j].name == answers[i].name.skip(from),
        offsets_behind(t),
        !records_wire(answers, i, t).table.compression.contains_key(answers[i].name),
        !records_wire(answers, i, t).table.compression.contains_key(answers[j].name),
        record_offset(answers, i, t) + from < POINTER_LIMIT,
    ensures
        name_wire(answers[j].name, records_wire(answers, j, t).table) == u16_be(
            pointer_word((record_offset(answers, i, t) + from) as u16),
        ),
{
    let name = answers[i].name;
    let before = records_wire(answers, i, t);
    lemma_records_follow(answers, i, i, t);
    lemma_written_suffix_is_known(name, before.table, from);
    lemma_records_follow(answers, i + 1, j, t);
    assert(records_wire(answers, i + 1, t).table.compression.contains_key(name.skip(from)));
}

/// Entries that share a name before encoding share it after decoding: the
/// decoded message is the encoded one, so its names are those that were
/// written, whether in full or as pointers.
pub proof fn lemma_shared_names_read_back(p: PacketView, rest: Seq<u8>)
    requires
        packet_kept(p),
    ensures
        parse_packet(packet_wire(p) + rest).is_some(),
        forall|i: int, j: int|
            0 <= i < p.questions.len() && 0 <= j < p.questions.len() ==> (p.questions[i].name
                == p.questions[j].name ==> #[trigger] parse_packet(
                packet_wire(p) + rest,
            ).unwrap().questions[i].name == #[trigger] parse_packet(
                packet_wire(p) + rest,
            ).unwrap().questions[j].name),
        forall|i: int, j: int|
            0 <= i < p.questions.len() && 0 <= j < p.answers.len() ==> (p.questions[i].name
                == p.answers[j].name ==> #[trigger] parse_packet(
                packet_wire(p) + rest,
            ).unwrap().questions[i].name == #[trigger] parse_packet(
                packet_wire(p) + rest,
            ).unwrap().answers[j].name),
        forall|i: int, j: int|
            0 <= i < p.answers.len() && 0 <= j < p.answers.len() ==> (p.answers[i].name
                == p.answers[j].name ==> #[trigger] parse_packet(
                packet_wire(p) + rest,
            ).unwrap().answers[i].name == #[trigger] parse_packet(
                packet_wire(p) + rest,
            ).unwrap().answers[j].name),
{
    lemma_packet_round_trip(p, rest);
}

} // verus!
