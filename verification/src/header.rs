//! The fixed twelve-byte header of a DNS message.
use crate::buffer::{be_u16, buffer_bytes, get_u16, put_u16, remaining, u16_be};
use bytes::BytesMut;
use vstd::prelude::*;

verus! {

/// Number of bytes the header takes on the wire.
pub const HEADER_LENGTH: u16 = 12;

/// The status a response carries in the low four bits of its flags.
#[allow(clippy::upper_case_acronyms)]
#[derive(Debug, Clone, Copy, PartialEq, Eq, Structural)]
pub enum ResultCode {
    /// No error condition.
    NOERROR,
    /// The name server was unable to interpret the query.
    FORMERR,
    /// The name server was unable to process the query.
    SERVFAIL,
    /// The domain name referenced in the query does not exist.
    NXDOMAIN,
    /// The name server does not support the requested kind of query.
    NOTIMP,
    /// The name server refuses to perform the operation.
    REFUSED,
}

impl ResultCode {
    /// The code's number on the wire.
    pub open spec fn spec_code(self) -> u8 {
        match self {
            ResultCode::NOERROR => 0,
            ResultCode::FORMERR => 1,
            ResultCode::SERVFAIL => 2,
            ResultCode::NXDOMAIN => 3,
            ResultCode::NOTIMP => 4,
            ResultCode::REFUSED => 5,
        }
    }

    /// The code that a number stands for; a number that names none stands
    /// for `NOERROR`.
    pub open spec fn spec_from_code(value: u8) -> ResultCode {
        if value == 1 {
            ResultCode::FORMERR
        } else if value == 2 {
            ResultCode::SERVFAIL
        } else if value == 3 {
            ResultCode::NXDOMAIN
        } else if value == 4 {
            ResultCode::NOTIMP
        } else if value == 5 {
            ResultCode::REFUSED
        } else {
            ResultCode::NOERROR
        }
    }

    /// The code's number on the wire.
    #[verifier::when_used_as_spec(spec_code)]
    pub fn code(self) -> (r: u8)
        ensures
            r == self.spec_code(),
            r <= 5,
    {
        match self {
            ResultCode::NOERROR => 0,
            ResultCode::FORMERR => 1,
            ResultCode::SERVFAIL => 2,
            ResultCode::NXDOMAIN => 3,
            ResultCode::NOTIMP => 4,
            ResultCode::REFUSED => 5,
        }
    }

    /// Every code is read back from its own number.
    pub proof fn lemma_code_round_trip(self)
        ensures
            Self::spec_from_code(self.spec_code()) == self,
            self.spec_code() <= 5,
    {
    }
}

impl Default for ResultCode {
    fn default() -> (r: Self)
        ensures
            r == ResultCode::NOERROR,
    {
        ResultCode::NOERROR
    }
}

impl vstd::std_specs::convert::FromSpecImpl<u8> for ResultCode {
    open spec fn obeys_from_spec() -> bool {
        true
    }

    open spec fn from_spec(value: u8) -> Self {
        Self::spec_from_code(value)
    }
}

impl From<u8> for ResultCode {
    fn from(value: u8) -> (r: Self) {
        match value {
            1 => Self::FORMERR,
            2 => Self::SERVFAIL,
            3 => Self::NXDOMAIN,
            4 => Self::NOTIMP,
            5 => Self::REFUSED,
            _ => Self::NOERROR,
        }
    }
}

/// The header of a DNS message.
///
/// `checking_disabled` and `authed_data` are carried in the structure only:
/// the wire layout used here has no bit for them.
#[derive(Debug, Clone, Copy, PartialEq, Eq, Structural)]
pub struct DnsHeader {
    /// Packet identifier; a response repeats the id of its query.
    pub id: u16,
    /// Set in a response, clear in a query.
    pub response: bool,
    /// Kind of query, four bits.
    pub opcode: u8,
    /// Set if the responding server is authoritative for the name.
    pub authoritative_answer: bool,
    /// Set if the message was cut short.
    pub truncated_message: bool,
    /// Set by the sender to ask for recursive resolution.
    pub recursion_desired: bool,
    /// Set by the server if it offers recursion.
    pub recursion_available: bool,
    /// Not transmitted.
    pub checking_disabled: bool,
    /// Not transmitted.
    pub authed_data: bool,
    /// The reserved bit next to `recursion_available`.
    pub z: bool,
    /// Status of the response, four bits.
    pub rescode: ResultCode,
    /// Number of entries in the question section.
    pub question_entries: u16,
    /// Number of entries in the answer section.
    pub answer_entries: u16,
    /// Number of entries in the authority section.
    pub authoritative_entries: u16,
    /// Number of entries in the additional section.
    pub additional_entries: u16,
}

/// One if the flag is set, zero if not.
pub open spec fn bit(flag: bool) -> u8 {
    if flag {
        1
    } else {
        0
    }
}

impl DnsHeader {
    /// The header with every field zero or false and `NOERROR`.
    pub open spec fn spec_new() -> DnsHeader {
        DnsHeader {
            id: 0,
            response: false,
            opcode: 0,
            authoritative_answer: false,
            truncated_message: false,
            recursion_desired: false,
            recursion_available: false,
            checking_disabled: false,
            authed_data: false,
            z: false,
            rescode: ResultCode::NOERROR,
            question_entries: 0,
            answer_entries: 0,
            authoritative_entries: 0,
            additional_entries: 0,
        }
    }

    /// The first flags octet: response in bit 7, the low four bits of the
    /// opcode in bits 6 to 3, then authoritative, truncated, recursion
    /// desired in bits 2, 1, 0.
    pub open spec fn flags_high(self) -> u8 {
        (bit(self.response) << 7) | ((self.opcode & 0x0F) << 3) | (bit(self.authoritative_answer)
            << 2) | (bit(self.truncated_message) << 1) | bit(self.recursion_desired)
    }

    /// The second flags octet: recursion available in bit 7, `z` in bit 6,
    /// the result code in bits 3 to 0.
    pub open spec fn flags_low(self) -> u8 {
        (bit(self.recursion_available) << 7) | (bit(self.z) << 6) | self.rescode.spec_code()
    }

    /// The twelve bytes of the header on the wire.
    pub open spec fn wire(self) -> Seq<u8> {
        u16_be(self.id) + seq![self.flags_high(), self.flags_low()] + u16_be(self.question_entries)
            + u16_be(self.answer_entries) + u16_be(self.authoritative_entries) + u16_be(
            self.additional_entries,
        )
    }

    /// The header that the first twelve bytes of `b` stand for, the fields
    /// that are not transmitted taken from `self`.
    pub open spec fn parsed(self, b: Seq<u8>) -> DnsHeader
        recommends
            b.len() >= 12,
    {
        let a = b[2];
        let l = b[3];
        DnsHeader {
            id: be_u16(b),
            response: (a & 0x80) != 0,
            opcode: (a >> 3) & 0x0F,
            authoritative_answer: (a & 0x04) != 0,
            truncated_message: (a & 0x02) != 0,
            recursion_desired: (a & 0x01) != 0,
            recursion_available: (l & 0x80) != 0,
            checking_disabled: self.checking_disabled,
            authed_data: self.authed_data,
            z: (l & 0x40) != 0,
            rescode: ResultCode::spec_from_code(l & 0x0F),
            question_entries: be_u16(b.skip(4)),
            answer_entries: be_u16(b.skip(6)),
            authoritative_entries: be_u16(b.skip(8)),
            additional_entries: be_u16(b.skip(10)),
        }
    }

    /// A header with every field zero or false.
    pub fn new() -> (h: Self)
        ensures
            h == Self::spec_new(),
    {
        DnsHeader {
            id: 0,
            response: false,
            opcode: 0,
            authoritative_answer: false,
            truncated_message: false,
            recursion_desired: false,
            recursion_available: false,
            checking_disabled: false,
            authed_data: false,
            z: false,
            rescode: ResultCode::NOERROR,
            question_entries: 0,
            answer_entries: 0,
            authoritative_entries: 0,
            additional_entries: 0,
        }
    }

    /// Reads the header off the front of `buf` into `self`. The two fields
    /// that are not transmitted keep their values.
    pub fn read_bytes(&mut self, buf: &mut BytesMut)
        requires
            buffer_bytes(*old(buf)).len() >= 12,
        ensures
            *final(self) == old(self).parsed(buffer_bytes(*old(buf))),
            buffer_bytes(*final(buf)) == buffer_bytes(*old(buf)).skip(12),
    {
        let ghost b = buffer_bytes(*buf);
        self.id = get_u16(buf);
        let ghost b2 = buffer_bytes(*buf);
        let flags: u16 = get_u16(buf);
        assert(b2[0] == b[2] && b2[1] == b[3]);
        let a: u8 = (flags >> 8) as u8;
        let l: u8 = (flags & 0xFF) as u8;
        assert(a == b[2] && l == b[3]) by {
            let hi: u8 = b[2];
            let lo: u8 = b[3];
            assert(flags == ((hi as u16) << 8) | (lo as u16)) by {
                assert((hi as u16) * 256 + (lo as u16) == ((hi as u16) << 8) | (lo as u16))
                    by (bit_vector);
            }
            assert(((((hi as u16) << 8) | (lo as u16)) >> 8) as u8 == hi) by (bit_vector);
            assert(((((hi as u16) << 8) | (lo as u16)) & 0xFF) as u8 == lo) by (bit_vector);
        }
        self.response = (a & 0x80) != 0;
        self.opcode = (a >> 3) & 0x0F;
        self.authoritative_answer = (a & 0x04) != 0;
        self.truncated_message = (a & 0x02) != 0;
        self.recursion_desired = (a & 0x01) != 0;
        self.recursion_available = (l & 0x80) != 0;
        self.z = (l & 0x40) != 0;
        self.rescode = ResultCode::from(l & 0x0F);
        self.question_entries = get_u16(buf);
        self.answer_entries = get_u16(buf);
        self.authoritative_entries = get_u16(buf);
        self.additional_entries = get_u16(buf);
    }

    /// Reads the header off the front of `buf` into `self`, if `buf` holds
    /// the twelve bytes of one. Where it does not, nothing changes.
    pub fn try_read_bytes(&mut self, buf: &mut BytesMut) -> (ok: bool)
        ensures
            ok == (buffer_bytes(*old(buf)).len() >= 12),
            ok ==> *final(self) == old(self).parsed(buffer_bytes(*old(buf))) && buffer_bytes(
                *final(buf),
            ) == buffer_bytes(*old(buf)).skip(12),
            !ok ==> *final(self) == *old(self) && buffer_bytes(*final(buf)) == buffer_bytes(
                *old(buf),
            ),
    {
        if remaining(buf) < 12 {
            return false;
        }
        self.read_bytes(buf);
        true
    }

    /// Appends the twelve bytes of the header to `buf`.
    pub fn write_bytes(&self, buf: &mut BytesMut)
        ensures
            buffer_bytes(*final(buf)) == buffer_bytes(*old(buf)) + self.wire(),
    {
        put_u16(buf, self.id);
        let a: u8 = (flag_bit(self.response) << 7) | ((self.opcode & 0x0F) << 3) | (flag_bit(
            self.authoritative_answer,
        ) << 2) | (flag_bit(self.truncated_message) << 1) | flag_bit(self.recursion_desired);
        let l: u8 = (flag_bit(self.recursion_available) << 7) | (flag_bit(self.z) << 6)
            | self.rescode.code();
        let flags: u16 = ((a as u16) << 8) | (l as u16);
        assert(u16_be(flags) =~= seq![a, l]) by {
            assert((((a as u16) << 8) | (l as u16)) / 256 == a as u16) by (bit_vector);
            assert((((a as u16) << 8) | (l as u16)) % 256 == l as u16) by (bit_vector);
        }
        put_u16(buf, flags);
        put_u16(buf, self.question_entries);
        put_u16(buf, self.answer_entries);
        put_u16(buf, self.authoritative_entries);
        put_u16(buf, self.additional_entries);
    }
}

/// One if the flag is set, zero if not.
fn flag_bit(flag: bool) -> (r: u8)
    ensures
        r == bit(flag),
{
    if flag {
        1
    } else {
        0
    }
}

/// Whatever header the decoder starts from, decoding the wire form of `h`
/// gives back every transmitted field of `h`, provided the opcode of `h`
/// fits its four bits. The two fields without a place on the wire come from
/// the header the decoder started from.
pub proof fn lemma_header_decode_encode(base: DnsHeader, h: DnsHeader)
    requires
        h.opcode < 16,
    ensures
        h.wire().len() == 12,
        base.parsed(h.wire()) == (DnsHeader {
            checking_disabled: base.checking_disabled,
            authed_data: base.authed_data,
            ..h
        }),
{
    let w = h.wire();
    let a = h.flags_high();
    let l = h.flags_low();
    assert(w.skip(4) =~= u16_be(h.question_entries) + u16_be(h.answer_entries) + u16_be(
        h.authoritative_entries,
    ) + u16_be(h.additional_entries));
    assert(w.skip(6) =~= u16_be(h.answer_entries) + u16_be(h.authoritative_entries) + u16_be(
        h.additional_entries,
    ));
    let r = bit(h.response);
    let o = h.opcode;
    let aa = bit(h.authoritative_answer);
    let tc = bit(h.truncated_message);
    let rd = bit(h.recursion_desired);
    let ra = bit(h.recursion_available);
    let z = bit(h.z);
    let c = h.rescode.spec_code();
    h.rescode.lemma_code_round_trip();
    assert(r <= 1 && aa <= 1 && tc <= 1 && rd <= 1 && o < 16 ==> {
        let a = (r << 7) | ((o & 0x0Fu8) << 3) | (aa << 2) | (tc << 1) | rd;
        &&& ((a & 0x80u8) != 0) == (r == 1)
        &&& (a >> 3) & 0x0Fu8 == o
        &&& ((a & 0x04u8) != 0) == (aa == 1)
        &&& ((a & 0x02u8) != 0) == (tc == 1)
        &&& ((a & 0x01u8) != 0) == (rd == 1)
    }) by (bit_vector);
    assert(ra <= 1 && z <= 1 && c <= 5 ==> {
        let l = (ra << 7) | (z << 6) | c;
        &&& ((l & 0x80u8) != 0) == (ra == 1)
        &&& ((l & 0x40u8) != 0) == (z == 1)
        &&& l & 0x0Fu8 == c
    }) by (bit_vector);
}

/// Decoding the wire form of a header gives back the header itself when its
/// opcode fits four bits and the two fields without a place on the wire are
/// false, as they are in a header that decoding starts from.
pub proof fn lemma_header_round_trip(h: DnsHeader)
    requires
        h.opcode < 16,
        !h.checking_disabled,
        !h.authed_data,
    ensures
        DnsHeader::spec_new().parsed(h.wire()) == h,
{
    lemma_header_decode_encode(DnsHeader::spec_new(), h);
}

/// Encoding the header decoded from twelve bytes gives back those bytes,
/// provided they hold what a header can express: bits 5 and 4 of the second
/// flags octet are clear and the result code is one of the six known.
pub proof fn lemma_header_encode_decode(base: DnsHeader, b: Seq<u8>)
    requires
        b.len() == 12,
        b[3] & 0x30 == 0,
        b[3] & 0x0F <= 5,
    ensures
        base.parsed(b).wire() == b,
{
    let a = b[2];
    let l = b[3];
    let c = l & 0x0F;
    assert((bit((a & 0x80u8) != 0) << 7) | ((((a >> 3) & 0x0Fu8) & 0x0Fu8) << 3) | (bit(
        (a & 0x04u8) != 0,
    ) << 2) | (bit((a & 0x02u8) != 0) << 1) | bit((a & 0x01u8) != 0) == a) by {
        let r = bit((a & 0x80u8) != 0);
        let aa = bit((a & 0x04u8) != 0);
        let tc = bit((a & 0x02u8) != 0);
        let rd = bit((a & 0x01u8) != 0);
        assert(r <= 1 && aa <= 1 && tc <= 1 && rd <= 1 && (r == 1) == ((a & 0x80u8) != 0) && (aa
            == 1) == ((a & 0x04u8) != 0) && (tc == 1) == ((a & 0x02u8) != 0) && (rd == 1) == ((a
            & 0x01u8) != 0) ==> (r << 7) | ((((a >> 3) & 0x0Fu8) & 0x0Fu8) << 3) | (aa << 2) | (tc
            << 1) | rd == a) by (bit_vector);
    }
    assert((bit((l & 0x80u8) != 0) << 7) | (bit((l & 0x40u8) != 0) << 6) | c == l) by {
        let ra = bit((l & 0x80u8) != 0);
        let z = bit((l & 0x40u8) != 0);
        assert(ra <= 1 && z <= 1 && (ra == 1) == ((l & 0x80u8) != 0) && (z == 1) == ((l & 0x40u8)
            != 0) && l & 0x30u8 == 0 && c == l & 0x0Fu8 ==> (ra << 7) | (z << 6) | c == l)
            by (bit_vector);
    }
}

impl Default for DnsHeader {
    fn default() -> (h: Self)
        ensures
            h == Self::spec_new(),
    {
        Self::new()
    }
}

} // verus!
