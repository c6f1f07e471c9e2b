//! Decoding DNS messages from bytes, and the message-level encoder.

use vstd::prelude::*;
use crate::bit_cursor::{BitCursor, field, lemma_rotl_field, lemma_small_masks};
use crate::byte_utils::be_u16;
use crate::dns_packet::DnsPacket;
use crate::message::{
    AnswerView, DnsAnswer, DnsHeader, DnsMessage, DnsMessageType, DnsName, DnsQuestion,
    IntoBytes, MessageView, QuestionView, answers_view, answers_wire, emitted_header,
    message_wire, questions_view,
};

verus! {

broadcast use crate::dns_packet::lemma_cursor_nonneg;

/// Why bytes are not a DNS message.
#[derive(Debug, Clone, Copy, PartialEq, Eq, Structural)]
pub enum ParseError {
    /// The bytes end before the message does.
    Truncated,
    /// A label length byte uses the reserved high-bit patterns.
    MalformedLabel,
    /// A compression pointer does not point strictly backwards.
    PointerLoop,
}

/// The big-endian word at `p`, or zero when the bytes end before it.
pub open spec fn word_at(buf: Seq<u8>, p: int) -> u16 {
    if 0 <= p && p + 2 <= buf.len() {
        be_u16(buf[p], buf[p + 1])
    } else {
        0
    }
}

/// The header fields held in six words.
pub open spec fn header_from_words(w0: u16, w1: u16, w2: u16, w3: u16, w4: u16, w5: u16) -> DnsHeader {
    DnsHeader {
        id: w0,
        qr: (w1 >> 15u16) & 1 == 1,
        opcode: ((w1 >> 11u16) & 0xf) as u8,
        aa: (w1 >> 10u16) & 1 == 1,
        tc: (w1 >> 9u16) & 1 == 1,
        rd: (w1 >> 8u16) & 1 == 1,
        ra: (w1 >> 7u16) & 1 == 1,
        z: ((w1 >> 4u16) & 7) as u8,
        rcode: (w1 & 0xf) as u8,
        qdcount: w2,
        ancount: w3,
        nscount: w4,
        arcount: w5,
    }
}

/// The header that starts at `p`; fields past the end of the bytes are zero.
pub open spec fn header_at(buf: Seq<u8>, p: int) -> DnsHeader {
    header_from_words(
        word_at(buf, p),
        word_at(buf, p + 2),
        word_at(buf, p + 4),
        word_at(buf, p + 6),
        word_at(buf, p + 8),
        word_at(buf, p + 10),
    )
}

/// The labels of the name at `pos`, following compression pointers. Every
/// pointer must lead strictly before `limit`, and `limit` becomes its
/// target, so that a chain of pointers cannot loop.
pub open spec fn name_at(buf: Seq<u8>, pos: int, limit: int) -> Result<
    Seq<Seq<u8>>,
    ParseError,
>
    decreases limit, buf.len() - pos,
{
    if pos < 0 || limit < 0 || pos >= buf.len() {
        Err(ParseError::Truncated)
    } else if buf[pos] == 0 {
        Ok(seq![])
    } else if buf[pos] >= 0xc0 {
        if pos + 2 > buf.len() {
            Err(ParseError::Truncated)
        } else {
            let t = (be_u16(buf[pos], buf[pos + 1]) & 0x3fff) as int;
            if t >= limit {
                Err(ParseError::PointerLoop)
            } else {
                name_at(buf, t, t)
            }
        }
    } else if buf[pos] >= 0x40 {
        Err(ParseError::MalformedLabel)
    } else {
        let n = buf[pos] as int;
        if pos + 1 + n > buf.len() {
            Err(ParseError::Truncated)
        } else {
            match name_at(buf, pos + 1 + n, limit) {
                Ok(rest) => Ok(seq![buf.subrange(pos + 1, pos + 1 + n)] + rest),
                Err(e) => Err(e),
            }
        }
    }
}

/// Where the bytes after the name at `pos` start: past its terminating zero
/// or past its first pointer.
pub open spec fn name_end(buf: Seq<u8>, pos: int) -> int
    decreases buf.len() - pos,
{
    if pos < 0 || pos >= buf.len() {
        pos
    } else if buf[pos] == 0 {
        pos + 1
    } else if buf[pos] >= 0xc0 {
        pos + 2
    } else if pos + 1 + buf[pos] as int > buf.len() {
        pos
    } else {
        name_end(buf, pos + 1 + buf[pos] as int)
    }
}

pub open spec fn question_at(buf: Seq<u8>, pos: int) -> Result<(QuestionView, int), ParseError> {
    match name_at(buf, pos, pos) {
        Err(e) => Err(e),
        Ok(n) => {
            let p = name_end(buf, pos);
            if p + 4 > buf.len() {
                Err(ParseError::Truncated)
            } else {
                Ok(
                    (
                        QuestionView {
                            qname: n,
                            qtype: be_u16(buf[p], buf[p + 1]),
                            qclass: be_u16(buf[p + 2], buf[p + 3]),
                        },
                        p + 4,
                    ),
                )
            }
        },
    }
}

pub open spec fn answer_at(buf: Seq<u8>, pos: int) -> Result<(AnswerView, int), ParseError> {
    match name_at(buf, pos, pos) {
        Err(e) => Err(e),
        Ok(n) => {
            let p = name_end(buf, pos);
            if p + 10 > buf.len() {
                Err(ParseError::Truncated)
            } else {
                let rdlength = be_u16(buf[p + 8], buf[p + 9]);
                if p + 10 + rdlength > buf.len() {
                    Err(ParseError::Truncated)
                } else {
                    Ok(
                        (
                            AnswerView {
                                name: n,
                                atype: be_u16(buf[p], buf[p + 1]),
                                aclass: be_u16(buf[p + 2], buf[p + 3]),
                                ttl: crate::byte_utils::be_u32(
                                    buf[p + 4],
                                    buf[p + 5],
                                    buf[p + 6],
                                    buf[p + 7],
                                ),
                                rdlength: rdlength,
                                rdata: buf.subrange(p + 10, p + 10 + rdlength),
                            },
                            p + 10 + rdlength,
                        ),
                    )
                }
            }
        },
    }
}

pub open spec fn questions_at(buf: Seq<u8>, pos: int, n: nat) -> Result<
    (Seq<QuestionView>, int),
    ParseError,
>
    decreases n,
{
    if n == 0 {
        Ok((seq![], pos))
    } else {
        match question_at(buf, pos) {
            Err(e) => Err(e),
            Ok((q, p)) => match questions_at(buf, p, (n - 1) as nat) {
                Err(e) => Err(e),
                Ok((qs, e)) => Ok((seq![q] + qs, e)),
            },
        }
    }
}

pub open spec fn answers_at(buf: Seq<u8>, pos: int, n: nat) -> Result<
    (Seq<AnswerView>, int),
    ParseError,
>
    decreases n,
{
    if n == 0 {
        Ok((seq![], pos))
    } else {
        match answer_at(buf, pos) {
            Err(e) => Err(e),
            Ok((a, p)) => match answers_at(buf, p, (n - 1) as nat) {
                Err(e) => Err(e),
                Ok((rest, e)) => Ok((seq![a] + rest, e)),
            },
        }
    }
}

/// The message that `buf` holds: the header, `qdcount` questions, and for a
/// reply `ancount` answers. Authority and additional records are skipped.
pub open spec fn message_at(buf: Seq<u8>) -> Result<MessageView, ParseError> {
    if buf.len() < 12 {
        Err(ParseError::Truncated)
    } else {
        let h = header_at(buf, 0);
        match questions_at(buf, 12, h.qdcount as nat) {
            Err(e) => Err(e),
            Ok((qs, p)) => if h.qr {
                match answers_at(buf, p, h.ancount as nat) {
                    Err(e) => Err(e),
                    Ok((ans, _)) => Ok(
                        MessageView {
                            header: h,
                            questions: qs,
                            answers: ans,
                            msg_type: DnsMessageType::Reply,
                        },
                    ),
                }
            } else {
                Ok(
                    MessageView {
                        header: h,
                        questions: qs,
                        answers: seq![],
                        msg_type: DnsMessageType::Query,
                    },
                )
            },
        }
    }
}

pub open spec fn prepend_labels(acc: Seq<Seq<u8>>, r: Result<Seq<Seq<u8>>, ParseError>) -> Result<
    Seq<Seq<u8>>,
    ParseError,
> {
    match r {
        Ok(l) => Ok(acc + l),
        Err(e) => Err(e),
    }
}

pub open spec fn prepend_items<T>(acc: Seq<T>, r: Result<(Seq<T>, int), ParseError>) -> Result<
    (Seq<T>, int),
    ParseError,
> {
    match r {
        Ok((l, e)) => Ok((acc + l, e)),
        Err(x) => Err(x),
    }
}

impl DnsHeader {
    /// Reads the twelve header bytes at the packet's position; a field the
    /// bytes do not reach is zero.
    pub fn parse(packet: &mut DnsPacket) -> (r: DnsHeader)
        ensures
            r == header_at(old(packet).data(), old(packet).cursor()),
            final(packet).data() == old(packet).data(),
            old(packet).cursor() + 12 <= old(packet).data().len() ==> final(packet).cursor()
                == old(packet).cursor() + 12,
    {
        let ghost data = packet.data();
        let ghost p = packet.cursor();
        let id = match packet.next_u16() {
            Some(w) => w,
            None => 0,
        };
        let w1 = match packet.next_u16() {
            Some(w) => w,
            None => 0,
        };
        let qdcount = match packet.next_u16() {
            Some(w) => w,
            None => 0,
        };
        let ancount = match packet.next_u16() {
            Some(w) => w,
            None => 0,
        };
        let nscount = match packet.next_u16() {
            Some(w) => w,
            None => 0,
        };
        let arcount = match packet.next_u16() {
            Some(w) => w,
            None => 0,
        };
        assert(id == word_at(data, p));
        assert(w1 == word_at(data, p + 2));
        assert(qdcount == word_at(data, p + 4));
        assert(ancount == word_at(data, p + 6));
        assert(nscount == word_at(data, p + 8));
        assert(arcount == word_at(data, p + 10));
        let mut cursor = BitCursor::new();
        cursor.set(w1);
        proof {
            lemma_small_masks();
            lemma_rotl_field(w1, 0, 1);
            lemma_rotl_field(w1, 1, 4);
            lemma_rotl_field(w1, 5, 1);
            lemma_rotl_field(w1, 6, 1);
            lemma_rotl_field(w1, 7, 1);
            lemma_rotl_field(w1, 8, 1);
            lemma_rotl_field(w1, 12, 4);
            assert(w1 >> 0u16 == w1) by (bit_vector);
        }
        let qr = cursor.next_bool();
        let opcode = cursor.next_u4();
        let aa = cursor.next_bool();
        let tc = cursor.next_bool();
        let rd = cursor.next_bool();
        let ra = cursor.next_bool();
        let zw = cursor.read_and_advance(3);
        assert(zw < 8) by (bit_vector)
            requires
                zw == (w1 >> 4u16) & 7,
        ;
        let z = zw as u8;
        let rcode = cursor.next_u4();
        DnsHeader {
            id: id,
            qr: qr,
            opcode: opcode,
            aa: aa,
            tc: tc,
            rd: rd,
            ra: ra,
            z: z,
            rcode: rcode,
            qdcount: qdcount,
            ancount: ancount,
            nscount: nscount,
            arcount: arcount,
        }
    }
}

pub open spec fn labels_view_of(labels: Seq<Vec<u8>>) -> Seq<Seq<u8>> {
    labels.map_values(|l: Vec<u8>| l@)
}

impl DnsName {
    /// Whether a length byte introduces a compression pointer.
    pub fn is_pointer(byte: u8) -> (r: bool)
        ensures
            r == (byte >= 0xc0),
    {
        assert((byte & 0xc0u8 == 0xc0u8) == (byte >= 0xc0u8)) by (bit_vector);
        byte & 0b1100_0000 == 0b1100_0000
    }

    /// The 14-bit offset a pointer word carries.
    pub fn parse_offset(word: u16) -> (r: u16)
        ensures
            r == word & 0x3fff,
    {
        word & 0b0011_1111_1111_1111
    }

    /// A label of `len` bytes at the packet's position.
    pub fn parse_label(packet: &mut DnsPacket, len: usize) -> (r: Result<Vec<u8>, ParseError>)
        ensures
            final(packet).data() == old(packet).data(),
            old(packet).cursor() + len <= old(packet).data().len() ==> (match r {
                Ok(l) => l@ == old(packet).data().subrange(
                    old(packet).cursor(),
                    old(packet).cursor() + len,
                ),
                Err(_) => false,
            }) && final(packet).cursor() == old(packet).cursor() + len,
            old(packet).cursor() + len > old(packet).data().len() ==> r == Err::<
                Vec<u8>,
                ParseError,
            >(ParseError::Truncated),
    {
        let total = packet.len();
        let pos = packet.pos();
        if pos > total || total - pos < len {
            return Err(ParseError::Truncated);
        }
        let label = packet.next_bytes(len);
        Ok(label)
    }

    /// Reads a name, following compression pointers that point strictly
    /// backwards. Afterwards the packet stands after the name as it appears
    /// in place: past its zero byte, or past its first pointer.
    pub fn parse(packet: &mut DnsPacket) -> (r: Result<DnsName, ParseError>)
        ensures
            final(packet).data() == old(packet).data(),
            match name_at(old(packet).data(), old(packet).cursor(), old(packet).cursor()) {
                Ok(l) => (match r {
                    Ok(n) => n@ == l,
                    Err(_) => false,
                }) && final(packet).cursor() == name_end(
                    old(packet).data(),
                    old(packet).cursor(),
                ),
                Err(e) => r == Err::<DnsName, ParseError>(e),
            },
    {
        let ghost data = packet.data();
        let start = packet.pos();
        if start >= packet.len() {
            return Err(ParseError::Truncated);
        }
        let mut limit: usize = start;
        let mut labels: Vec<Vec<u8>> = Vec::new();
        let mut end: usize = 0;
        let mut jumped = false;
        loop
            invariant_except_break
                name_at(data, start as int, start as int) == prepend_labels(
                    labels@.map_values(|l: Vec<u8>| l@),
                    name_at(data, packet.cursor(), limit as int),
                ),
                !jumped ==> name_end(data, start as int) == name_end(data, packet.cursor())
                    && limit == start,
            invariant
                packet.data() == data,
                data == old(packet).data(),
                start == old(packet).cursor(),
                start < data.len(),
                limit <= data.len(),
                packet.cursor() <= data.len(),
                jumped ==> name_end(data, start as int) == end && end <= data.len(),
            ensures
                name_at(data, start as int, start as int) == Ok::<Seq<Seq<u8>>, ParseError>(
                    labels@.map_values(|l: Vec<u8>| l@),
                ),
                !jumped ==> name_end(data, start as int) == packet.cursor(),
            decreases limit, data.len() - packet.cursor(),
        {
            let b = match packet.peek_u8() {
                Some(b) => b,
                None => {
                    return Err(ParseError::Truncated);
                },
            };
            if b == 0 {
                packet.next_u8();
                assert(labels@.map_values(|l: Vec<u8>| l@) + Seq::<Seq<u8>>::empty()
                    =~= labels@.map_values(|l: Vec<u8>| l@));
                break ;
            }
            if Self::is_pointer(b) {
                let word = match packet.next_u16() {
                    Some(w) => w,
                    None => {
                        return Err(ParseError::Truncated);
                    },
                };
                let offset = Self::parse_offset(word) as usize;
                if offset >= limit {
                    return Err(ParseError::PointerLoop);
                }
                if !jumped {
                    end = packet.pos();
                    jumped = true;
                }
                limit = offset;
                packet.seek(offset);
            } else if b >= 0x40 {
                return Err(ParseError::MalformedLabel);
            } else {
                packet.next_u8();
                let label = match Self::parse_label(packet, b as usize) {
                    Ok(l) => l,
                    Err(e) => {
                        return Err(e);
                    },
                };
                let ghost prev = labels@.map_values(|l: Vec<u8>| l@);
                let ghost lv = label@;
                labels.push(label);
                assert(labels@.map_values(|l: Vec<u8>| l@) =~= prev.push(lv));
                assert(forall|x: Seq<Seq<u8>>| #![auto] prev + (seq![lv] + x) =~= prev.push(lv) + x);
            }
        }
        if jumped {
            packet.seek(end);
        }
        let name = DnsName::from(labels);
        assert(name@ =~= labels_view_of(labels@));
        Ok(name)
    }
}

impl DnsQuestion {
    pub fn parse(packet: &mut DnsPacket) -> (r: Result<DnsQuestion, ParseError>)
        ensures
            final(packet).data() == old(packet).data(),
            match question_at(old(packet).data(), old(packet).cursor()) {
                Ok((q, e)) => (match r {
                    Ok(x) => x@ == q,
                    Err(_) => false,
                }) && final(packet).cursor() == e,
                Err(e) => r == Err::<DnsQuestion, ParseError>(e),
            },
    {
        let qname = match DnsName::parse(packet) {
            Ok(n) => n,
            Err(e) => {
                return Err(e);
            },
        };
        let qtype = match packet.next_u16() {
            Some(v) => v,
            None => {
                return Err(ParseError::Truncated);
            },
        };
        let qclass = match packet.next_u16() {
            Some(v) => v,
            None => {
                return Err(ParseError::Truncated);
            },
        };
        Ok(DnsQuestion::new(qname, qtype, qclass))
    }
}

impl DnsAnswer {
    pub fn parse(packet: &mut DnsPacket) -> (r: Result<DnsAnswer, ParseError>)
        ensures
            final(packet).data() == old(packet).data(),
            match answer_at(old(packet).data(), old(packet).cursor()) {
                Ok((a, e)) => (match r {
                    Ok(x) => x@ == a,
                    Err(_) => false,
                }) && final(packet).cursor() == e,
                Err(e) => r == Err::<DnsAnswer, ParseError>(e),
            },
    {
        let name = match DnsName::parse(packet) {
            Ok(n) => n,
            Err(e) => {
                return Err(e);
            },
        };
        let total = packet.len();
        let pos = packet.pos();
        if pos > total || total - pos < 10 {
            return Err(ParseError::Truncated);
        }
        let atype = match packet.next_u16() {
            Some(v) => v,
            None => {
                return Err(ParseError::Truncated);
            },
        };
        let aclass = match packet.next_u16() {
            Some(v) => v,
            None => {
                return Err(ParseError::Truncated);
            },
        };
        let ttl = match packet.next_u32() {
            Some(v) => v,
            None => {
                return Err(ParseError::Truncated);
            },
        };
        let rdlength = match packet.next_u16() {
            Some(v) => v,
            None => {
                return Err(ParseError::Truncated);
            },
        };
        if total - packet.pos() < rdlength as usize {
            return Err(ParseError::Truncated);
        }
        let ghost p = packet.cursor();
        let rdata = packet.next_bytes(rdlength as usize);
        assert(rdata@ == packet.data().subrange(p, p + rdlength));
        Ok(DnsAnswer::new(name, atype, aclass, ttl, rdlength, rdata))
    }
}

impl DnsMessage {
    pub fn new(
        header: DnsHeader,
        questions: Vec<DnsQuestion>,
        answers: Vec<DnsAnswer>,
        msg_type: DnsMessageType,
    ) -> (r: DnsMessage)
        ensures
            r@ == (MessageView {
                header: header,
                questions: questions_view(questions@),
                answers: answers_view(answers@),
                msg_type: msg_type,
            }),
    {
        DnsMessage { header: header, questions: questions, answers: answers, msg_type: msg_type }
    }

    pub fn new_query(header: DnsHeader, questions: Vec<DnsQuestion>) -> (r: DnsMessage)
        ensures
            r@ == (MessageView {
                header: header,
                questions: questions_view(questions@),
                answers: seq![],
                msg_type: DnsMessageType::Query,
            }),
    {
        let r = Self::new(header, questions, Vec::new(), DnsMessageType::Query);
        assert(r@.answers =~= Seq::<AnswerView>::empty());
        r
    }

    pub fn new_reply(
        header: DnsHeader,
        questions: Vec<DnsQuestion>,
        answers: Vec<DnsAnswer>,
    ) -> (r: DnsMessage)
        ensures
            r@ == (MessageView {
                header: header,
                questions: questions_view(questions@),
                answers: answers_view(answers@),
                msg_type: DnsMessageType::Reply,
            }),
    {
        Self::new(header, questions, answers, DnsMessageType::Reply)
    }

    /// A reply that carries only a header.
    pub fn new_error(header: DnsHeader) -> (r: DnsMessage)
        ensures
            r@ == (MessageView {
                header: header,
                questions: seq![],
                answers: seq![],
                msg_type: DnsMessageType::Reply,
            }),
    {
        let r = Self::new(header, Vec::new(), Vec::new(), DnsMessageType::Reply);
        assert(r@.answers =~= Seq::<AnswerView>::empty());
        assert(r@.questions =~= Seq::<QuestionView>::empty());
        r
    }

    pub fn first_question(&self) -> (r: Option<&DnsQuestion>)
        ensures
            match r {
                Some(q) => self.questions@.len() > 0 && *q == self.questions@[0],
                None => self.questions@.len() == 0,
            },
    {
        if self.questions.len() == 0 {
            None
        } else {
            Some(&self.questions[0])
        }
    }

    pub fn first_answer(&self) -> (r: Option<&DnsAnswer>)
        ensures
            match r {
                Some(a) => self.answers@.len() > 0 && *a == self.answers@[0],
                None => self.answers@.len() == 0,
            },
    {
        if self.answers.len() == 0 {
            None
        } else {
            Some(&self.answers[0])
        }
    }

    pub fn parse_questions(packet: &mut DnsPacket, qdcount: u16) -> (r: Result<
        Vec<DnsQuestion>,
        ParseError,
    >)
        ensures
            final(packet).data() == old(packet).data(),
            match questions_at(old(packet).data(), old(packet).cursor(), qdcount as nat) {
                Ok((qs, e)) => (match r {
                    Ok(v) => questions_view(v@) == qs,
                    Err(_) => false,
                }) && final(packet).cursor() == e,
                Err(e) => r == Err::<Vec<DnsQuestion>, ParseError>(e),
            },
    {
        let ghost data = packet.data();
        let ghost start = packet.cursor();
        let mut questions: Vec<DnsQuestion> = Vec::new();
        let mut i: u16 = 0;
        while i < qdcount
            invariant
                packet.data() == data,
                data == old(packet).data(),
                start == old(packet).cursor(),
                i <= qdcount,
                questions_at(data, start, qdcount as nat) == prepend_items(
                    questions_view(questions@),
                    questions_at(data, packet.cursor(), (qdcount - i) as nat),
                ),
            decreases qdcount - i,
        {
            let q = match DnsQuestion::parse(packet) {
                Ok(q) => q,
                Err(e) => {
                    return Err(e);
                },
            };
            let ghost prev = questions_view(questions@);
            let ghost qv = q@;
            questions.push(q);
            assert(questions_view(questions@) =~= prev.push(qv));
            assert(forall|x: Seq<QuestionView>| #![auto] prev + (seq![qv] + x) =~= prev.push(qv) + x);
            i = i + 1;
        }
        assert(questions_view(questions@) + Seq::<QuestionView>::empty() =~= questions_view(
            questions@,
        ));
        Ok(questions)
    }

    pub fn parse_answers(packet: &mut DnsPacket, ancount: u16) -> (r: Result<
        Vec<DnsAnswer>,
        ParseError,
    >)
        ensures
            final(packet).data() == old(packet).data(),
            match answers_at(old(packet).data(), old(packet).cursor(), ancount as nat) {
                Ok((a, e)) => (match r {
                    Ok(v) => answers_view(v@) == a,
                    Err(_) => false,
                }) && final(packet).cursor() == e,
                Err(e) => r == Err::<Vec<DnsAnswer>, ParseError>(e),
            },
    {
        let ghost data = packet.data();
        let ghost start = packet.cursor();
        let mut answers: Vec<DnsAnswer> = Vec::new();
        let mut i: u16 = 0;
        while i < ancount
            invariant
                packet.data() == data,
                data == old(packet).data(),
                start == old(packet).cursor(),
                i <= ancount,
                answers_at(data, start, ancount as nat) == prepend_items(
                    answers_view(answers@),
                    answers_at(data, packet.cursor(), (ancount - i) as nat),
                ),
            decreases ancount - i,
        {
            let a = match DnsAnswer::parse(packet) {
                Ok(a) => a,
                Err(e) => {
                    return Err(e);
                },
            };
            let ghost prev = answers_view(answers@);
            let ghost av = a@;
            answers.push(a);
            assert(answers_view(answers@) =~= prev.push(av));
            assert(forall|x: Seq<AnswerView>| #![auto] prev + (seq![av] + x) =~= prev.push(av) + x);
            i = i + 1;
        }
        assert(answers_view(answers@) + Seq::<AnswerView>::empty() =~= answers_view(answers@));
        Ok(answers)
    }

    /// Decodes a whole message. Fails on truncated input, on a malformed
    /// label and on a compression pointer that does not point backwards.
    pub fn parse(buf: &[u8]) -> (r: Result<DnsMessage, ParseError>)
        ensures
            match message_at(buf@) {
                Ok(m) => (match r {
                    Ok(x) => x@ == m,
                    Err(_) => false,
                }),
                Err(e) => r == Err::<DnsMessage, ParseError>(e),
            },
    {
        if buf.len() < 12 {
            return Err(ParseError::Truncated);
        }
        let mut packet = DnsPacket::new(buf);
        let header = DnsHeader::parse(&mut packet);
        let questions = match Self::parse_questions(&mut packet, header.qdcount) {
            Ok(q) => q,
            Err(e) => {
                return Err(e);
            },
        };
        if header.qr {
            let answers = match Self::parse_answers(&mut packet, header.ancount) {
                Ok(a) => a,
                Err(e) => {
                    return Err(e);
                },
            };
            Ok(Self::new_reply(header, questions, answers))
        } else {
            Ok(Self::new_query(header, questions))
        }
    }
}

impl IntoBytes for DnsMessage {
    open spec fn wire(&self) -> Seq<u8> {
        message_wire(self@)
    }

    /// Writes the header, at most the first question, and for a reply the
    /// answers.
    fn write(&self, out: &mut Vec<u8>) -> (n: usize) {
        let start = out.len();
        let ghost before = out@;
        let mut header = self.header;
        header.qdcount = if self.questions.len() > 0 {
            1
        } else {
            0
        };
        assert(header == emitted_header(self@));
        header.write(out);
        if self.questions.len() > 0 {
            self.questions[0].write(out);
        }
        let ghost mid = out@;
        if self.msg_type == DnsMessageType::Reply {
            let mut i: usize = 0;
            while i < self.answers.len()
                invariant
                    i <= self.answers@.len(),
                    out@ == mid + answers_wire(answers_view(self.answers@).subrange(0, i as int)),
                decreases self.answers@.len() - i,
            {
                self.answers[i].write(out);
                let ghost s = answers_view(self.answers@).subrange(0, i + 1);
                assert(s.drop_last() =~= answers_view(self.answers@).subrange(0, i as int));
                assert(out@ =~= mid + answers_wire(s));
                i = i + 1;
            }
            assert(answers_view(self.answers@).subrange(0, self.answers@.len() as int)
                =~= answers_view(self.answers@));
        }
        assert(out@ =~= before + message_wire(self@));
        out.len() - start
    }

    fn to_bytes(&self) -> (r: Vec<u8>) {
        let mut buf: Vec<u8> = Vec::new();
        self.write(&mut buf);
        assert(buf@ =~= self.wire());
        buf
    }
}

/// The message decoder as a stand-alone entry point.
#[derive(Debug)]
pub struct DnsParser;

impl DnsParser {
    pub fn parse(buf: &[u8]) -> (r: Result<DnsMessage, ParseError>)
        ensures
            match message_at(buf@) {
                Ok(m) => (match r {
                    Ok(x) => x@ == m,
                    Err(_) => false,
                }),
                Err(e) => r == Err::<DnsMessage, ParseError>(e),
            },
    {
        DnsMessage::parse(buf)
    }
}

} // verus!
