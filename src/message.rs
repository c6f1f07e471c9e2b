//! DNS messages: header, questions, answers and names, with their
//! mathematical views and their wire encoding.

use vstd::prelude::*;
use crate::bit_cursor::{BitCursor, rotr, low_mask};
use crate::text::text_from_bytes;

verus! {

/// Response codes used by this server.
pub const RCODE_FORMERR: u8 = 1;

pub const RCODE_SERVFAIL: u8 = 2;

#[derive(Debug, Clone, Copy, PartialEq, Eq, Structural)]
pub enum DnsMessageType {
    Query,
    Reply,
}

#[derive(Debug, Clone, Copy, PartialEq, Eq, Structural)]
pub struct DnsHeader {
    pub id: u16,
    pub qr: bool,
    pub opcode: u8,
    pub aa: bool,
    pub tc: bool,
    pub rd: bool,
    pub ra: bool,
    pub z: u8,
    pub rcode: u8,
    pub qdcount: u16,
    pub ancount: u16,
    pub nscount: u16,
    pub arcount: u16,
}

/// A domain name as its sequence of labels, each a run of bytes.
#[derive(Debug, Clone)]
pub struct DnsName {
    labels: Vec<Vec<u8>>,
}

#[derive(Debug, Clone)]
pub struct DnsQuestion {
    pub qname: DnsName,
    pub qtype: u16,
    pub qclass: u16,
}

#[derive(Debug, Clone)]
pub struct DnsAnswer {
    pub name: DnsName,
    pub atype: u16,
    pub aclass: u16,
    pub ttl: u32,
    pub rdlength: u16,
    pub rdata: Vec<u8>,
}

#[derive(Debug, Clone)]
pub struct DnsMessage {
    pub header: DnsHeader,
    pub questions: Vec<DnsQuestion>,
    pub answers: Vec<DnsAnswer>,
    pub msg_type: DnsMessageType,
}

/// What a question is, mathematically.
pub struct QuestionView {
    pub qname: Seq<Seq<u8>>,
    pub qtype: u16,
    pub qclass: u16,
}

/// What an answer record is, mathematically.
pub struct AnswerView {
    pub name: Seq<Seq<u8>>,
    pub atype: u16,
    pub aclass: u16,
    pub ttl: u32,
    pub rdlength: u16,
    pub rdata: Seq<u8>,
}

/// What a message is, mathematically.
pub struct MessageView {
    pub header: DnsHeader,
    pub questions: Seq<QuestionView>,
    pub answers: Seq<AnswerView>,
    pub msg_type: DnsMessageType,
}

impl View for DnsName {
    type V = Seq<Seq<u8>>;

    closed spec fn view(&self) -> Seq<Seq<u8>> {
        self.labels@.map_values(|l: Vec<u8>| l@)
    }
}

impl View for DnsQuestion {
    type V = QuestionView;

    open spec fn view(&self) -> QuestionView {
        QuestionView { qname: self.qname@, qtype: self.qtype, qclass: self.qclass }
    }
}

impl View for DnsAnswer {
    type V = AnswerView;

    open spec fn view(&self) -> AnswerView {
        AnswerView {
            name: self.name@,
            atype: self.atype,
            aclass: self.aclass,
            ttl: self.ttl,
            rdlength: self.rdlength,
            rdata: self.rdata@,
        }
    }
}

pub open spec fn questions_view(qs: Seq<DnsQuestion>) -> Seq<QuestionView> {
    qs.map_values(|q: DnsQuestion| q@)
}

pub open spec fn answers_view(a: Seq<DnsAnswer>) -> Seq<AnswerView> {
    a.map_values(|x: DnsAnswer| x@)
}

impl View for DnsMessage {
    type V = MessageView;

    open spec fn view(&self) -> MessageView {
        MessageView {
            header: self.header,
            questions: questions_view(self.questions@),
            answers: answers_view(self.answers@),
            msg_type: self.msg_type,
        }
    }
}

// ---------------------------------------------------------------------------
// Wire encoding
/// A 16-bit value as two big-endian bytes.
pub open spec fn u16_wire(v: u16) -> Seq<u8> {
    seq![(v / 256) as u8, (v % 256) as u8]
}

/// A 32-bit value as four big-endian bytes.
pub open spec fn u32_wire(v: u32) -> Seq<u8> {
    seq![(v / 0x100_0000) as u8, (v / 0x1_0000 % 256) as u8, (v / 256 % 256) as u8, (v % 256) as u8]
}

pub open spec fn bit(b: bool) -> u16 {
    if b {
        1
    } else {
        0
    }
}

/// The second word of the header: qr(1) opcode(4) aa(1) tc(1) rd(1) ra(1)
/// z(3) rcode(4), most significant bit first.
pub open spec fn flags_word(h: DnsHeader) -> u16 {
    (bit(h.qr) << 15u16 | ((h.opcode as u16) & 0xf) << 11u16 | bit(h.aa) << 10u16 | bit(h.tc)
        << 9u16 | bit(h.rd) << 8u16 | bit(h.ra) << 7u16 | ((h.z as u16) & 7) << 4u16 | ((
    h.rcode as u16) & 0xf)) as u16
}

pub open spec fn header_wire(h: DnsHeader) -> Seq<u8> {
    u16_wire(h.id) + u16_wire(flags_word(h)) + u16_wire(h.qdcount) + u16_wire(h.ancount)
        + u16_wire(h.nscount) + u16_wire(h.arcount)
}

/// One label: its length byte, then its bytes.
pub open spec fn label_wire(l: Seq<u8>) -> Seq<u8> {
    seq![l.len() as u8] + l
}

/// The labels one after another, without the terminating zero.
pub open spec fn labels_body(labels: Seq<Seq<u8>>) -> Seq<u8>
    decreases labels.len(),
{
    if labels.len() == 0 {
        seq![]
    } else {
        label_wire(labels[0]) + labels_body(labels.drop_first())
    }
}

/// An uncompressed name: its labels, then a zero byte.
pub open spec fn name_wire(labels: Seq<Seq<u8>>) -> Seq<u8> {
    labels_body(labels) + seq![0u8]
}

pub open spec fn question_wire(q: QuestionView) -> Seq<u8> {
    name_wire(q.qname) + u16_wire(q.qtype) + u16_wire(q.qclass)
}

pub open spec fn answer_wire(a: AnswerView) -> Seq<u8> {
    name_wire(a.name) + u16_wire(a.atype) + u16_wire(a.aclass) + u32_wire(a.ttl) + u16_wire(
        a.rdlength,
    ) + a.rdata
}

pub open spec fn answers_wire(a: Seq<AnswerView>) -> Seq<u8>
    decreases a.len(),
{
    if a.len() == 0 {
        seq![]
    } else {
        answers_wire(a.drop_last()) + answer_wire(a.last())
    }
}

/// The header as it is emitted: the question count is 0 or 1.
pub open spec fn emitted_header(m: MessageView) -> DnsHeader {
    DnsHeader {
        qdcount: if m.questions.len() > 0 {
            1
        } else {
            0
        },
        ..m.header
    }
}

/// A message on the wire: header, at most the first question, and the
/// answers of a reply. Names are not compressed.
pub open spec fn message_wire(m: MessageView) -> Seq<u8> {
    header_wire(emitted_header(m)) + (if m.questions.len() > 0 {
        question_wire(m.questions[0])
    } else {
        seq![]
    }) + (if m.msg_type == DnsMessageType::Reply {
        answers_wire(m.answers)
    } else {
        seq![]
    })
}

/// Values that can be written out in wire format.
pub trait IntoBytes {
    spec fn wire(&self) -> Seq<u8>;

    /// Appends the encoding to `out` and returns how many bytes it took.
    fn write(&self, out: &mut Vec<u8>) -> (n: usize)
        ensures
            final(out)@ == old(out)@ + self.wire(),
            n == self.wire().len(),
    ;

    fn to_bytes(&self) -> (r: Vec<u8>)
        ensures
            r@ == self.wire(),
    ;
}

fn push_u16(out: &mut Vec<u8>, v: u16)
    ensures
        final(out)@ == old(out)@ + u16_wire(v),
{
    out.push((v / 256) as u8);
    out.push((v % 256) as u8);
    assert(final(out)@ =~= old(out)@ + u16_wire(v));
}

fn push_u32(out: &mut Vec<u8>, v: u32)
    ensures
        final(out)@ == old(out)@ + u32_wire(v),
{
    out.push((v / 0x100_0000) as u8);
    out.push((v / 0x1_0000 % 256) as u8);
    out.push((v / 256 % 256) as u8);
    out.push((v % 256) as u8);
    assert(final(out)@ =~= old(out)@ + u32_wire(v));
}

fn push_bytes(out: &mut Vec<u8>, bytes: &[u8])
    ensures
        final(out)@ == old(out)@ + bytes@,
{
    let ghost start = out@;
    let mut i: usize = 0;
    while i < bytes.len()
        invariant
            i <= bytes@.len(),
            out@ == start + bytes@.subrange(0, i as int),
        decreases bytes@.len() - i,
    {
        out.push(bytes[i]);
        assert(out@ =~= start + bytes@.subrange(0, i + 1));
        i = i + 1;
    }
    assert(bytes@.subrange(0, bytes@.len() as int) =~= bytes@);
}

/// Placing a value of `n` bits through a rotation is a plain left shift.
proof fn lemma_rotr_place(v: u16, n: u32, p: u32)
    requires
        1 <= n <= 16,
        p + n <= 16,
        v & low_mask(n) == v,
    ensures
        rotr(v, (p + n) as u32) == (v << (16 - p - n) as u16) as u16,
{
    let k = (p + n) as u16;
    let nn = n as u16;
    if k == 16 {
        assert(v << 0u16 == v) by (bit_vector);
    } else {
        assert(nn < 16);
        assert(1 <= nn <= k < 16 && v & (0xffffu16 >> (16 - nn) as u16) == v ==> ((v >> k) | (v
            << (16 - k) as u16)) as u16 == (v << (16 - k) as u16) as u16) by (bit_vector);
    }
}

impl DnsHeader {
    /// The header of an error reply to a request with header
    /// `request_header`.
    pub open spec fn error_of(request_header: DnsHeader, rcode: u8) -> DnsHeader {
        DnsHeader {
            id: request_header.id,
            qr: true,
            opcode: request_header.opcode,
            aa: request_header.aa,
            tc: false,
            rd: request_header.rd,
            ra: true,
            z: 0,
            rcode: rcode,
            qdcount: 0,
            ancount: 0,
            nscount: 0,
            arcount: 0,
        }
    }

    pub fn new_error(request_header: DnsHeader, rcode: u8) -> (r: DnsHeader)
        ensures
            r == DnsHeader::error_of(request_header, rcode),
    {
        DnsHeader {
            id: request_header.id,
            qr: true,
            opcode: request_header.opcode,
            aa: request_header.aa,
            tc: false,
            rd: request_header.rd,
            ra: true,
            z: 0,
            rcode: rcode,
            qdcount: 0,
            ancount: 0,
            nscount: 0,
            arcount: 0,
        }
    }

    /// Packs the flag fields into the second header word.
    pub fn flags(&self) -> (r: u16)
        ensures
            r == flags_word(*self),
    {
        proof {
            crate::bit_cursor::lemma_small_masks();
        }
        let o8 = self.opcode;
        let z8 = self.z;
        let r8 = self.rcode;
        let op = (o8 as u16) & 0xf;
        let zz = (z8 as u16) & 7;
        let rc = (r8 as u16) & 0xf;
        let qrb: u16 = if self.qr {
            1
        } else {
            0
        };
        let aab: u16 = if self.aa {
            1
        } else {
            0
        };
        let tcb: u16 = if self.tc {
            1
        } else {
            0
        };
        let rdb: u16 = if self.rd {
            1
        } else {
            0
        };
        let rab: u16 = if self.ra {
            1
        } else {
            0
        };
        assert(op & 0xf == op && zz & 7 == zz && rc & 0xf == rc) by (bit_vector)
            requires
                op == (o8 as u16) & 0xf,
                zz == (z8 as u16) & 7,
                rc == (r8 as u16) & 0xf,
        ;
        assert(qrb & 1 == qrb && aab & 1 == aab && tcb & 1 == tcb && rdb & 1 == rdb && rab & 1
            == rab) by (bit_vector)
            requires
                qrb <= 1,
                aab <= 1,
                tcb <= 1,
                rdb <= 1,
                rab <= 1,
        ;
        let mut cursor = BitCursor::new();
        cursor.write_bool(self.qr);
        proof {
            lemma_rotr_place(qrb, 1, 0);
        }
        cursor.write_u4(op as u8);
        proof {
            lemma_rotr_place(op, 4, 1);
        }
        cursor.write_bool(self.aa);
        proof {
            lemma_rotr_place(aab, 1, 5);
        }
        cursor.write_bool(self.tc);
        proof {
            lemma_rotr_place(tcb, 1, 6);
        }
        cursor.write_bool(self.rd);
        proof {
            lemma_rotr_place(rdb, 1, 7);
        }
        cursor.write_bool(self.ra);
        proof {
            lemma_rotr_place(rab, 1, 8);
        }
        cursor.write_and_advance(3, zz);
        proof {
            lemma_rotr_place(zz, 3, 9);
        }
        cursor.write_u4(rc as u8);
        proof {
            lemma_rotr_place(rc, 4, 12);
        }
        cursor.seek(0);
        let w = cursor.next_u16();
        assert(w == (((((((0u16 | (qrb << 15u16) as u16) | (op << 11u16) as u16) | (aab
            << 10u16) as u16) | (tcb << 9u16) as u16) | (rdb << 8u16) as u16) | (rab
            << 7u16) as u16) | (zz << 4u16) as u16) | (rc << 0u16) as u16);
        assert((((((((0u16 | (qrb << 15u16) as u16) | (op << 11u16) as u16) | (aab << 10u16) as u16)
            | (tcb << 9u16) as u16) | (rdb << 8u16) as u16) | (rab << 7u16) as u16) | (zz
            << 4u16) as u16) | (rc << 0u16) as u16 == (qrb << 15u16 | op << 11u16 | aab << 10u16
            | tcb << 9u16 | rdb << 8u16 | rab << 7u16 | zz << 4u16 | rc) as u16) by (bit_vector);
        w
    }
}

impl IntoBytes for DnsHeader {
    open spec fn wire(&self) -> Seq<u8> {
        header_wire(*self)
    }

    fn write(&self, out: &mut Vec<u8>) -> (n: usize) {
        let start = out.len();
        push_u16(out, self.id);
        let flags = self.flags();
        push_u16(out, flags);
        push_u16(out, self.qdcount);
        push_u16(out, self.ancount);
        push_u16(out, self.nscount);
        push_u16(out, self.arcount);
        assert(out@ =~= old(out)@ + header_wire(*self));
        out.len() - start
    }

    fn to_bytes(&self) -> (r: Vec<u8>) {
        let mut buf: Vec<u8> = Vec::new();
        self.write(&mut buf);
        assert(buf@ =~= self.wire());
        buf
    }
}

/// Appending one more label to the body.
proof fn lemma_labels_body_push(labels: Seq<Seq<u8>>, l: Seq<u8>)
    ensures
        labels_body(labels.push(l)) == labels_body(labels) + label_wire(l),
    decreases labels.len(),
{
    if labels.len() == 0 {
        assert(labels.push(l).drop_first() =~= Seq::<Seq<u8>>::empty());
        assert(labels.push(l)[0] == l);
        assert(labels_body(Seq::<Seq<u8>>::empty()) == Seq::<u8>::empty());
        assert(labels_body(labels.push(l)) =~= label_wire(l));
    } else {
        assert(labels.push(l).drop_first() =~= labels.drop_first().push(l));
        lemma_labels_body_push(labels.drop_first(), l);
        assert(labels_body(labels.push(l)) =~= labels_body(labels) + label_wire(l));
    }
}

/// The labels joined with dots.
pub open spec fn dotted(labels: Seq<Seq<u8>>) -> Seq<u8>
    decreases labels.len(),
{
    if labels.len() == 0 {
        seq![]
    } else if labels.len() == 1 {
        labels[0]
    } else {
        dotted(labels.drop_last()) + seq![0x2eu8] + labels.last()
    }
}

/// Splitting text on dots: the labels completed so far and the one in
/// progress.
pub open spec fn split_state(b: Seq<u8>) -> (Seq<Seq<u8>>, Seq<u8>)
    decreases b.len(),
{
    if b.len() == 0 {
        (seq![], seq![])
    } else {
        let (done, cur) = split_state(b.drop_last());
        if b.last() == 0x2eu8 {
            if cur.len() > 0 {
                (done.push(cur), seq![])
            } else {
                (done, seq![])
            }
        } else {
            (done, cur.push(b.last()))
        }
    }
}

/// The non-empty dot-separated pieces of `b`.
pub open spec fn labels_of_text(b: Seq<u8>) -> Seq<Seq<u8>> {
    let (done, cur) = split_state(b);
    if cur.len() > 0 {
        done.push(cur)
    } else {
        done
    }
}

impl DnsName {
    /// Every label holds 1 to 63 bytes, so that it is encoded as a plain
    /// length byte.
    pub open spec fn labels_valid(labels: Seq<Seq<u8>>) -> bool {
        forall|i: int| 0 <= i < labels.len() ==> 1 <= #[trigger] labels[i].len() <= 63
    }

    pub fn from(labels: Vec<Vec<u8>>) -> (r: DnsName)
        ensures
            r@ == labels@.map_values(|l: Vec<u8>| l@),
    {
        DnsName { labels: labels }
    }

    /// The name with no labels.
    pub fn root() -> (r: DnsName)
        ensures
            r@ == Seq::<Seq<u8>>::empty(),
    {
        let r = DnsName { labels: Vec::new() };
        assert(r@ =~= Seq::<Seq<u8>>::empty());
        r
    }

    /// The dot-separated labels of `string`; empty pieces are dropped, so
    /// `"example.com."` and `"example.com"` give the same name.
    pub fn from_string(string: String) -> (r: DnsName)
        ensures
            r@ == labels_of_text(vstd::utf8::encode_utf8(string@)),
    {
        let bytes = string.as_str().as_bytes();
        let mut labels: Vec<Vec<u8>> = Vec::new();
        let mut cur: Vec<u8> = Vec::new();
        let mut i: usize = 0;
        while i < bytes.len()
            invariant
                i <= bytes@.len(),
                split_state(bytes@.subrange(0, i as int)) == (
                    labels@.map_values(|l: Vec<u8>| l@),
                    cur@,
                ),
            decreases bytes@.len() - i,
        {
            let b = bytes[i];
            let ghost prefix = bytes@.subrange(0, i + 1);
            assert(prefix.drop_last() =~= bytes@.subrange(0, i as int));
            if b == 0x2e {
                if cur.len() > 0 {
                    let done = cur;
                    labels.push(done);
                    cur = Vec::new();
                } else {
                    cur = Vec::new();
                }
            } else {
                cur.push(b);
            }
            assert(cur@ =~= split_state(prefix).1);
            assert(labels@.map_values(|l: Vec<u8>| l@) =~= split_state(prefix).0);
            i = i + 1;
        }
        assert(bytes@.subrange(0, bytes@.len() as int) =~= bytes@);
        if cur.len() > 0 {
            labels.push(cur);
        }
        let r = DnsName { labels: labels };
        assert(r@ =~= labels_of_text(bytes@));
        r
    }

    /// The labels joined with dots, as text.
    pub fn to_string(&self) -> (r: String)
        ensures
            vstd::utf8::valid_utf8(dotted(self@)) ==> r@ == vstd::utf8::decode_utf8(
                dotted(self@),
            ),
    {
        let mut out: Vec<u8> = Vec::new();
        let mut i: usize = 0;
        while i < self.labels.len()
            invariant
                i <= self@.len(),
                self@.len() == self.labels@.len(),
                out@ == dotted(self@.subrange(0, i as int)),
            decreases self@.len() - i,
        {
            if i > 0 {
                out.push(0x2e);
            }
            push_bytes(&mut out, self.labels[i].as_slice());
            let ghost next = self@.subrange(0, i + 1);
            assert(next.drop_last() =~= self@.subrange(0, i as int));
            assert(next.last() == self.labels@[i as int]@);
            assert(out@ =~= dotted(next));
            i = i + 1;
        }
        assert(self@.subrange(0, self@.len() as int) =~= self@);
        text_from_bytes(out.as_slice())
    }

    /// An independent copy of the name.
    pub fn copy(&self) -> (r: DnsName)
        ensures
            r@ == self@,
    {
        let mut labels: Vec<Vec<u8>> = Vec::new();
        let mut i: usize = 0;
        while i < self.labels.len()
            invariant
                i <= self.labels@.len(),
                labels@.map_values(|l: Vec<u8>| l@) =~= self@.subrange(0, i as int),
                self@.len() == self.labels@.len(),
            decreases self.labels@.len() - i,
        {
            let mut l: Vec<u8> = Vec::new();
            push_bytes(&mut l, self.labels[i].as_slice());
            assert(l@ =~= self@[i as int]);
            let ghost prev = labels@;
            labels.push(l);
            assert(labels@.map_values(|l: Vec<u8>| l@) =~= prev.map_values(|l: Vec<u8>| l@).push(
                self@[i as int],
            ));
            assert(self@.subrange(0, i + 1) =~= self@.subrange(0, i as int).push(self@[i as int]));
            i = i + 1;
        }
        let r = DnsName { labels: labels };
        assert(r@ =~= self@);
        r
    }
}

impl IntoBytes for DnsName {
    open spec fn wire(&self) -> Seq<u8> {
        name_wire(self@)
    }

    fn write(&self, out: &mut Vec<u8>) -> (n: usize) {
        let start = out.len();
        let ghost before = out@;
        let mut i: usize = 0;
        while i < self.labels.len()
            invariant
                i <= self@.len(),
                self@.len() == self.labels@.len(),
                out@ == before + labels_body(self@.subrange(0, i as int)),
                start == before.len(),
            decreases self@.len() - i,
        {
            let label = &self.labels[i];
            out.push(label.len() as u8);
            push_bytes(out, label.as_slice());
            proof {
                lemma_labels_body_push(self@.subrange(0, i as int), self@[i as int]);
                assert(self@.subrange(0, i as int).push(self@[i as int]) =~= self@.subrange(
                    0,
                    i + 1,
                ));
            }
            assert(out@ =~= before + labels_body(self@.subrange(0, i + 1)));
            i = i + 1;
        }
        out.push(0);
        assert(self@.subrange(0, self@.len() as int) =~= self@);
        assert(out@ =~= before + name_wire(self@));
        out.len() - start
    }

    fn to_bytes(&self) -> (r: Vec<u8>) {
        let mut buf: Vec<u8> = Vec::new();
        self.write(&mut buf);
        assert(buf@ =~= self.wire());
        buf
    }
}

impl DnsQuestion {
    pub fn new(qname: DnsName, qtype: u16, qclass: u16) -> (r: DnsQuestion)
        ensures
            r@ == (QuestionView { qname: qname@, qtype: qtype, qclass: qclass }),
    {
        DnsQuestion { qname: qname, qtype: qtype, qclass: qclass }
    }

    pub fn copy(&self) -> (r: DnsQuestion)
        ensures
            r@ == self@,
    {
        DnsQuestion { qname: self.qname.copy(), qtype: self.qtype, qclass: self.qclass }
    }
}

impl IntoBytes for DnsQuestion {
    open spec fn wire(&self) -> Seq<u8> {
        question_wire(self@)
    }

    fn write(&self, out: &mut Vec<u8>) -> (n: usize) {
        let start = out.len();
        self.qname.write(out);
        push_u16(out, self.qtype);
        push_u16(out, self.qclass);
        assert(out@ =~= old(out)@ + question_wire(self@));
        out.len() - start
    }

    fn to_bytes(&self) -> (r: Vec<u8>) {
        let mut buf: Vec<u8> = Vec::new();
        self.write(&mut buf);
        assert(buf@ =~= self.wire());
        buf
    }
}

impl DnsAnswer {
    pub fn new(
        name: DnsName,
        atype: u16,
        aclass: u16,
        ttl: u32,
        rdlength: u16,
        rdata: Vec<u8>,
    ) -> (r: DnsAnswer)
        ensures
            r@ == (AnswerView {
                name: name@,
                atype: atype,
                aclass: aclass,
                ttl: ttl,
                rdlength: rdlength,
                rdata: rdata@,
            }),
    {
        DnsAnswer {
            name: name,
            atype: atype,
            aclass: aclass,
            ttl: ttl,
            rdlength: rdlength,
            rdata: rdata,
        }
    }

    pub fn copy(&self) -> (r: DnsAnswer)
        ensures
            r@ == self@,
    {
        let mut rdata: Vec<u8> = Vec::new();
        push_bytes(&mut rdata, self.rdata.as_slice());
        DnsAnswer {
            name: self.name.copy(),
            atype: self.atype,
            aclass: self.aclass,
            ttl: self.ttl,
            rdlength: self.rdlength,
            rdata: rdata,
        }
    }
}

impl IntoBytes for DnsAnswer {
    open spec fn wire(&self) -> Seq<u8> {
        answer_wire(self@)
    }

    fn write(&self, out: &mut Vec<u8>) -> (n: usize) {
        let start = out.len();
        self.name.write(out);
        push_u16(out, self.atype);
        push_u16(out, self.aclass);
        push_u32(out, self.ttl);
        push_u16(out, self.rdlength);
        push_bytes(out, self.rdata.as_slice());
        assert(out@ =~= old(out)@ + answer_wire(self@));
        out.len() - start
    }

    fn to_bytes(&self) -> (r: Vec<u8>) {
        let mut buf: Vec<u8> = Vec::new();
        self.write(&mut buf);
        assert(buf@ =~= self.wire());
        buf
    }
}

/// ASCII upper-case letters folded to lower case; other bytes kept.
pub open spec fn lower_byte(b: u8) -> u8 {
    if 0x41 <= b <= 0x5a {
        (b + 32) as u8
    } else {
        b
    }
}

pub open spec fn lower_label(l: Seq<u8>) -> Seq<u8> {
    l.map_values(|b: u8| lower_byte(b))
}

/// The name with every label folded to lower case.
pub open spec fn lower_labels(labels: Seq<Seq<u8>>) -> Seq<Seq<u8>> {
    labels.map_values(|l: Seq<u8>| lower_label(l))
}

impl DnsName {
    /// The same name with ASCII letters folded to lower case, the form in
    /// which names are compared.
    pub fn to_lowercase(&self) -> (r: DnsName)
        ensures
            r@ == lower_labels(self@),
    {
        let mut labels: Vec<Vec<u8>> = Vec::new();
        let mut i: usize = 0;
        while i < self.labels.len()
            invariant
                i <= self.labels@.len(),
                self@.len() == self.labels@.len(),
                labels@.map_values(|l: Vec<u8>| l@) =~= lower_labels(self@).subrange(0, i as int),
            decreases self.labels@.len() - i,
        {
            let src = &self.labels[i];
            let mut l: Vec<u8> = Vec::new();
            let mut j: usize = 0;
            while j < src.len()
                invariant
                    j <= src@.len(),
                    src@ == self@[i as int],
                    l@ =~= lower_label(src@).subrange(0, j as int),
                decreases src@.len() - j,
            {
                let b = src[j];
                let c = if 0x41 <= b && b <= 0x5a {
                    b + 32
                } else {
                    b
                };
                l.push(c);
                j = j + 1;
            }
            assert(l@ =~= lower_labels(self@)[i as int]);
            let ghost prev = labels@;
            labels.push(l);
            assert(labels@.map_values(|l: Vec<u8>| l@) =~= prev.map_values(|l: Vec<u8>| l@).push(
                lower_labels(self@)[i as int],
            ));
            i = i + 1;
        }
        let r = DnsName { labels: labels };
        assert(r@ =~= lower_labels(self@));
        r
    }

    /// Whether the two names have the same labels, byte for byte.
    pub fn same_as(&self, other: &DnsName) -> (r: bool)
        ensures
            r == (self@ == other@),
    {
        if self.labels.len() != other.labels.len() {
            assert(self@.len() != other@.len());
            return false;
        }
        let mut i: usize = 0;
        while i < self.labels.len()
            invariant
                i <= self.labels@.len(),
                self.labels@.len() == other.labels@.len(),
                self@.len() == self.labels@.len(),
                other@.len() == other.labels@.len(),
                forall|k: int| 0 <= k < i ==> self@[k] == other@[k],
            decreases self.labels@.len() - i,
        {
            let a = &self.labels[i];
            let b = &other.labels[i];
            if a.len() != b.len() {
                assert(self@[i as int].len() != other@[i as int].len());
                return false;
            }
            let mut j: usize = 0;
            while j < a.len()
                invariant
                    j <= a@.len(),
                    a@.len() == b@.len(),
                    a@ == self@[i as int],
                    b@ == other@[i as int],
                    forall|k: int| 0 <= k < j ==> a@[k] == b@[k],
                decreases a@.len() - j,
            {
                if a[j] != b[j] {
                    assert(self@[i as int][j as int] != other@[i as int][j as int]);
                    return false;
                }
                j = j + 1;
            }
            assert(a@ =~= b@);
            i = i + 1;
        }
        assert(self@ =~= other@);
        true
    }
}

} // verus!
