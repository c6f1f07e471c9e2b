//! What decoding and encoding promise about each other.

use vstd::prelude::*;
use crate::byte_utils::{be_u16, be_u32};
use crate::codec::{
    answer_at, answers_at, header_at, header_from_words, message_at, name_at, name_end,
    question_at, questions_at, word_at,
};
use crate::message::{
    AnswerView, DnsHeader, DnsMessageType, DnsName, MessageView, QuestionView, answer_wire,
    answers_wire, bit, emitted_header, flags_word, header_wire, label_wire, labels_body,
    message_wire, name_wire, question_wire, u16_wire, u32_wire,
};

verus! {

proof fn lemma_be_u16_of_wire(v: u16)
    ensures
        be_u16(u16_wire(v)[0], u16_wire(v)[1]) == v,
{
}

proof fn lemma_wire_of_be_u16(a: u8, b: u8)
    ensures
        u16_wire(be_u16(a, b)) == seq![a, b],
{
    assert(u16_wire(be_u16(a, b)) =~= seq![a, b]);
}

proof fn lemma_be_u32_of_wire(v: u32)
    ensures
        be_u32(u32_wire(v)[0], u32_wire(v)[1], u32_wire(v)[2], u32_wire(v)[3]) == v,
{
}

/// Reading the flag fields back out of the packed word.
proof fn lemma_flags_decode(h: DnsHeader)
    requires
        h.opcode < 16,
        h.z < 8,
        h.rcode < 16,
    ensures
        header_from_words(h.id, flags_word(h), h.qdcount, h.ancount, h.nscount, h.arcount) == h,
{
    let qb = bit(h.qr);
    let ab = bit(h.aa);
    let tb = bit(h.tc);
    let db = bit(h.rd);
    let rb = bit(h.ra);
    let op = h.opcode as u16;
    let zz = h.z as u16;
    let rc = h.rcode as u16;
    let w = flags_word(h);
    assert(op & 0xf == op && zz & 7 == zz && rc & 0xf == rc) by (bit_vector)
        requires
            op < 16,
            zz < 8,
            rc < 16,
    ;
    assert(w == (qb << 15u16 | op << 11u16 | ab << 10u16 | tb << 9u16 | db << 8u16 | rb << 7u16
        | zz << 4u16 | rc) as u16);
    assert((w >> 15u16) & 1 == qb && (w >> 11u16) & 0xf == op && (w >> 10u16) & 1 == ab && (w
        >> 9u16) & 1 == tb && (w >> 8u16) & 1 == db && (w >> 7u16) & 1 == rb && (w >> 4u16) & 7
        == zz && w & 0xf == rc) by (bit_vector)
        requires
            w == (qb << 15u16 | op << 11u16 | ab << 10u16 | tb << 9u16 | db << 8u16 | rb << 7u16
                | zz << 4u16 | rc) as u16,
            qb <= 1,
            ab <= 1,
            tb <= 1,
            db <= 1,
            rb <= 1,
            op < 16,
            zz < 8,
            rc < 16,
    ;
}

/// Packing the fields read out of a word gives the word back.
proof fn lemma_flags_encode(w: u16, x0: u16, x2: u16, x3: u16, x4: u16, x5: u16)
    ensures
        flags_word(header_from_words(x0, w, x2, x3, x4, x5)) == w,
{
    let h = header_from_words(x0, w, x2, x3, x4, x5);
    let qb = (w >> 15u16) & 1;
    let op = (w >> 11u16) & 0xf;
    let ab = (w >> 10u16) & 1;
    let tb = (w >> 9u16) & 1;
    let db = (w >> 8u16) & 1;
    let rb = (w >> 7u16) & 1;
    let zz = (w >> 4u16) & 7;
    let rc = w & 0xf;
    assert(qb <= 1 && ab <= 1 && tb <= 1 && db <= 1 && rb <= 1 && op < 16 && zz < 8 && rc < 16)
        by (bit_vector)
        requires
            qb == (w >> 15u16) & 1,
            op == (w >> 11u16) & 0xf,
            ab == (w >> 10u16) & 1,
            tb == (w >> 9u16) & 1,
            db == (w >> 8u16) & 1,
            rb == (w >> 7u16) & 1,
            zz == (w >> 4u16) & 7,
            rc == w & 0xf,
    ;
    assert(bit(h.qr) == qb && bit(h.aa) == ab && bit(h.tc) == tb && bit(h.rd) == db && bit(h.ra)
        == rb);
    assert((h.opcode as u16) & 0xf == op && (h.z as u16) & 7 == zz && (h.rcode as u16) & 0xf
        == rc) by {
        let o = h.opcode as u16;
        let z = h.z as u16;
        let r = h.rcode as u16;
        assert(o == op && z == zz && r == rc);
        assert(op & 0xf == op && zz & 7 == zz && rc & 0xf == rc) by (bit_vector)
            requires
                op < 16,
                zz < 8,
                rc < 16,
        ;
    }
    assert((qb << 15u16 | op << 11u16 | ab << 10u16 | tb << 9u16 | db << 8u16 | rb << 7u16 | zz
        << 4u16 | rc) as u16 == w) by (bit_vector)
        requires
            qb == (w >> 15u16) & 1,
            op == (w >> 11u16) & 0xf,
            ab == (w >> 10u16) & 1,
            tb == (w >> 9u16) & 1,
            db == (w >> 8u16) & 1,
            rb == (w >> 7u16) & 1,
            zz == (w >> 4u16) & 7,
            rc == w & 0xf,
    ;
}

/// A header whose fields fit their widths is read back from its encoding.
pub proof fn lemma_header_decode(buf: Seq<u8>, h: DnsHeader)
    requires
        h.opcode < 16,
        h.z < 8,
        h.rcode < 16,
        buf.len() >= 12,
        buf.subrange(0, 12) == header_wire(h),
    ensures
        header_at(buf, 0) == h,
{
    let w = header_wire(h);
    assert(w.len() == 12);
    assert forall|i: int| 0 <= i < 12 implies buf[i] == w[i] by {
        assert(buf.subrange(0, 12)[i] == buf[i]);
    }
    assert(word_at(buf, 0) == h.id);
    assert(word_at(buf, 2) == flags_word(h));
    assert(word_at(buf, 4) == h.qdcount);
    assert(word_at(buf, 6) == h.ancount);
    assert(word_at(buf, 8) == h.nscount);
    assert(word_at(buf, 10) == h.arcount);
    lemma_flags_decode(h);
}

/// The twelve bytes of any header region are the encoding of the header
/// read from them.
pub proof fn lemma_header_encode(buf: Seq<u8>)
    requires
        buf.len() >= 12,
    ensures
        header_wire(header_at(buf, 0)) == buf.subrange(0, 12),
{
    let h = header_at(buf, 0);
    lemma_flags_encode(word_at(buf, 2), word_at(buf, 0), word_at(buf, 4), word_at(buf, 6), word_at(buf, 8), word_at(buf, 10));
    lemma_wire_of_be_u16(buf[0], buf[1]);
    lemma_wire_of_be_u16(buf[2], buf[3]);
    lemma_wire_of_be_u16(buf[4], buf[5]);
    lemma_wire_of_be_u16(buf[6], buf[7]);
    lemma_wire_of_be_u16(buf[8], buf[9]);
    lemma_wire_of_be_u16(buf[10], buf[11]);
    assert(header_wire(h) =~= buf.subrange(0, 12));
}

proof fn lemma_questions_len(buf: Seq<u8>, pos: int, n: nat)
    requires
        questions_at(buf, pos, n) is Ok,
    ensures
        questions_at(buf, pos, n)->Ok_0.0.len() == n,
    decreases n,
{
    if n > 0 {
        let (q, p) = question_at(buf, pos)->Ok_0;
        lemma_questions_len(buf, p, (n - 1) as nat);
    }
}

/// Decoding a message and encoding it again reproduces its twelve header
/// bytes, whenever it asks at most one question.
pub proof fn lemma_reencoded_header(q: Seq<u8>)
    requires
        message_at(q) is Ok,
        q.len() >= 12 ==> be_u16(q[4], q[5]) <= 1,
    ensures
        message_wire(message_at(q)->Ok_0).subrange(0, 12) == q.subrange(0, 12),
{
    let m = message_at(q)->Ok_0;
    let h = header_at(q, 0);
    lemma_questions_len(q, 12, h.qdcount as nat);
    assert(m.questions.len() == h.qdcount);
    assert(emitted_header(m) == h);
    lemma_header_encode(q);
    let w = message_wire(m);
    assert(w.subrange(0, 12) =~= header_wire(h));
}

// ---------------------------------------------------------------------------
// Decoding what was encoded
/// A message that the constructors can build and that the wire can carry:
/// counts agree with the sections, the flag fields fit their widths, the
/// message type agrees with the qr bit, every label holds 1 to 63 bytes and
/// every record's length field is its data length.
pub open spec fn encodable(m: MessageView) -> bool {
    &&& m.header.opcode < 16
    &&& m.header.z < 8
    &&& m.header.rcode < 16
    &&& m.questions.len() == m.header.qdcount
    &&& m.questions.len() <= 1
    &&& (m.msg_type == DnsMessageType::Reply) == m.header.qr
    &&& (m.msg_type == DnsMessageType::Reply ==> m.answers.len() == m.header.ancount)
    &&& (m.msg_type == DnsMessageType::Query ==> m.answers.len() == 0)
    &&& forall|i: int|
        0 <= i < m.questions.len() ==> DnsName::labels_valid(#[trigger] m.questions[i].qname)
    &&& forall|i: int|
        0 <= i < m.answers.len() ==> DnsName::labels_valid(#[trigger] m.answers[i].name)
            && m.answers[i].rdlength == m.answers[i].rdata.len()
}

/// `buf` holds `w` at `pos`.
pub open spec fn holds_at(buf: Seq<u8>, pos: int, w: Seq<u8>) -> bool {
    0 <= pos && pos + w.len() <= buf.len() && buf.subrange(pos, pos + w.len()) == w
}

proof fn lemma_holds_split(buf: Seq<u8>, pos: int, a: Seq<u8>, b: Seq<u8>)
    requires
        holds_at(buf, pos, a + b),
    ensures
        holds_at(buf, pos, a),
        holds_at(buf, pos + a.len(), b),
{
    let ab = a + b;
    assert forall|i: int| 0 <= i < ab.len() implies buf[pos + i] == ab[i] by {
        assert(buf.subrange(pos, pos + ab.len())[i] == buf[pos + i]);
    }
    assert(buf.subrange(pos, pos + a.len()) =~= a);
    assert forall|i: int| 0 <= i < b.len() implies buf[pos + a.len() + i] == b[i] by {
        assert(ab[a.len() + i] == b[i]);
    }
    assert(buf.subrange(pos + a.len(), pos + a.len() + b.len()) =~= b);
}

proof fn lemma_name_decode(buf: Seq<u8>, pos: int, limit: int, labels: Seq<Seq<u8>>)
    requires
        DnsName::labels_valid(labels),
        holds_at(buf, pos, name_wire(labels)),
        limit >= 0,
    ensures
        name_at(buf, pos, limit) == Ok::<Seq<Seq<u8>>, ParseError>(labels),
        name_end(buf, pos) == pos + name_wire(labels).len(),
    decreases labels.len(),
{
    let w = name_wire(labels);
    assert(buf[pos] == w[0]) by {
        assert(buf.subrange(pos, pos + w.len())[0] == buf[pos]);
    }
    if labels.len() == 0 {
        assert(w =~= seq![0u8]);
        assert(labels =~= Seq::<Seq<u8>>::empty());
    } else {
        let l = labels[0];
        let rest = labels.drop_first();
        assert(DnsName::labels_valid(rest)) by {
            assert forall|i: int| 0 <= i < rest.len() implies 1 <= #[trigger] rest[i].len() <= 63 by {
                assert(rest[i] == labels[i + 1]);
            }
        }
        assert(1 <= l.len() <= 63);
        assert(w =~= label_wire(l) + name_wire(rest));
        lemma_holds_split(buf, pos, label_wire(l), name_wire(rest));
        assert(label_wire(l) =~= seq![l.len() as u8] + l);
        lemma_holds_split(buf, pos, seq![l.len() as u8], l);
        assert(buf[pos] == l.len() as u8);
        lemma_name_decode(buf, pos + 1 + l.len(), limit, rest);
        assert(buf.subrange(pos + 1, pos + 1 + l.len()) == l);
        assert(seq![l] + rest =~= labels);
        let n = buf[pos] as int;
        assert(n == l.len());
        assert(buf[pos] != 0 && buf[pos] < 0x40);
        assert(name_at(buf, pos + 1 + n, limit) == Ok::<Seq<Seq<u8>>, ParseError>(rest));
        assert(name_end(buf, pos) == name_end(buf, pos + 1 + n));
    }
}

use crate::codec::ParseError;

proof fn lemma_question_decode(buf: Seq<u8>, pos: int, q: QuestionView)
    requires
        DnsName::labels_valid(q.qname),
        holds_at(buf, pos, question_wire(q)),
    ensures
        question_at(buf, pos) == Ok::<(QuestionView, int), ParseError>(
            (q, pos + question_wire(q).len()),
        ),
{
    let nw = name_wire(q.qname);
    assert(question_wire(q) == nw + (u16_wire(q.qtype) + u16_wire(q.qclass)));
    lemma_holds_split(buf, pos, nw, u16_wire(q.qtype) + u16_wire(q.qclass));
    lemma_name_decode(buf, pos, pos, q.qname);
    let p = pos + nw.len();
    lemma_holds_split(buf, p, u16_wire(q.qtype), u16_wire(q.qclass));
    assert(buf[p] == u16_wire(q.qtype)[0] && buf[p + 1] == u16_wire(q.qtype)[1]) by {
        assert(buf.subrange(p, p + 2)[0] == buf[p]);
        assert(buf.subrange(p, p + 2)[1] == buf[p + 1]);
    }
    assert(buf[p + 2] == u16_wire(q.qclass)[0] && buf[p + 3] == u16_wire(q.qclass)[1]) by {
        assert(buf.subrange(p + 2, p + 4)[0] == buf[p + 2]);
        assert(buf.subrange(p + 2, p + 4)[1] == buf[p + 3]);
    }
    lemma_be_u16_of_wire(q.qtype);
    lemma_be_u16_of_wire(q.qclass);
}

proof fn lemma_answer_decode(buf: Seq<u8>, pos: int, a: AnswerView)
    requires
        DnsName::labels_valid(a.name),
        a.rdlength == a.rdata.len(),
        holds_at(buf, pos, answer_wire(a)),
    ensures
        answer_at(buf, pos) == Ok::<(AnswerView, int), ParseError>(
            (a, pos + answer_wire(a).len()),
        ),
{
    let nw = name_wire(a.name);
    let t = u16_wire(a.atype);
    let c = u16_wire(a.aclass);
    let ttl = u32_wire(a.ttl);
    let rl = u16_wire(a.rdlength);
    let fixed = t + c + ttl + rl;
    assert(answer_wire(a) =~= nw + (fixed + a.rdata));
    lemma_holds_split(buf, pos, nw, fixed + a.rdata);
    lemma_name_decode(buf, pos, pos, a.name);
    let p = pos + nw.len();
    lemma_holds_split(buf, p, fixed, a.rdata);
    assert forall|i: int| 0 <= i < 10 implies buf[p + i] == fixed[i] by {
        assert(buf.subrange(p, p + 10)[i] == buf[p + i]);
    }
    assert(fixed =~= seq![t[0], t[1], c[0], c[1], ttl[0], ttl[1], ttl[2], ttl[3], rl[0], rl[1]]);
    assert(buf[p + 8] == rl[0] && buf[p + 9] == rl[1]);
    assert(buf.subrange(p + 10, p + 10 + a.rdlength) =~= a.rdata);
    lemma_be_u16_of_wire(a.atype);
    lemma_be_u16_of_wire(a.aclass);
    lemma_be_u32_of_wire(a.ttl);
    lemma_be_u16_of_wire(a.rdlength);
    assert(be_u16(buf[p + 8], buf[p + 9]) == a.rdlength);
}

proof fn lemma_answers_wire_front(s: Seq<AnswerView>)
    requires
        s.len() > 0,
    ensures
        answers_wire(s) == answer_wire(s[0]) + answers_wire(s.drop_first()),
    decreases s.len(),
{
    if s.len() == 1 {
        assert(s.drop_last() =~= Seq::<AnswerView>::empty());
        assert(s.drop_first() =~= Seq::<AnswerView>::empty());
        assert(answers_wire(Seq::<AnswerView>::empty()) == Seq::<u8>::empty());
        assert(answers_wire(s.drop_first()) == Seq::<u8>::empty());
        assert(s.last() == s[0]);
        assert(answers_wire(s) =~= answer_wire(s[0]));
    } else {
        lemma_answers_wire_front(s.drop_last());
        assert(s.drop_last().drop_first() =~= s.drop_first().drop_last());
        assert(s.drop_first().last() == s.last());
        assert(answers_wire(s) =~= answer_wire(s[0]) + answers_wire(s.drop_first()));
    }
}

proof fn lemma_answers_decode(buf: Seq<u8>, pos: int, s: Seq<AnswerView>)
    requires
        forall|i: int|
            0 <= i < s.len() ==> DnsName::labels_valid(#[trigger] s[i].name) && s[i].rdlength
                == s[i].rdata.len(),
        holds_at(buf, pos, answers_wire(s)),
    ensures
        answers_at(buf, pos, s.len()) == Ok::<(Seq<AnswerView>, int), ParseError>(
            (s, pos + answers_wire(s).len()),
        ),
    decreases s.len(),
{
    if s.len() == 0 {
        assert(s =~= Seq::<AnswerView>::empty());
    } else {
        lemma_answers_wire_front(s);
        lemma_holds_split(buf, pos, answer_wire(s[0]), answers_wire(s.drop_first()));
        lemma_answer_decode(buf, pos, s[0]);
        let rest = s.drop_first();
        assert forall|i: int| 0 <= i < rest.len() implies DnsName::labels_valid(
            #[trigger] rest[i].name,
        ) && rest[i].rdlength == rest[i].rdata.len() by {
            assert(rest[i] == s[i + 1]);
        }
        lemma_answers_decode(buf, pos + answer_wire(s[0]).len(), rest);
        assert(seq![s[0]] + rest =~= s);
        assert((s.len() - 1) as nat == rest.len());
    }
}

/// Encoding a well-formed message and decoding the bytes gives the same
/// message back.
#[verifier::rlimit(60)]
pub proof fn lemma_decode_encoded(m: MessageView)
    requires
        encodable(m),
    ensures
        message_at(message_wire(m)) == Ok::<MessageView, ParseError>(m),
{
    let buf = message_wire(m);
    let h = m.header;
    assert(emitted_header(m) == h);
    let hw = header_wire(h);
    let qw = if m.questions.len() > 0 {
        question_wire(m.questions[0])
    } else {
        seq![]
    };
    let aw = if m.msg_type == DnsMessageType::Reply {
        answers_wire(m.answers)
    } else {
        seq![]
    };
    assert(buf == hw + qw + aw);
    assert(buf.subrange(0, 12) =~= hw);
    lemma_header_decode(buf, h);
    let p: int = 12 + qw.len() as int;
    if m.questions.len() > 0 {
        assert(holds_at(buf, 12, qw)) by {
            assert(buf.subrange(12, 12 + qw.len() as int) =~= qw);
        }
        lemma_question_decode(buf, 12, m.questions[0]);
        assert(questions_at(buf, 0, 0) == Ok::<(Seq<QuestionView>, int), ParseError>(
            (seq![], 0),
        ));
        assert(questions_at(buf, p, 0) == Ok::<(Seq<QuestionView>, int), ParseError>(
            (seq![], p),
        ));
        assert(seq![m.questions[0]] + Seq::<QuestionView>::empty() =~= m.questions);
        assert(questions_at(buf, 12, 1) == Ok::<(Seq<QuestionView>, int), ParseError>(
            (m.questions, p),
        ));
    } else {
        assert(m.questions =~= Seq::<QuestionView>::empty());
    }
    if m.msg_type == DnsMessageType::Reply {
        assert(holds_at(buf, p, aw)) by {
            assert(buf.subrange(p, p + aw.len() as int) =~= aw);
        }
        lemma_answers_decode(buf, p, m.answers);
    } else {
        assert(m.answers =~= Seq::<AnswerView>::empty());
    }
}

} // verus!
