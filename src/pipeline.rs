//! The answer pipeline: parse, then the authority table, then the cache;
//! the first stage that has a reply ends it, and a request that none
//! answers is forwarded upstream.

use vstd::prelude::*;
use crate::authority::{Master, RecordKey, RecordView, find_record, lemma_found_record_in_table};
use crate::cache::{Cache, CacheEntry, CacheKey, EntryView, found, key_of, remaining_secs};
use crate::codec::message_at;
use crate::message::{
    AnswerView, DnsAnswer, DnsHeader, DnsMessage, DnsQuestion, IntoBytes, MessageView,
    QuestionView, RCODE_FORMERR, answers_view, message_wire, questions_view,
};
use crate::request::{RawRequest, Response, ResponseView, Source, error_reply, error_response, opt_response_view};

verus! {

/// The reply from the authority table to question `q` of query `m`.
pub open spec fn authoritative_message(m: MessageView, q: QuestionView, rec: RecordView) -> MessageView {
    MessageView {
        header: DnsHeader { qr: true, aa: true, ra: true, rcode: 0, qdcount: 1, ancount: 1, ..m.header },
        questions: seq![q],
        answers: seq![
            AnswerView {
                name: q.qname,
                atype: rec.typex,
                aclass: rec.class,
                ttl: rec.ttl,
                rdlength: rec.rdata.len() as u16,
                rdata: rec.rdata,
            },
        ],
        msg_type: crate::message::DnsMessageType::Reply,
    }
}

/// An answer with its TTL brought down to what is left of the entry's life.
pub open spec fn aged_answer(a: AnswerView, remaining: u64) -> AnswerView {
    AnswerView {
        ttl: if (a.ttl as u64) <= remaining {
            a.ttl
        } else {
            remaining as u32
        },
        ..a
    }
}

/// The reply from cache entry `e` to query `m` at `now`.
pub open spec fn cached_message(m: MessageView, e: EntryView, now: u64) -> MessageView {
    MessageView {
        header: DnsHeader { qr: true, ra: true, rcode: 0, ancount: e.answers.len() as u16, ..m.header },
        questions: m.questions,
        answers: e.answers.map_values(|a: AnswerView| aged_answer(a, remaining_secs(e.expiry, now))),
        msg_type: crate::message::DnsMessageType::Reply,
    }
}

pub open spec fn reply_view(token: usize, msg: MessageView, source: Source) -> ResponseView {
    ResponseView { token: token, bytes: message_wire(msg), msg: msg, source: source }
}

/// What the authority stage answers to the parsed query `query`.
pub open spec fn authority_result(
    query: Option<MessageView>,
    auth: Seq<RecordView>,
    token: usize,
) -> Option<ResponseView> {
    match query {
        Some(m) => if m.questions.len() > 0 {
            let q = m.questions[0];
            match find_record(auth, q.qname, q.qtype, q.qclass) {
                Some(rec) => Some(
                    reply_view(token, authoritative_message(m, q, rec), Source::Authoritive),
                ),
                None => None,
            }
        } else {
            None
        },
        None => None,
    }
}

/// What the cache stage answers to the parsed query `query` at `now`.
pub open spec fn cache_result(
    query: Option<MessageView>,
    cache: Seq<EntryView>,
    now: u64,
    token: usize,
) -> Option<ResponseView> {
    match query {
        Some(m) => if m.questions.len() > 0 {
            let q = m.questions[0];
            match found(cache, key_of(q.qname, q.qtype, q.qclass), now) {
                Some(e) => if e.answers.len() <= 0xffff {
                    Some(reply_view(token, cached_message(m, e, now), Source::Cache))
                } else {
                    None
                },
                None => None,
            }
        } else {
            None
        },
        None => None,
    }
}

/// What the whole pipeline answers to `bytes`: a FORMERR reply when they do
/// not parse, else the authority's reply, else the cache's; nothing means
/// the request goes upstream.
pub open spec fn pipeline_result(
    bytes: Seq<u8>,
    auth: Seq<RecordView>,
    cache: Seq<EntryView>,
    now: u64,
    token: usize,
) -> Option<ResponseView> {
    match message_at(bytes) {
        Err(_) => Some(error_reply(token, bytes, RCODE_FORMERR)),
        Ok(m) => match authority_result(Some(m), auth, token) {
            Some(r) => Some(r),
            None => cache_result(Some(m), cache, now, token),
        },
    }
}

pub open spec fn opt_message_view(m: Option<DnsMessage>) -> Option<MessageView> {
    match m {
        Some(x) => Some(x@),
        None => None,
    }
}

#[derive(Debug, Clone, Copy, PartialEq, Eq, Structural)]
pub enum Stage {
    Parse,
    Authority,
    Cache,
    Forward,
}

/// Copies of the questions.
fn copy_questions(qs: &Vec<DnsQuestion>) -> (r: Vec<DnsQuestion>)
    ensures
        questions_view(r@) == questions_view(qs@),
{
    let mut out: Vec<DnsQuestion> = Vec::new();
    let mut i: usize = 0;
    while i < qs.len()
        invariant
            i <= qs@.len(),
            questions_view(out@) =~= questions_view(qs@).subrange(0, i as int),
        decreases qs@.len() - i,
    {
        let q = qs[i].copy();
        let ghost prev = questions_view(out@);
        out.push(q);
        assert(questions_view(out@) =~= prev.push(qs@[i as int]@));
        i = i + 1;
    }
    assert(questions_view(qs@).subrange(0, qs@.len() as int) =~= questions_view(qs@));
    out
}

/// Sets every answer's TTL to at most `ttl`.
pub fn adjust_ttl(ttl: u64, answers: &mut Vec<DnsAnswer>)
    ensures
        answers_view(final(answers)@) == answers_view(old(answers)@).map_values(
            |a: AnswerView| aged_answer(a, ttl),
        ),
{
    let ghost orig = answers_view(answers@);
    let mut i: usize = 0;
    while i < answers.len()
        invariant
            i <= answers@.len(),
            answers@.len() == orig.len(),
            forall|j: int| 0 <= j < i ==> #[trigger] answers_view(answers@)[j] == aged_answer(orig[j], ttl),
            forall|j: int| i <= j < answers@.len() ==> #[trigger] answers_view(answers@)[j] == orig[j],
        decreases answers@.len() - i,
    {
        let old_ttl = answers[i].ttl;
        let new_ttl: u32 = if (old_ttl as u64) <= ttl {
            old_ttl
        } else {
            ttl as u32
        };
        let ghost before = answers@;
        assert(answers_view(before)[i as int] == orig[i as int]);
        assert(before[i as int]@ == orig[i as int]);
        assert(old_ttl == orig[i as int].ttl);
        answers[i].ttl = new_ttl;
        assert(answers@[i as int].name == before[i as int].name);
        assert(answers@[i as int].rdata == before[i as int].rdata);
        assert(answers@[i as int]@ =~= aged_answer(orig[i as int], ttl));
        assert forall|j: int| 0 <= j < answers@.len() && j != i implies #[trigger] answers_view(
            answers@,
        )[j] == answers_view(before)[j] by {
            assert(answers@[j] == before[j]);
        }
        assert(answers_view(answers@)[i as int] == aged_answer(orig[i as int], ttl));
        i = i + 1;
    }
    assert(answers_view(answers@) =~= orig.map_values(|a: AnswerView| aged_answer(a, ttl)));
}

impl Stage {
    /// Runs one stage on the request.
    pub fn process(
        &self,
        request: &mut RawRequest,
        authority: &Master,
        cache: &Cache,
        now: u64,
    ) -> (r: Option<Response>)
        requires
            authority.wf(),
            cache.wf(),
        ensures
            final(request).token == old(request).token,
            final(request).bytes == old(request).bytes,
            *self == Stage::Parse ==> match message_at(old(request).bytes@) {
                Ok(m) => r is None && opt_message_view(final(request).query) == Some(m),
                Err(_) => opt_response_view(r) == Some(
                    error_reply(old(request).token, old(request).bytes@, RCODE_FORMERR),
                ),
            },
            *self != Stage::Parse ==> final(request).query == old(request).query,
            *self == Stage::Authority ==> opt_response_view(r) == authority_result(
                opt_message_view(old(request).query),
                authority@,
                old(request).token,
            ),
            *self == Stage::Cache ==> opt_response_view(r) == cache_result(
                opt_message_view(old(request).query),
                cache@,
                now,
                old(request).token,
            ),
            *self == Stage::Forward ==> r is None,
    {
        match self {
            Stage::Parse => {
                match DnsMessage::parse(request.bytes.as_slice()) {
                    Ok(m) => {
                        request.query = Some(m);
                        None
                    },
                    Err(_) => Some(
                        error_response(request.token, request.bytes.as_slice(), RCODE_FORMERR),
                    ),
                }
            },
            Stage::Authority => Self::get_authoritive(request, authority),
            Stage::Cache => Self::get_cached(request, cache, now),
            Stage::Forward => None,
        }
    }

    fn get_authoritive(request: &RawRequest, authority: &Master) -> (r: Option<Response>)
        requires
            authority.wf(),
        ensures
            opt_response_view(r) == authority_result(
                opt_message_view(request.query),
                authority@,
                request.token,
            ),
    {
        let query = match &request.query {
            Some(q) => q,
            None => {
                return None;
            },
        };
        let question = match query.first_question() {
            Some(q) => q,
            None => {
                return None;
            },
        };
        assert(question@ == query@.questions[0]);
        let key = RecordKey { name: question.qname.copy(), typex: question.qtype, class: question.qclass };
        let rec = match authority.get(&key) {
            Some(rec) => rec,
            None => {
                return None;
            },
        };
        proof {
            lemma_found_record_in_table(authority@, key.name@, key.typex, key.class);
        }
        let ghost rv = rec@;
        assert(authority@.contains(rv));
        assert(rec.rdata@.len() <= 0xffff);
        let mut header = query.header;
        header.qr = true;
        header.aa = true;
        header.ra = true;
        header.rcode = 0;
        header.qdcount = 1;
        header.ancount = 1;
        let mut rdata: Vec<u8> = Vec::new();
        let mut i: usize = 0;
        while i < rec.rdata.len()
            invariant
                i <= rec.rdata@.len(),
                rdata@ == rec.rdata@.subrange(0, i as int),
            decreases rec.rdata@.len() - i,
        {
            rdata.push(rec.rdata[i]);
            assert(rdata@ =~= rec.rdata@.subrange(0, i + 1));
            i = i + 1;
        }
        assert(rdata@ =~= rec.rdata@);
        let rdlength = rec.rdata.len() as u16;
        let answer = DnsAnswer::new(
            question.qname.copy(),
            rec.typex,
            rec.class,
            rec.ttl,
            rdlength,
            rdata,
        );
        let mut questions: Vec<DnsQuestion> = Vec::new();
        questions.push(question.copy());
        let mut answers: Vec<DnsAnswer> = Vec::new();
        answers.push(answer);
        let msg = DnsMessage::new_reply(header, questions, answers);
        assert(msg@.questions =~= seq![question@]);
        assert(msg@.answers =~= authoritative_message(query@, question@, rv).answers);
        assert(msg@ == authoritative_message(query@, question@, rv));
        let bytes = msg.to_bytes();
        Some(Response::with_source(request.token, bytes, msg, Source::Authoritive))
    }

    fn get_cached(request: &RawRequest, cache: &Cache, now: u64) -> (r: Option<Response>)
        requires
            cache.wf(),
        ensures
            opt_response_view(r) == cache_result(
                opt_message_view(request.query),
                cache@,
                now,
                request.token,
            ),
    {
        let query = match &request.query {
            Some(q) => q,
            None => {
                return None;
            },
        };
        let question = match query.first_question() {
            Some(q) => q,
            None => {
                return None;
            },
        };
        assert(question@ == query@.questions[0]);
        let key = CacheKey::from(question);
        let entry = match cache.get_at(&key, now) {
            Some(e) => e,
            None => {
                return None;
            },
        };
        let cached = entry.answer_list();
        if cached.len() > 0xffff {
            return None;
        }
        let ghost ev = entry@;
        let mut header = query.header;
        header.qr = true;
        header.ra = true;
        header.rcode = 0;
        header.ancount = cached.len() as u16;
        let mut answers = crate::cache::copy_answers(cached);
        adjust_ttl(entry.calc_ttl(now), &mut answers);
        let questions = copy_questions(&query.questions);
        let msg = DnsMessage::new_reply(header, questions, answers);
        assert(msg@.answers =~= cached_message(query@, ev, now).answers);
        assert(msg@ == cached_message(query@, ev, now));
        let bytes = msg.to_bytes();
        Some(Response::with_source(request.token, bytes, msg, Source::Cache))
    }
}

/// The stages in the order they run.
pub struct RequestPipeline {
    stages: Vec<Stage>,
}

impl RequestPipeline {
    pub closed spec fn stage_list(&self) -> Seq<Stage> {
        self.stages@
    }

    pub open spec fn wf(&self) -> bool {
        self.stage_list() == seq![Stage::Parse, Stage::Authority, Stage::Cache, Stage::Forward]
    }

    pub fn new() -> (r: RequestPipeline)
        ensures
            r.wf(),
    {
        let mut stages: Vec<Stage> = Vec::new();
        stages.push(Stage::Parse);
        stages.push(Stage::Authority);
        stages.push(Stage::Cache);
        stages.push(Stage::Forward);
        let r = RequestPipeline { stages: stages };
        assert(r.stage_list() =~= seq![Stage::Parse, Stage::Authority, Stage::Cache, Stage::Forward]);
        r
    }

    /// Runs the stages in order until one replies.
    pub fn process(
        &self,
        request: &mut RawRequest,
        authority: &Master,
        cache: &Cache,
        now: u64,
    ) -> (r: Option<Response>)
        requires
            self.wf(),
            authority.wf(),
            cache.wf(),
        ensures
            opt_response_view(r) == pipeline_result(
                old(request).bytes@,
                authority@,
                cache@,
                now,
                old(request).token,
            ),
            final(request).token == old(request).token,
            final(request).bytes == old(request).bytes,
            message_at(old(request).bytes@) is Ok ==> opt_message_view(final(request).query)
                == Some(message_at(old(request).bytes@)->Ok_0),
    {
        let ghost bytes = request.bytes@;
        let ghost token = request.token;
        let mut i: usize = 0;
        while i < self.stages.len()
            invariant
                self.wf(),
                authority.wf(),
                cache.wf(),
                i <= 4,
                self.stages@.len() == 4,
                request.token == token,
                token == old(request).token,
                request.bytes == old(request).bytes,
                bytes == old(request).bytes@,
                self.stage_list() == self.stages@,
                bytes == request.bytes@,
                i >= 1 ==> message_at(bytes) is Ok && opt_message_view(request.query) == Some(
                    message_at(bytes)->Ok_0,
                ),
                i >= 2 ==> authority_result(opt_message_view(request.query), authority@, token)
                    is None,
                i >= 3 ==> cache_result(opt_message_view(request.query), cache@, now, token)
                    is None,
            decreases 4 - i,
        {
            let stage = self.stages[i];
            assert(stage == self.stage_list()[i as int]);
            assert(i == 0 ==> stage == Stage::Parse);
            assert(i == 1 ==> stage == Stage::Authority);
            assert(i == 2 ==> stage == Stage::Cache);
            assert(i == 3 ==> stage == Stage::Forward);
            if let Some(response) = stage.process(request, authority, cache, now) {
                return Some(response);
            }
            i = i + 1;
        }
        None
    }
}

impl Default for RequestPipeline {
    fn default() -> (r: RequestPipeline)
        ensures
            r.wf(),
    {
        RequestPipeline::new()
    }
}

} // verus!
