//! A listener's share of the event loop: it runs the pipeline on each
//! request, keeps the requests forwarded upstream, and queues replies for
//! its socket. Sockets and timers belong to the caller.

use vstd::prelude::*;
use crate::authority::Master;
use crate::cache::{Cache, CacheEntry, EntryView, entry_of_reply, upserted};
use crate::message::RCODE_SERVFAIL;
use crate::pipeline::{RequestPipeline, pipeline_result};
use crate::request::{
    ForwardedRequestBase, ForwardedRequestState, Interest, MAX_MESSAGE_LEN, RawRequest, Response,
    ResponseView, SocketType, Source, Step, TcpRequestFactory, UdpRequestFactory, error_reply,
    error_response, opt_response_view, reply_after_receive, reply_after_timeout,
    state_after_receive, state_after_timeout,
};

verus! {

pub const TCP_SERVER_TOKEN: usize = 0;

pub const UDP_SERVER_TOKEN: usize = 1;

/// Request tokens are numbered from just above this.
pub const REQUEST_TOKEN_START: usize = 10;

/// What happened to a request handed to `process`.
#[derive(Debug, Clone, Copy, PartialEq, Eq, Structural)]
pub enum ProcessOutcome {
    /// A reply was queued.
    Answered,
    /// The request now waits on the upstream resolver under this token.
    Forwarded(usize),
    /// Too short to carry an id: dropped without a reply.
    Dropped,
}

/// What the upstream socket or timer of a forwarded request reported.
pub enum UpstreamEvent {
    Opened,
    OpenFailed,
    Sent(usize),
    SendFailed,
    Received(Vec<u8>),
    ReceiveFailed,
    TimedOut,
}

/// The socket and timer work that follows an upstream event.
#[derive(Debug, Clone, Copy, PartialEq, Eq, Structural)]
pub struct Action {
    pub interest: Interest,
    pub arm_timeout: bool,
    pub cancel_timeout: bool,
    /// The request is over; its socket can be closed.
    pub finished: bool,
}

pub open spec fn is_terminal(s: ForwardedRequestState) -> bool {
    s == ForwardedRequestState::ResponseReceived || s == ForwardedRequestState::Error
}

/// The state a request moves to on an event.
pub open spec fn state_after(req: ForwardedRequestBase, ev: UpstreamEvent) -> ForwardedRequestState {
    let s = req.state;
    match ev {
        UpstreamEvent::Opened => if s == ForwardedRequestState::New {
            ForwardedRequestState::Accepted
        } else {
            s
        },
        UpstreamEvent::OpenFailed => if s == ForwardedRequestState::New {
            ForwardedRequestState::Error
        } else {
            s
        },
        UpstreamEvent::Sent(n) => if s == ForwardedRequestState::Accepted && n > 0 {
            ForwardedRequestState::Forwarded
        } else {
            s
        },
        UpstreamEvent::SendFailed => if s == ForwardedRequestState::Accepted {
            ForwardedRequestState::Error
        } else {
            s
        },
        UpstreamEvent::Received(b) => state_after_receive(s, req.transport, b@),
        UpstreamEvent::ReceiveFailed => if s == ForwardedRequestState::Forwarded {
            ForwardedRequestState::Error
        } else {
            s
        },
        UpstreamEvent::TimedOut => state_after_timeout(s),
    }
}

/// The reply an event produces.
pub open spec fn reply_after(req: ForwardedRequestBase, ev: UpstreamEvent) -> Option<ResponseView> {
    let s = req.state;
    let fail = Some(error_reply(req.token, req.query_buf@, RCODE_SERVFAIL));
    match ev {
        UpstreamEvent::Opened => None,
        UpstreamEvent::OpenFailed => if s == ForwardedRequestState::New {
            fail
        } else {
            None
        },
        UpstreamEvent::Sent(_) => None,
        UpstreamEvent::SendFailed => if s == ForwardedRequestState::Accepted {
            fail
        } else {
            None
        },
        UpstreamEvent::Received(b) => reply_after_receive(
            s,
            req.token,
            req.transport,
            req.query_buf@,
            b@,
        ),
        UpstreamEvent::ReceiveFailed => if s == ForwardedRequestState::Forwarded {
            fail
        } else {
            None
        },
        UpstreamEvent::TimedOut => reply_after_timeout(s, req.token, req.query_buf@),
    }
}

/// How queueing reply `r` at `now` changes the cache: an upstream reply
/// with answers is stored, anything else leaves it as it was.
pub open spec fn cache_after(old: Seq<EntryView>, new: Seq<EntryView>, r: ResponseView, now: u64) -> bool {
    if r.source == Source::Upstream && r.msg.answers.len() > 0 {
        upserted(old, new, entry_of_reply(r.msg, now), now)
    } else {
        new == old
    }
}

pub open spec fn responses_view(rs: Seq<Response>) -> Seq<ResponseView> {
    rs.map_values(|r: Response| r@)
}

pub struct ServerBase {
    pub forwarded: Vec<ForwardedRequestBase>,
    pub responses: Vec<Response>,
    /// Upstream timeout in milliseconds.
    pub timeout: u64,
    pub transport: SocketType,
    pub server_token: usize,
    pub last_request: usize,
    pub pipeline: RequestPipeline,
    pub max_connections: usize,
}

/// Hands `event` to the request's handler for it.
pub fn apply_event(request: &mut ForwardedRequestBase, event: &UpstreamEvent) -> (r: Step)
    requires
        old(request).wf(),
    ensures
        final(request).wf(),
        final(request).token == old(request).token,
        final(request).state == state_after(*old(request), *event),
        opt_response_view(r.response) == reply_after(*old(request), *event),
{
    match event {
        UpstreamEvent::Opened => request.accept(true),
        UpstreamEvent::OpenFailed => request.accept(false),
        UpstreamEvent::Sent(n) => request.on_forward(*n),
        UpstreamEvent::SendFailed => request.on_forward_err(),
        UpstreamEvent::Received(b) => request.on_receive(b.as_slice()),
        UpstreamEvent::ReceiveFailed => request.on_receive_err(),
        UpstreamEvent::TimedOut => request.on_timeout(),
    }
}

impl ServerBase {
    pub open spec fn limit(&self) -> usize {
        self.max_connections
    }

    pub open spec fn last_token(&self) -> usize {
        self.last_request
    }

    pub open spec fn token(&self) -> usize {
        self.server_token
    }

    pub open spec fn inner_wf(&self) -> bool {
        &&& self.pipeline.wf()
        &&& self.max_connections < usize::MAX
        &&& self.last_request <= if self.max_connections < REQUEST_TOKEN_START {
            REQUEST_TOKEN_START + 1
        } else {
            self.max_connections + 1
        }
    }

    /// Tokens of live requests are distinct, their queries fit a length
    /// prefix, and there are at most `limit()` of them.
    pub open spec fn wf(&self) -> bool {
        &&& self.inner_wf()
        &&& self.forwarded@.len() <= self.limit()
        &&& forall|i: int, j: int|
            0 <= i < j < self.forwarded@.len() ==> self.forwarded@[i].token
                != self.forwarded@[j].token
        &&& forall|i: int| 0 <= i < self.forwarded@.len() ==> #[trigger] self.forwarded@[i].wf()
    }

    /// Whether a live request holds `token`.
    pub open spec fn holds(&self, token: usize) -> bool {
        exists|i: int| 0 <= i < self.forwarded@.len() && self.forwarded@[i].token == token
    }

    pub fn new(transport: SocketType, timeout: u64, token: usize, max_connections: usize) -> (r:
        ServerBase)
        requires
            max_connections < usize::MAX,
        ensures
            r.wf(),
            r.forwarded@.len() == 0,
            r.responses@.len() == 0,
            r.timeout == timeout,
            r.transport == transport,
            r.token() == token,
            r.limit() == max_connections,
    {
        ServerBase {
            forwarded: Vec::new(),
            responses: Vec::new(),
            timeout: timeout,
            transport: transport,
            server_token: token,
            last_request: REQUEST_TOKEN_START,
            pipeline: RequestPipeline::new(),
            max_connections: max_connections,
        }
    }

    pub fn server_token(&self) -> (r: usize)
        ensures
            r == self.token(),
    {
        self.server_token
    }

    /// The next request token: one more than the last, starting again
    /// above `REQUEST_TOKEN_START` once the last passed the connection
    /// limit.
    pub fn next_token(&mut self) -> (r: usize)
        requires
            old(self).wf(),
        ensures
            final(self).wf(),
            r == (if old(self).last_token() > old(self).limit() {
                REQUEST_TOKEN_START
            } else {
                old(self).last_token()
            }) + 1,
            final(self).last_token() == r,
            final(self).forwarded == old(self).forwarded,
            final(self).responses == old(self).responses,
            final(self).limit() == old(self).limit(),
            final(self).timeout == old(self).timeout,
            final(self).transport == old(self).transport,
    {
        if self.last_request > self.max_connections {
            self.last_request = REQUEST_TOKEN_START;
        }
        self.last_request = self.last_request + 1;
        self.last_request
    }

    fn index_of(&self, token: usize) -> (r: Option<usize>)
        ensures
            match r {
                Some(i) => i < self.forwarded@.len() && self.forwarded@[i as int].token == token,
                None => !self.holds(token),
            },
    {
        let mut i: usize = 0;
        while i < self.forwarded.len()
            invariant
                i <= self.forwarded@.len(),
                forall|j: int| 0 <= j < i ==> self.forwarded@[j].token != token,
            decreases self.forwarded@.len() - i,
        {
            if self.forwarded[i].token == token {
                return Some(i);
            }
            i = i + 1;
        }
        None
    }

    /// Whether a live request holds `token`.
    pub fn owns(&self, token: usize) -> (r: bool)
        ensures
            r == self.holds(token),
    {
        self.index_of(token).is_some()
    }

    /// The live request that holds `token`.
    pub fn request(&self, token: usize) -> (r: Option<&ForwardedRequestBase>)
        ensures
            match r {
                Some(x) => self.forwarded@.contains(*x) && x.token == token,
                None => !self.holds(token),
            },
    {
        match self.index_of(token) {
            Some(i) => Some(&self.forwarded[i]),
            None => None,
        }
    }

    /// Queues a reply; an upstream reply with answers is also cached.
    pub fn queue_response(&mut self, cache: &mut Cache, response: Response, now: u64)
        requires
            old(cache).wf(),
        ensures
            final(cache).wf(),
            cache_after(old(cache)@, final(cache)@, response@, now),
            responses_view(final(self).responses@) == responses_view(old(self).responses@).push(
                response@,
            ),
            final(self).forwarded == old(self).forwarded,
            final(self).inner_wf() == old(self).inner_wf(),
            final(self).limit() == old(self).limit(),
            final(self).last_token() == old(self).last_token(),
            final(self).timeout == old(self).timeout,
            final(self).transport == old(self).transport,
    {
        if response.source == Source::Upstream {
            if let Some(entry) = CacheEntry::from_at(&response.msg, now) {
                let key = entry.key_copy();
                cache.upsert_at(key, entry, now);
            }
        }
        let ghost rv = response@;
        let ghost prev = responses_view(self.responses@);
        self.responses.push(response);
        assert(responses_view(self.responses@) =~= prev.push(rv));
    }

    /// A request for the upstream resolver, carrying a copy of `bytes`.
    pub fn build_forward_request(&self, token: usize, bytes: &[u8]) -> (r: ForwardedRequestBase)
        requires
            bytes@.len() <= MAX_MESSAGE_LEN,
        ensures
            r.wf(),
            r == (ForwardedRequestBase {
                token: token,
                state: ForwardedRequestState::New,
                query_buf: r.query_buf,
                timeout_armed: false,
                timeout: self.timeout,
                transport: r.transport,
            }),
            r.query_buf@ == bytes@,
            r.transport == if self.transport.spec_is_tcp() {
                SocketType::TcpV4
            } else {
                SocketType::UdpV4
            },
    {
        let mut buf: Vec<u8> = Vec::new();
        let mut i: usize = 0;
        while i < bytes.len()
            invariant
                i <= bytes@.len(),
                buf@ == bytes@.subrange(0, i as int),
            decreases bytes@.len() - i,
        {
            buf.push(bytes[i]);
            assert(buf@ =~= bytes@.subrange(0, i + 1));
            i = i + 1;
        }
        assert(buf@ =~= bytes@);
        let request = ForwardedRequestBase::new(token, buf, self.timeout, self.transport);
        if self.transport.is_tcp() {
            TcpRequestFactory.new_with(request)
        } else {
            UdpRequestFactory.new_with(request)
        }
    }

    /// Handles a request from a client: replies from the pipeline when it
    /// can, answers SERVFAIL when no more requests can be forwarded, and
    /// otherwise forwards it upstream.
    pub fn process(
        &mut self,
        request: &mut RawRequest,
        authority: &Master,
        cache: &Cache,
        now: u64,
    ) -> (r: ProcessOutcome)
        requires
            old(self).wf(),
            authority.wf(),
            cache.wf(),
            old(request).bytes@.len() <= MAX_MESSAGE_LEN,
        ensures
            final(self).wf(),
            final(self).limit() == old(self).limit(),
            final(self).last_token() == old(self).last_token(),
            final(self).timeout == old(self).timeout,
            final(self).transport == old(self).transport,
            old(request).bytes@.len() < 2 ==> r == ProcessOutcome::Dropped && final(self).forwarded
                == old(self).forwarded && final(self).responses == old(self).responses,
            old(request).bytes@.len() >= 2 ==> match pipeline_result(
                old(request).bytes@,
                authority@,
                cache@,
                now,
                old(request).token,
            ) {
                Some(reply) => r == ProcessOutcome::Answered && final(self).forwarded
                    == old(self).forwarded && responses_view(final(self).responses@)
                    == responses_view(old(self).responses@).push(reply),
                None => if old(self).forwarded@.len() >= old(self).limit() || old(self).holds(
                    old(request).token,
                ) {
                    r == ProcessOutcome::Answered && final(self).forwarded == old(self).forwarded
                        && responses_view(final(self).responses@) == responses_view(
                        old(self).responses@,
                    ).push(error_reply(old(request).token, old(request).bytes@, RCODE_SERVFAIL))
                } else {
                    r == ProcessOutcome::Forwarded(old(request).token) && final(self).responses
                        == old(self).responses && final(self).forwarded@.len()
                        == old(self).forwarded@.len() + 1 && final(self).forwarded@.drop_last()
                        == old(self).forwarded@ && final(self).forwarded@.last().token == old(
                        request,
                    ).token && final(self).forwarded@.last().state == ForwardedRequestState::New
                        && final(self).forwarded@.last().query_buf@ == old(request).bytes@
                },
            },
    {
        if request.bytes.len() < 2 {
            return ProcessOutcome::Dropped;
        }
        if let Some(response) = self.pipeline.process(request, authority, cache, now) {
            let ghost rv = response@;
            let ghost prev = responses_view(self.responses@);
            self.responses.push(response);
            assert(responses_view(self.responses@) =~= prev.push(rv));
            return ProcessOutcome::Answered;
        }
        let token = request.token;
        if self.forwarded.len() >= self.max_connections || self.owns(token) {
            let response = error_response(token, request.bytes.as_slice(), RCODE_SERVFAIL);
            let ghost rv = response@;
            let ghost prev = responses_view(self.responses@);
            self.responses.push(response);
            assert(responses_view(self.responses@) =~= prev.push(rv));
            return ProcessOutcome::Answered;
        }
        let forward = self.build_forward_request(token, request.bytes.as_slice());
        let ghost before = self.forwarded@;
        self.forwarded.push(forward);
        assert(self.forwarded@.drop_last() =~= before);
        assert forall|i: int, j: int| 0 <= i < j < self.forwarded@.len() implies self.forwarded@[i].token
            != self.forwarded@[j].token by {
            if j == before.len() {
                assert(self.forwarded@[i] == before[i]);
            }
        }
        assert forall|i: int| 0 <= i < self.forwarded@.len() implies #[trigger] self.forwarded@[i].wf() by {
            if i < before.len() {
                assert(self.forwarded@[i] == before[i]);
            }
        }
        ProcessOutcome::Forwarded(token)
    }

    /// Hands an upstream event to the request that holds `token`, queues
    /// the reply it produces, and drops the request once it is over.
    #[verifier::rlimit(50)]
    pub fn on_upstream(&mut self, token: usize, event: UpstreamEvent, cache: &mut Cache, now: u64) -> (r:
        Option<Action>)
        requires
            old(self).wf(),
            old(cache).wf(),
        ensures
            final(self).wf(),
            final(cache).wf(),
            final(self).limit() == old(self).limit(),
            final(self).last_token() == old(self).last_token(),
            final(self).timeout == old(self).timeout,
            final(self).transport == old(self).transport,
            !old(self).holds(token) ==> r is None && final(self).forwarded == old(self).forwarded
                && final(self).responses == old(self).responses && final(cache)@ == old(cache)@,
            old(self).holds(token) ==> r is Some && exists|i: int|
                0 <= i < old(self).forwarded@.len() && old(self).forwarded@[i].token == token && {
                    let req = old(self).forwarded@[i];
                    let s = state_after(req, event);
                    let reply = reply_after(req, event);
                    &&& r->Some_0.finished == is_terminal(s)
                    &&& (is_terminal(s) ==> final(self).forwarded@ == old(self).forwarded@.remove(i))
                    &&& (!is_terminal(s) ==> final(self).forwarded@.len() == old(self).forwarded@.len()
                        && final(self).forwarded@[i].state == s && final(self).forwarded@[i].token
                        == token && forall|j: int|
                        0 <= j < old(self).forwarded@.len() && j != i ==> final(self).forwarded@[j]
                            == old(self).forwarded@[j])
                    &&& match reply {
                        Some(rv) => responses_view(final(self).responses@) == responses_view(
                            old(self).responses@,
                        ).push(rv) && cache_after(old(cache)@, final(cache)@, rv, now),
                        None => final(self).responses == old(self).responses && final(cache)@
                            == old(cache)@,
                    }
                },
    {
        let i = match self.index_of(token) {
            Some(i) => i,
            None => {
                return None;
            },
        };
        let ghost req = self.forwarded@[i as int];
        let ghost before = self.forwarded@;
        let mut request = self.forwarded.remove(i);
        assert(request == req);
        assert(before[i as int].wf());
        let step = apply_event(&mut request, &event);
        let finished = request.state == ForwardedRequestState::ResponseReceived || request.state
            == ForwardedRequestState::Error;
        let ghost removed = self.forwarded@;
        assert(removed == before.remove(i as int));
        if !finished {
            self.forwarded.insert(i, request);
            assert(self.forwarded@ =~= removed.insert(i as int, request));
        }
        assert forall|a: int, b: int| 0 <= a < b < self.forwarded@.len() implies self.forwarded@[a].token
            != self.forwarded@[b].token by {
            let a2 = if a < i { a } else { a + 1 };
            let b2 = if b < i { b } else { b + 1 };
            if finished {
                assert(self.forwarded@[a] == before[a2] && self.forwarded@[b] == before[b2]);
            } else {
                assert(self.forwarded@ =~= before.update(i as int, request));
            }
        }
        assert forall|a: int| 0 <= a < self.forwarded@.len() implies #[trigger] self.forwarded@[a].wf() by {
            let a2 = if a < i { a } else { a + 1 };
            if finished {
                assert(self.forwarded@[a] == before[a2]);
            } else {
                assert(self.forwarded@ =~= before.update(i as int, request));
                if a != i {
                    assert(self.forwarded@[a] == before[a]);
                }
            }
        }
        if !finished {
            assert(self.forwarded@ =~= before.update(i as int, request));
        }
        let action = Action {
            interest: step.interest,
            arm_timeout: step.arm_timeout,
            cancel_timeout: step.cancel_timeout,
            finished: finished,
        };
        match step.response {
            Some(response) => self.queue_response(cache, response, now),
            None => {},
        }
        Some(action)
    }

    /// Whether replies wait to be sent, so that the listener should wait
    /// for its socket to be writable.
    pub fn wants_writable(&self) -> (r: bool)
        ensures
            r == (self.responses@.len() > 0),
    {
        self.responses.len() > 0
    }

    /// Takes the oldest queued reply.
    pub fn pop_response(&mut self) -> (r: Option<Response>)
        ensures
            old(self).responses@.len() == 0 ==> r is None && final(self).responses@ == old(
                self,
            ).responses@,
            old(self).responses@.len() > 0 ==> r == Some(old(self).responses@[0])
                && final(self).responses@ == old(self).responses@.drop_first(),
            final(self).forwarded == old(self).forwarded,
            final(self).inner_wf() == old(self).inner_wf(),
            final(self).limit() == old(self).limit(),
            final(self).last_token() == old(self).last_token(),
    {
        if self.responses.len() == 0 {
            return None;
        }
        let r = self.responses.remove(0);
        assert(self.responses@ =~= old(self).responses@.drop_first());
        Some(r)
    }
}

/// The bytes of a TCP message after its two-byte length prefix; nothing
/// when fewer than two bytes arrived.
pub fn strip_length_prefix(buf: &[u8]) -> (r: Vec<u8>)
    ensures
        buf@.len() < 2 ==> r@.len() == 0,
        buf@.len() >= 2 ==> r@ == buf@.subrange(2, buf@.len() as int),
{
    let mut out: Vec<u8> = Vec::new();
    if buf.len() < 2 {
        return out;
    }
    let mut i: usize = 2;
    while i < buf.len()
        invariant
            2 <= i <= buf@.len(),
            out@ == buf@.subrange(2, i as int),
        decreases buf@.len() - i,
    {
        out.push(buf[i]);
        assert(out@ =~= buf@.subrange(2, i + 1));
        i = i + 1;
    }
    out
}

/// Who an event loop token belongs to.
#[derive(Debug, Clone, Copy, PartialEq, Eq, Structural)]
pub enum Route {
    UdpListener,
    TcpListener,
    UdpRequest,
    TcpRequest,
    Unknown,
}

/// Routes a token: the listeners' own tokens first, then the UDP
/// listener's requests, then the TCP listener's.
pub fn route(token: usize, udp: &ServerBase, tcp: &ServerBase) -> (r: Route)
    ensures
        r == if token == UDP_SERVER_TOKEN {
            Route::UdpListener
        } else if token == TCP_SERVER_TOKEN {
            Route::TcpListener
        } else if udp.holds(token) {
            Route::UdpRequest
        } else if tcp.holds(token) {
            Route::TcpRequest
        } else {
            Route::Unknown
        },
{
    if token == UDP_SERVER_TOKEN {
        Route::UdpListener
    } else if token == TCP_SERVER_TOKEN {
        Route::TcpListener
    } else if udp.owns(token) {
        Route::UdpRequest
    } else if tcp.owns(token) {
        Route::TcpRequest
    } else {
        Route::Unknown
    }
}

} // verus!
