//! Requests and responses, and the state machine of a request forwarded to
//! the upstream resolver. The machine decides; the caller performs the
//! socket and timer work it asks for and reports what happened.

use vstd::prelude::*;
use crate::codec::{header_at, message_at};
use crate::dns_packet::DnsPacket;
use crate::message::{
    DnsHeader, DnsMessage, DnsMessageType, IntoBytes, MessageView, RCODE_SERVFAIL, message_wire,
};

verus! {

/// Where a response came from; only upstream answers are cached.
#[derive(Debug, Clone, Copy, PartialEq, Eq, Structural)]
pub enum Source {
    System,
    Authoritive,
    Cache,
    Upstream,
}

/// The kind of socket a request travels over.
#[derive(Debug, Clone, Copy, PartialEq, Eq, Structural)]
pub enum SocketType {
    UdpV4,
    UdpV6,
    TcpV4,
    TcpV6,
}

impl SocketType {
    pub open spec fn spec_is_tcp(self) -> bool {
        self == SocketType::TcpV4 || self == SocketType::TcpV6
    }

    pub fn is_tcp(&self) -> (r: bool)
        ensures
            r == self.spec_is_tcp(),
    {
        match self {
            SocketType::TcpV4 | SocketType::TcpV6 => true,
            _ => false,
        }
    }
}

pub struct Response {
    pub token: usize,
    /// The reply as sent, without a TCP length prefix.
    pub bytes: Vec<u8>,
    pub msg: DnsMessage,
    pub source: Source,
}

pub struct ResponseView {
    pub token: usize,
    pub bytes: Seq<u8>,
    pub msg: MessageView,
    pub source: Source,
}

impl View for Response {
    type V = ResponseView;

    open spec fn view(&self) -> ResponseView {
        ResponseView { token: self.token, bytes: self.bytes@, msg: self.msg@, source: self.source }
    }
}

pub open spec fn opt_response_view(r: Option<Response>) -> Option<ResponseView> {
    match r {
        Some(x) => Some(x@),
        None => None,
    }
}

impl Response {
    pub fn with_source(token: usize, bytes: Vec<u8>, msg: DnsMessage, source: Source) -> (r:
        Response)
        ensures
            r@ == (ResponseView { token: token, bytes: bytes@, msg: msg@, source: source }),
    {
        Response { token: token, bytes: bytes, msg: msg, source: source }
    }
}

/// A request as received from a client.
pub struct RawRequest {
    pub token: usize,
    pub bytes: Vec<u8>,
    pub query: Option<DnsMessage>,
}

impl RawRequest {
    pub fn new(token: usize, bytes: Vec<u8>) -> (r: RawRequest)
        ensures
            r.token == token,
            r.bytes@ == bytes@,
            r.query is None,
    {
        RawRequest { token: token, bytes: bytes, query: None }
    }
}

/// The error reply to the request `query`, with the given response code:
/// the id and flags that can be read are copied, both sections are empty.
pub open spec fn error_message(query: Seq<u8>, rcode: u8) -> MessageView {
    MessageView {
        header: DnsHeader::error_of(header_at(query, 0), rcode),
        questions: seq![],
        answers: seq![],
        msg_type: DnsMessageType::Reply,
    }
}

pub open spec fn error_reply(token: usize, query: Seq<u8>, rcode: u8) -> ResponseView {
    ResponseView {
        token: token,
        bytes: message_wire(error_message(query, rcode)),
        msg: error_message(query, rcode),
        source: Source::System,
    }
}

/// Builds the error reply to `query`.
pub fn error_response(token: usize, query: &[u8], rcode: u8) -> (r: Response)
    ensures
        r@ == error_reply(token, query@, rcode),
{
    let mut packet = DnsPacket::new(query);
    let request_header = DnsHeader::parse(&mut packet);
    let header = DnsHeader::new_error(request_header, rcode);
    let msg = DnsMessage::new_error(header);
    let bytes = msg.to_bytes();
    Response::with_source(token, bytes, msg, Source::System)
}

#[derive(Debug, Clone, Copy, PartialEq, Eq, Structural)]
pub enum ForwardedRequestState {
    New,
    Accepted,
    Forwarded,
    ResponseReceived,
    Error,
}

pub type RequestState = ForwardedRequestState;

/// Which readiness the caller should wait for on the upstream socket.
#[derive(Debug, Clone, Copy, PartialEq, Eq, Structural)]
pub enum Interest {
    Nothing,
    Readable,
    Writable,
}

/// What the caller should do when the upstream socket is ready.
#[derive(Debug, Clone, Copy, PartialEq, Eq, Structural)]
pub enum UpstreamIo {
    /// Open the upstream socket and report it with `accept`.
    Open,
    /// Write `query_wire()` and report it with `on_forward`.
    Send,
    /// Read the reply and report it with `on_receive`.
    Receive,
    /// Nothing: the request is finished.
    Idle,
}

/// The outcome of one event: the reply to queue, if any, and the socket and
/// timer work that follows.
pub struct Step {
    pub response: Option<Response>,
    pub interest: Interest,
    pub arm_timeout: bool,
    pub cancel_timeout: bool,
}

impl Step {
    pub open spec fn is_none(&self) -> bool {
        self.response is None && self.interest == Interest::Nothing && !self.arm_timeout
            && !self.cancel_timeout
    }

    pub fn none() -> (r: Step)
        ensures
            r.is_none(),
    {
        Step { response: None, interest: Interest::Nothing, arm_timeout: false, cancel_timeout: false }
    }
}

/// The reply bytes a read delivered, without the TCP length prefix.
pub open spec fn payload_of(transport: SocketType, read: Seq<u8>) -> Seq<u8> {
    if transport.spec_is_tcp() {
        if read.len() >= 2 {
            read.subrange(2, read.len() as int)
        } else {
            seq![]
        }
    } else {
        read
    }
}

/// The state after the upstream socket delivered `read`.
pub open spec fn state_after_receive(
    s: ForwardedRequestState,
    transport: SocketType,
    read: Seq<u8>,
) -> ForwardedRequestState {
    if s != ForwardedRequestState::Forwarded || payload_of(transport, read).len() == 0 {
        s
    } else if message_at(payload_of(transport, read)) is Ok {
        ForwardedRequestState::ResponseReceived
    } else {
        ForwardedRequestState::Error
    }
}

/// The reply that delivery produces.
pub open spec fn reply_after_receive(
    s: ForwardedRequestState,
    token: usize,
    transport: SocketType,
    query: Seq<u8>,
    read: Seq<u8>,
) -> Option<ResponseView> {
    let p = payload_of(transport, read);
    if s != ForwardedRequestState::Forwarded || p.len() == 0 {
        None
    } else {
        match message_at(p) {
            Ok(m) => Some(ResponseView { token: token, bytes: p, msg: m, source: Source::Upstream }),
            Err(_) => Some(error_reply(token, query, RCODE_SERVFAIL)),
        }
    }
}

/// The state after the timer fired.
pub open spec fn state_after_timeout(s: ForwardedRequestState) -> ForwardedRequestState {
    if s == ForwardedRequestState::Forwarded {
        ForwardedRequestState::Error
    } else {
        s
    }
}

pub open spec fn reply_after_timeout(s: ForwardedRequestState, token: usize, query: Seq<u8>) -> Option<
    ResponseView,
> {
    if s == ForwardedRequestState::Forwarded {
        Some(error_reply(token, query, RCODE_SERVFAIL))
    } else {
        None
    }
}

/// A query on its way to the upstream resolver and back.
pub struct ForwardedRequestBase {
    pub token: usize,
    pub state: ForwardedRequestState,
    /// The query without a length prefix.
    pub query_buf: Vec<u8>,
    /// Whether a timer is armed for this request.
    pub timeout_armed: bool,
    /// The upstream timeout in milliseconds.
    pub timeout: u64,
    pub transport: SocketType,
}

/// The largest message a 16-bit length prefix can carry.
pub const MAX_MESSAGE_LEN: usize = 0xffff;

/// The query as written upstream: TCP adds a 16-bit big-endian length.
pub open spec fn query_on_wire(transport: SocketType, query: Seq<u8>) -> Seq<u8> {
    if transport.spec_is_tcp() {
        seq![(query.len() / 256) as u8, (query.len() % 256) as u8] + query
    } else {
        query
    }
}

/// Prefixes `buf` with its length as two big-endian bytes.
pub fn prefix_with_length(buf: &mut Vec<u8>)
    requires
        old(buf)@.len() <= MAX_MESSAGE_LEN,
    ensures
        final(buf)@ == seq![(old(buf)@.len() / 256) as u8, (old(buf)@.len() % 256) as u8] + old(
            buf,
        )@,
{
    let len = buf.len();
    buf.insert(0, (len % 256) as u8);
    buf.insert(0, (len / 256) as u8);
    assert(final(buf)@ =~= seq![(old(buf)@.len() / 256) as u8, (old(buf)@.len() % 256) as u8]
        + old(buf)@);
}

impl ForwardedRequestBase {
    pub open spec fn wf(&self) -> bool {
        self.query_buf@.len() <= MAX_MESSAGE_LEN
    }

    pub fn new(token: usize, query_buf: Vec<u8>, timeout: u64, transport: SocketType) -> (r:
        ForwardedRequestBase)
        requires
            query_buf@.len() <= MAX_MESSAGE_LEN,
        ensures
            r.wf(),
            r.token == token,
            r.state == ForwardedRequestState::New,
            r.query_buf@ == query_buf@,
            !r.timeout_armed,
            r.timeout == timeout,
            r.transport == transport,
    {
        ForwardedRequestBase {
            token: token,
            state: ForwardedRequestState::New,
            query_buf: query_buf,
            timeout_armed: false,
            timeout: timeout,
            transport: transport,
        }
    }

    pub fn set_state(&mut self, state: ForwardedRequestState)
        ensures
            *final(self) == (ForwardedRequestBase { state: state, ..*old(self) }),
    {
        self.state = state;
    }

    /// Records that a timer is armed.
    pub fn set_timeout(&mut self)
        ensures
            *final(self) == (ForwardedRequestBase { timeout_armed: true, ..*old(self) }),
    {
        self.timeout_armed = true;
    }

    /// Forgets the armed timer and says whether there was one; clearing
    /// again does nothing.
    pub fn clear_timeout(&mut self) -> (r: bool)
        ensures
            r == old(self).timeout_armed,
            *final(self) == (ForwardedRequestBase { timeout_armed: false, ..*old(self) }),
    {
        let was = self.timeout_armed;
        self.timeout_armed = false;
        was
    }

    /// What to do when the upstream socket is ready, by state.
    pub fn next_io(&self) -> (r: UpstreamIo)
        ensures
            r == match self.state {
                ForwardedRequestState::New => UpstreamIo::Open,
                ForwardedRequestState::Accepted => UpstreamIo::Send,
                ForwardedRequestState::Forwarded => UpstreamIo::Receive,
                _ => UpstreamIo::Idle,
            },
    {
        match self.state {
            ForwardedRequestState::New => UpstreamIo::Open,
            ForwardedRequestState::Accepted => UpstreamIo::Send,
            ForwardedRequestState::Forwarded => UpstreamIo::Receive,
            _ => UpstreamIo::Idle,
        }
    }

    /// The bytes to write upstream.
    pub fn query_wire(&self) -> (r: Vec<u8>)
        requires
            self.wf(),
        ensures
            r@ == query_on_wire(self.transport, self.query_buf@),
    {
        let mut out: Vec<u8> = Vec::new();
        let mut i: usize = 0;
        while i < self.query_buf.len()
            invariant
                i <= self.query_buf@.len(),
                out@ == self.query_buf@.subrange(0, i as int),
            decreases self.query_buf@.len() - i,
        {
            out.push(self.query_buf[i]);
            assert(out@ =~= self.query_buf@.subrange(0, i + 1));
            i = i + 1;
        }
        assert(out@ =~= self.query_buf@);
        if self.transport.is_tcp() {
            prefix_with_length(&mut out);
        }
        out
    }

    /// Moves to `Error` and builds the SERVFAIL reply to the query.
    pub fn error_with(&mut self) -> (r: Response)
        ensures
            *final(self) == (ForwardedRequestBase {
                state: ForwardedRequestState::Error,
                ..*old(self)
            }),
            r@ == error_reply(old(self).token, old(self).query_buf@, RCODE_SERVFAIL),
    {
        self.set_state(ForwardedRequestState::Error);
        error_response(self.token, self.query_buf.as_slice(), RCODE_SERVFAIL)
    }

    /// The upstream socket was opened (`opened`) or could not be.
    pub fn accept(&mut self, opened: bool) -> (r: Step)
        ensures
            old(self).state != ForwardedRequestState::New ==> *final(self) == *old(self)
                && r.is_none(),
            old(self).state == ForwardedRequestState::New && opened ==> *final(self) == (
            ForwardedRequestBase { state: ForwardedRequestState::Accepted, ..*old(self) })
                && r.response is None && r.interest == Interest::Writable && !r.arm_timeout
                && !r.cancel_timeout,
            old(self).state == ForwardedRequestState::New && !opened ==> *final(self) == (
            ForwardedRequestBase { state: ForwardedRequestState::Error, ..*old(self) })
                && opt_response_view(r.response) == Some(
                error_reply(old(self).token, old(self).query_buf@, RCODE_SERVFAIL),
            ) && r.interest == Interest::Nothing && !r.arm_timeout && !r.cancel_timeout,
    {
        if self.state != ForwardedRequestState::New {
            return Step::none();
        }
        if opened {
            self.set_state(ForwardedRequestState::Accepted);
            Step {
                response: None,
                interest: Interest::Writable,
                arm_timeout: false,
                cancel_timeout: false,
            }
        } else {
            let response = self.error_with();
            Step {
                response: Some(response),
                interest: Interest::Nothing,
                arm_timeout: false,
                cancel_timeout: false,
            }
        }
    }

    /// `count` bytes of the query were written upstream; none means the
    /// socket would have blocked.
    pub fn on_forward(&mut self, count: usize) -> (r: Step)
        ensures
            old(self).state != ForwardedRequestState::Accepted ==> *final(self) == *old(self)
                && r.is_none(),
            old(self).state == ForwardedRequestState::Accepted && count > 0 ==> *final(self) == (
            ForwardedRequestBase {
                state: ForwardedRequestState::Forwarded,
                timeout_armed: true,
                ..*old(self)
            }) && r.response is None && r.interest == Interest::Readable && r.arm_timeout
                && !r.cancel_timeout,
            old(self).state == ForwardedRequestState::Accepted && count == 0 ==> *final(self)
                == *old(self) && r.response is None && r.interest == Interest::Writable
                && !r.arm_timeout && !r.cancel_timeout,
    {
        if self.state != ForwardedRequestState::Accepted {
            return Step::none();
        }
        if count == 0 {
            return Step {
                response: None,
                interest: Interest::Writable,
                arm_timeout: false,
                cancel_timeout: false,
            };
        }
        self.set_state(ForwardedRequestState::Forwarded);
        self.set_timeout();
        Step { response: None, interest: Interest::Readable, arm_timeout: true, cancel_timeout: false }
    }

    /// Writing the query upstream failed.
    pub fn on_forward_err(&mut self) -> (r: Step)
        ensures
            old(self).state != ForwardedRequestState::Accepted ==> *final(self) == *old(self)
                && r.is_none(),
            old(self).state == ForwardedRequestState::Accepted ==> *final(self) == (
            ForwardedRequestBase { state: ForwardedRequestState::Error, ..*old(self) })
                && opt_response_view(r.response) == Some(
                error_reply(old(self).token, old(self).query_buf@, RCODE_SERVFAIL),
            ) && r.interest == Interest::Nothing && !r.arm_timeout && !r.cancel_timeout,
    {
        if self.state != ForwardedRequestState::Accepted {
            return Step::none();
        }
        let response = self.error_with();
        Step { response: Some(response), interest: Interest::Nothing, arm_timeout: false, cancel_timeout: false }
    }

    /// Copies the reply into a buffer of its own and decodes it.
    pub fn buffer_response(&self, payload: &[u8]) -> (r: Option<Response>)
        ensures
            match message_at(payload@) {
                Ok(m) => opt_response_view(r) == Some(
                    ResponseView {
                        token: self.token,
                        bytes: payload@,
                        msg: m,
                        source: Source::Upstream,
                    },
                ),
                Err(_) => r is None,
            },
    {
        match DnsMessage::parse(payload) {
            Ok(msg) => {
                let mut bytes: Vec<u8> = Vec::new();
                let mut i: usize = 0;
                while i < payload.len()
                    invariant
                        i <= payload@.len(),
                        bytes@ == payload@.subrange(0, i as int),
                    decreases payload@.len() - i,
                {
                    bytes.push(payload[i]);
                    assert(bytes@ =~= payload@.subrange(0, i + 1));
                    i = i + 1;
                }
                assert(bytes@ =~= payload@);
                Some(Response::with_source(self.token, bytes, msg, Source::Upstream))
            },
            Err(_) => None,
        }
    }

    /// The upstream socket delivered `read` (for TCP, still length-prefixed).
    pub fn on_receive(&mut self, read: &[u8]) -> (r: Step)
        ensures
            final(self).state == state_after_receive(old(self).state, old(self).transport, read@),
            opt_response_view(r.response) == reply_after_receive(
                old(self).state,
                old(self).token,
                old(self).transport,
                old(self).query_buf@,
                read@,
            ),
            final(self).token == old(self).token,
            final(self).query_buf == old(self).query_buf,
            final(self).transport == old(self).transport,
            final(self).timeout == old(self).timeout,
            old(self).state != ForwardedRequestState::Forwarded ==> *final(self) == *old(self)
                && r.is_none(),
            old(self).state == ForwardedRequestState::Forwarded && payload_of(
                old(self).transport,
                read@,
            ).len() == 0 ==> *final(self) == *old(self) && r.interest == Interest::Readable
                && !r.arm_timeout && !r.cancel_timeout,
            old(self).state == ForwardedRequestState::Forwarded && payload_of(
                old(self).transport,
                read@,
            ).len() > 0 ==> !final(self).timeout_armed && r.cancel_timeout
                == old(self).timeout_armed && r.interest == Interest::Nothing && !r.arm_timeout,
    {
        if self.state != ForwardedRequestState::Forwarded {
            return Step::none();
        }
        let tcp = self.transport.is_tcp();
        let payload: &[u8] = if tcp {
            if read.len() >= 2 {
                crate::request::tail_from(read, 2)
            } else {
                &[]
            }
        } else {
            read
        };
        assert(payload@ == payload_of(self.transport, read@));
        if payload.len() == 0 {
            return Step {
                response: None,
                interest: Interest::Readable,
                arm_timeout: false,
                cancel_timeout: false,
            };
        }
        let was_armed = self.clear_timeout();
        match self.buffer_response(payload) {
            Some(response) => {
                self.set_state(ForwardedRequestState::ResponseReceived);
                Step {
                    response: Some(response),
                    interest: Interest::Nothing,
                    arm_timeout: false,
                    cancel_timeout: was_armed,
                }
            },
            None => {
                let response = self.error_with();
                Step {
                    response: Some(response),
                    interest: Interest::Nothing,
                    arm_timeout: false,
                    cancel_timeout: was_armed,
                }
            },
        }
    }

    /// Reading from the upstream socket failed.
    pub fn on_receive_err(&mut self) -> (r: Step)
        ensures
            old(self).state != ForwardedRequestState::Forwarded ==> *final(self) == *old(self)
                && r.is_none(),
            old(self).state == ForwardedRequestState::Forwarded ==> *final(self) == (
            ForwardedRequestBase {
                state: ForwardedRequestState::Error,
                timeout_armed: false,
                ..*old(self)
            }) && opt_response_view(r.response) == Some(
                error_reply(old(self).token, old(self).query_buf@, RCODE_SERVFAIL),
            ) && r.interest == Interest::Nothing && !r.arm_timeout && r.cancel_timeout
                == old(self).timeout_armed,
    {
        if self.state != ForwardedRequestState::Forwarded {
            return Step::none();
        }
        let was_armed = self.clear_timeout();
        let response = self.error_with();
        Step {
            response: Some(response),
            interest: Interest::Nothing,
            arm_timeout: false,
            cancel_timeout: was_armed,
        }
    }

    /// The timer fired.
    pub fn on_timeout(&mut self) -> (r: Step)
        ensures
            final(self).state == state_after_timeout(old(self).state),
            opt_response_view(r.response) == reply_after_timeout(
                old(self).state,
                old(self).token,
                old(self).query_buf@,
            ),
            old(self).state != ForwardedRequestState::Forwarded ==> *final(self) == *old(self)
                && r.is_none(),
            old(self).state == ForwardedRequestState::Forwarded ==> *final(self) == (
            ForwardedRequestBase {
                state: ForwardedRequestState::Error,
                timeout_armed: false,
                ..*old(self)
            }) && r.interest == Interest::Nothing && !r.arm_timeout && !r.cancel_timeout,
    {
        if self.state != ForwardedRequestState::Forwarded {
            return Step::none();
        }
        self.clear_timeout();
        let response = self.error_with();
        Step { response: Some(response), interest: Interest::Nothing, arm_timeout: false, cancel_timeout: false }
    }
}

/// The bytes of `buf` from `start` on.
pub fn tail_from(buf: &[u8], start: usize) -> (r: &[u8])
    requires
        start <= buf@.len(),
    ensures
        r@ == buf@.subrange(start as int, buf@.len() as int),
{
    vstd::slice::slice_subrange(buf, start, buf.len())
}

/// Once the timer or a reply has moved a request on, the other event
/// leaves its state alone and produces no reply.
pub proof fn lemma_timeout_or_reply(
    s: ForwardedRequestState,
    token: usize,
    transport: SocketType,
    query: Seq<u8>,
    read: Seq<u8>,
)
    ensures
        state_after_timeout(s) != s ==> state_after_receive(state_after_timeout(s), transport, read)
            == state_after_timeout(s) && reply_after_receive(
            state_after_timeout(s),
            token,
            transport,
            query,
            read,
        ) is None,
        state_after_receive(s, transport, read) != s ==> state_after_timeout(
            state_after_receive(s, transport, read),
        ) == state_after_receive(s, transport, read) && reply_after_timeout(
            state_after_receive(s, transport, read),
            token,
            query,
        ) is None,
{
}

/// Makes forwarded requests that travel over UDP.
pub struct UdpRequestFactory;

/// Makes forwarded requests that travel over TCP.
pub struct TcpRequestFactory;

impl UdpRequestFactory {
    pub fn new_with(&self, request: ForwardedRequestBase) -> (r: ForwardedRequestBase)
        ensures
            r == (ForwardedRequestBase { transport: SocketType::UdpV4, ..request }),
    {
        ForwardedRequestBase { transport: SocketType::UdpV4, ..request }
    }
}

impl TcpRequestFactory {
    pub fn new_with(&self, request: ForwardedRequestBase) -> (r: ForwardedRequestBase)
        ensures
            r == (ForwardedRequestBase { transport: SocketType::TcpV4, ..request }),
    {
        ForwardedRequestBase { transport: SocketType::TcpV4, ..request }
    }
}

} // verus!
