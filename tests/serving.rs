use koala_dns::authority::{AuthorityProvider, Master, MasterFile, Record, RecordKey};
use koala_dns::cache::{Cache, CacheKey};
use koala_dns::message::{DnsMessage, DnsName, IntoBytes};
use koala_dns::pipeline::RequestPipeline;
use koala_dns::request::{
    ForwardedRequestBase, ForwardedRequestState, Interest, RawRequest, SocketType, Source,
    UpstreamIo, prefix_with_length,
};
use koala_dns::server::{
    ProcessOutcome, Route, ServerBase, UpstreamEvent, route, strip_length_prefix, TCP_SERVER_TOKEN,
    UDP_SERVER_TOKEN,
};

/// `example.com A IN`, id 0x0871.
fn example_com_query() -> Vec<u8> {
    vec![0x08, 0x71, 1, 0, 0, 1, 0, 0, 0, 0, 0, 0, 7, 101, 120, 97, 109, 112, 108, 101, 3, 99, 111,
         109, 0, 0, 1, 0, 1]
}

/// `example.org A IN`, id 0x0042.
fn example_org_query() -> Vec<u8> {
    vec![0x00, 0x42, 1, 0, 0, 1, 0, 0, 0, 0, 0, 0, 7, 101, 120, 97, 109, 112, 108, 101, 3, 111, 114,
         103, 0, 0, 1, 0, 1]
}

/// The upstream reply to `example_com_query`: three A answers, TTL 10.
fn example_com_reply() -> Vec<u8> {
    let mut r = example_com_query();
    r[2] = 0x81;
    r[3] = 0x80;
    r[7] = 3;
    for last in [1u8, 2, 3] {
        r.extend_from_slice(&[192, 12, 0, 1, 0, 1, 0, 0, 0, 10, 0, 4, 93, 184, 216, last]);
    }
    r
}

fn udp_server() -> ServerBase {
    ServerBase::new(SocketType::UdpV4, 200, UDP_SERVER_TOKEN, 100)
}

#[test]
fn cache_miss_then_hit() {
    let authority = Master::new();
    let mut cache = Cache::new();
    let mut server = udp_server();
    let mut request = RawRequest::new(11, example_com_query());
    assert_eq!(server.process(&mut request, &authority, &cache, 0), ProcessOutcome::Forwarded(11));
    assert!(server.owns(11));
    assert_eq!(server.request(11).unwrap().next_io(), UpstreamIo::Open);

    let action = server.on_upstream(11, UpstreamEvent::Opened, &mut cache, 0).unwrap();
    assert_eq!(action.interest, Interest::Writable);
    let wire = server.request(11).unwrap().query_wire();
    assert_eq!(wire, example_com_query());
    let action = server.on_upstream(11, UpstreamEvent::Sent(wire.len()), &mut cache, 0).unwrap();
    assert!(action.arm_timeout);
    assert_eq!(action.interest, Interest::Readable);
    let action = server.on_upstream(11, UpstreamEvent::Received(example_com_reply()), &mut cache, 5).unwrap();
    assert!(action.finished && action.cancel_timeout);
    assert!(!server.owns(11));

    let reply = server.pop_response().unwrap();
    assert_eq!(reply.source, Source::Upstream);
    assert_eq!(reply.msg.header.id, 0x0871);
    assert!(reply.msg.header.qr && reply.msg.header.ra);
    assert_eq!(reply.msg.header.ancount, 3);
    assert_eq!(reply.bytes, example_com_reply());
    assert!(cache.get_at(&CacheKey::new(String::from("example.com"), 1, 1), 5).is_some());

    // the same question a few seconds later is answered from the cache
    let mut again = RawRequest::new(12, example_com_query());
    assert_eq!(server.process(&mut again, &authority, &cache, 3_005), ProcessOutcome::Answered);
    let cached = server.pop_response().unwrap();
    assert_eq!(cached.source, Source::Cache);
    assert_eq!(cached.msg.header.id, 0x0871);
    assert_eq!(cached.msg.header.ancount, 3);
    for a in &cached.msg.answers {
        assert!(a.ttl <= 10);
        assert_eq!(a.ttl, 7);
    }
    let decoded = DnsMessage::parse(&cached.bytes).unwrap();
    assert_eq!(decoded.answers.len(), 3);
    assert_eq!(decoded.answers[2].rdata, vec![93, 184, 216, 3]);
}

#[test]
fn authoritative_hit() {
    let mut file = MasterFile::new(String::from("master.txt"));
    let authority = file.create();
    assert_eq!(authority.len(), 1);
    let cache = Cache::new();
    let mut server = udp_server();
    let mut request = RawRequest::new(11, example_org_query());
    assert_eq!(server.process(&mut request, &authority, &cache, 0), ProcessOutcome::Answered);
    assert!(!server.owns(11));
    let reply = server.pop_response().unwrap();
    assert_eq!(reply.source, Source::Authoritive);
    let h = reply.msg.header;
    assert!(h.qr && h.aa && h.ra);
    assert_eq!(h.ancount, 1);
    assert_eq!(h.rcode, 0);
    assert_eq!(reply.msg.answers[0].rdata, vec![93, 184, 216, 34]);
    assert_eq!(reply.msg.answers[0].ttl, 300);
    assert_eq!(reply.bytes, reply.msg.to_bytes());
}

#[test]
fn authority_lookup_ignores_letter_case() {
    let mut authority = Master::new();
    authority.add(Record {
        name: DnsName::from_string(String::from("Example.org")),
        typex: 1,
        class: 1,
        ttl: 60,
        rdata: vec![1, 1, 1, 1],
    });
    let key = RecordKey { name: DnsName::from_string(String::from("EXAMPLE.ORG")), typex: 1, class: 1 };
    assert_eq!(authority.get(&key).unwrap().ttl, 60);
    let other = RecordKey { name: DnsName::from_string(String::from("example.org")), typex: 28, class: 1 };
    assert!(authority.get(&other).is_none());
}

#[test]
fn upstream_timeout() {
    let authority = Master::new();
    let mut cache = Cache::new();
    let mut server = udp_server();
    let mut request = RawRequest::new(11, example_com_query());
    server.process(&mut request, &authority, &cache, 0);
    server.on_upstream(11, UpstreamEvent::Opened, &mut cache, 0);
    server.on_upstream(11, UpstreamEvent::Sent(29), &mut cache, 0);
    let action = server.on_upstream(11, UpstreamEvent::TimedOut, &mut cache, 200).unwrap();
    assert!(action.finished);
    let reply = server.pop_response().unwrap();
    assert_eq!(reply.source, Source::System);
    assert!(reply.msg.header.qr);
    assert_eq!(reply.msg.header.rcode, 2);
    assert_eq!(reply.msg.header.id, 0x0871);
    assert_eq!(cache.len(), 0);
    // a late reply finds nothing to act on
    assert!(server.on_upstream(11, UpstreamEvent::Received(example_com_reply()), &mut cache, 300).is_none());
    assert_eq!(cache.len(), 0);
}

#[test]
fn timeout_after_reply_is_a_no_op() {
    let mut req = ForwardedRequestBase::new(11, example_com_query(), 200, SocketType::UdpV4);
    req.accept(true);
    req.on_forward(29);
    assert_eq!(req.state, ForwardedRequestState::Forwarded);
    let step = req.on_receive(&example_com_reply());
    assert!(step.response.is_some());
    assert_eq!(req.state, ForwardedRequestState::ResponseReceived);
    let step = req.on_timeout();
    assert!(step.response.is_none());
    assert_eq!(req.state, ForwardedRequestState::ResponseReceived);
    assert!(!req.clear_timeout());
}

#[test]
fn reply_after_timeout_is_a_no_op() {
    let mut req = ForwardedRequestBase::new(11, example_com_query(), 200, SocketType::UdpV4);
    req.accept(true);
    req.on_forward(29);
    assert!(req.timeout_armed);
    assert!(req.on_timeout().response.is_some());
    assert_eq!(req.state, ForwardedRequestState::Error);
    assert!(req.on_receive(&example_com_reply()).response.is_none());
    assert_eq!(req.state, ForwardedRequestState::Error);
}

#[test]
fn malformed_query() {
    let authority = Master::new();
    let cache = Cache::new();
    let mut server = udp_server();
    let mut request = RawRequest::new(11, vec![0xab, 0xcd, 0x01, 0x00, 0x12, 0x34, 0x56, 0x78]);
    assert_eq!(server.process(&mut request, &authority, &cache, 0), ProcessOutcome::Answered);
    let reply = server.pop_response().unwrap();
    assert_eq!(reply.msg.header.id, 0xabcd);
    assert!(reply.msg.header.qr);
    assert!(reply.msg.header.rcode == 1 || reply.msg.header.rcode == 2);
    assert_eq!(reply.bytes.len(), 12);
    assert_eq!(&reply.bytes[4..8], &[0, 0, 0, 0]);

    let mut tiny = RawRequest::new(12, vec![0xab]);
    assert_eq!(server.process(&mut tiny, &authority, &cache, 0), ProcessOutcome::Dropped);
    assert!(!server.wants_writable());
}

#[test]
fn tcp_round_trip() {
    let authority = Master::new();
    let mut cache = Cache::new();
    let mut server = ServerBase::new(SocketType::TcpV4, 1000, TCP_SERVER_TOKEN, 100);
    let mut framed = example_com_query();
    prefix_with_length(&mut framed);
    assert_eq!(&framed[..2], &[0, 29]);
    let query = strip_length_prefix(&framed);
    assert_eq!(query, example_com_query());
    let mut request = RawRequest::new(11, query);
    assert_eq!(server.process(&mut request, &authority, &cache, 0), ProcessOutcome::Forwarded(11));
    server.on_upstream(11, UpstreamEvent::Opened, &mut cache, 0);
    let wire = server.request(11).unwrap().query_wire();
    assert_eq!(wire, framed);
    server.on_upstream(11, UpstreamEvent::Sent(wire.len()), &mut cache, 0);
    let mut upstream = example_com_reply();
    prefix_with_length(&mut upstream);
    server.on_upstream(11, UpstreamEvent::Received(upstream), &mut cache, 0);
    let reply = server.pop_response().unwrap();
    assert_eq!(reply.bytes, example_com_reply());
    let mut out = reply.bytes.clone();
    prefix_with_length(&mut out);
    assert_eq!(((out[0] as usize) << 8) | out[1] as usize, example_com_reply().len());
    assert_eq!(DnsMessage::parse(&out[2..]).unwrap().answers.len(), 3);
    assert_eq!(strip_length_prefix(&[7]), Vec::<u8>::new());
}

#[test]
fn full_table_answers_servfail() {
    let authority = Master::new();
    let cache = Cache::new();
    let mut server = ServerBase::new(SocketType::UdpV4, 200, UDP_SERVER_TOKEN, 1);
    let mut first = RawRequest::new(11, example_com_query());
    assert_eq!(server.process(&mut first, &authority, &cache, 0), ProcessOutcome::Forwarded(11));
    let mut second = RawRequest::new(12, example_com_query());
    assert_eq!(server.process(&mut second, &authority, &cache, 0), ProcessOutcome::Answered);
    assert_eq!(server.pop_response().unwrap().msg.header.rcode, 2);
}

#[test]
fn open_and_send_failures_answer_servfail() {
    let mut req = ForwardedRequestBase::new(3, example_com_query(), 200, SocketType::UdpV4);
    assert_eq!(req.accept(false).response.unwrap().msg.header.rcode, 2);
    let mut req = ForwardedRequestBase::new(3, example_com_query(), 200, SocketType::UdpV4);
    req.accept(true);
    assert_eq!(req.on_forward(0).interest, Interest::Writable);
    assert_eq!(req.state, ForwardedRequestState::Accepted);
    assert_eq!(req.on_forward_err().response.unwrap().msg.header.rcode, 2);
    let mut req = ForwardedRequestBase::new(3, example_com_query(), 200, SocketType::UdpV4);
    req.accept(true);
    req.on_forward(1);
    assert!(req.on_receive(&[]).response.is_none());
    assert_eq!(req.state, ForwardedRequestState::Forwarded);
    assert_eq!(req.on_receive_err().response.unwrap().source, Source::System);
    assert_eq!(req.next_io(), UpstreamIo::Idle);
}

#[test]
fn tokens_wrap_at_the_limit() {
    let mut server = ServerBase::new(SocketType::UdpV4, 200, UDP_SERVER_TOKEN, 12);
    assert_eq!(server.next_token(), 11);
    assert_eq!(server.next_token(), 12);
    assert_eq!(server.next_token(), 13);
    assert_eq!(server.next_token(), 11);
}

#[test]
fn routing_by_token() {
    let authority = Master::new();
    let cache = Cache::new();
    let mut udp = udp_server();
    let tcp = ServerBase::new(SocketType::TcpV4, 200, TCP_SERVER_TOKEN, 100);
    let mut request = RawRequest::new(11, example_com_query());
    udp.process(&mut request, &authority, &cache, 0);
    assert_eq!(route(UDP_SERVER_TOKEN, &udp, &tcp), Route::UdpListener);
    assert_eq!(route(TCP_SERVER_TOKEN, &udp, &tcp), Route::TcpListener);
    assert_eq!(route(11, &udp, &tcp), Route::UdpRequest);
    assert_eq!(route(99, &udp, &tcp), Route::Unknown);
}

#[test]
fn pipeline_stages_in_order() {
    let pipeline = RequestPipeline::default();
    let authority = Master::new();
    let cache = Cache::new();
    let mut request = RawRequest::new(4, example_com_query());
    assert!(pipeline.process(&mut request, &authority, &cache, 0).is_none());
    assert!(request.query.is_some());
}
