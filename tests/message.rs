use koala_dns::codec::{DnsParser, ParseError};
use koala_dns::message::{
    DnsAnswer, DnsHeader, DnsMessage, DnsMessageType, DnsName, DnsQuestion, IntoBytes,
};

fn test_query_buf() -> Vec<u8> {
    return vec![8, 113, 1, 0, 0, 1, 0, 0, 0, 0, 0, 0, 5, 121, 97, 104, 111, 111, 3, 99, 111,
                109, 0, 0, 1, 0, 1];
}

fn test_reply_buf() -> Vec<u8> {
    return vec![8, 113, 129, 128, 0, 1, 0, 3, 0, 0, 0, 0, 5, 121, 97, 104, 111, 111, 3, 99,
                111, 109, 0, 0, 1, 0, 1, 192, 12, 0, 1, 0, 1, 0, 0, 0, 10, 0, 4, 206, 190, 36,
                45, 192, 12, 0, 1, 0, 1, 0, 0, 0, 10, 0, 4, 98, 139, 183, 24, 192, 12, 0, 1,
                0, 1, 0, 0, 0, 10, 0, 4, 98, 138, 253, 109];
}

fn header(id: u16, qr: bool) -> DnsHeader {
    DnsHeader {
        id: id,
        qr: qr,
        opcode: 0,
        aa: false,
        tc: false,
        rd: true,
        ra: qr,
        z: 0,
        rcode: 0,
        qdcount: 1,
        ancount: 0,
        nscount: 0,
        arcount: 0,
    }
}

#[test]
fn message_to_bytes() {
    let msg = DnsMessage::parse(&test_query_buf()).unwrap();
    println!("bytes: {:?}", msg.to_bytes());
    assert_eq!(msg.to_bytes(), test_query_buf());
}

#[test]
fn dns_entities_to_bytes() {
    let msg = DnsMessage::parse(&test_query_buf()).unwrap();
    println!("bytes: {:?}", msg.to_bytes());
}

#[test]
fn message_round_trip() {
    let mut query = test_query_buf();
    let msg = DnsMessage::parse(&query).unwrap();
    let mut query_out = msg.header.to_bytes();
    query.split_off(12);
    query_out.split_off(12);
    //compare the headers
    assert_eq!(query, query_out);
}

#[test]
fn message_parse_reply() {
    let reply = DnsMessage::parse(&test_reply_buf()).unwrap();
    println!("{:?}", reply);
    assert_eq!(2161, reply.header.id);
    assert_eq!(1, reply.header.qdcount);
    assert_eq!(1, reply.questions.len());
    assert_eq!(3, reply.header.ancount);
    assert_eq!(3, reply.answers.len());

    let a = &reply.answers[0];
    assert_eq!("yahoo.com", a.name.to_string());
    assert_eq!(10, a.ttl);
    assert_eq!(4, a.rdlength);
    assert_eq!(vec![206, 190, 36, 45], a.rdata);
}

#[test]
fn message_parse_query() {
    let q = DnsMessage::parse(&test_query_buf()).unwrap();
    println!("{:?}", q);
    assert_eq!(2161, q.header.id);
    assert_eq!(1, q.header.qdcount);
    assert_eq!(1, q.questions.len());
    assert_eq!("yahoo.com", q.questions[0].qname.to_string());
}

#[test]
fn dns_parser_parse_reply() {
    println!("{:?}", DnsParser::parse(&test_reply_buf()));
    assert_eq!(3, DnsParser::parse(&test_reply_buf()).unwrap().answers.len());
}

#[test]
fn header_flags_decode() {
    let reply = DnsMessage::parse(&test_reply_buf()).unwrap();
    let h = reply.header;
    assert!(h.qr && h.rd && h.ra && !h.aa && !h.tc);
    assert_eq!((h.opcode, h.z, h.rcode), (0, 0, 0));
    assert_eq!(reply.msg_type, DnsMessageType::Reply);
    assert_eq!(h.flags(), 0x8180);
}

#[test]
fn reencoded_header_matches_query_bytes() {
    let mut q = test_query_buf();
    q[2] = 0b0111_1011;
    q[3] = 0b1101_0101;
    let msg = DnsMessage::parse(&q).unwrap();
    assert_eq!(msg.header.opcode, 0b1111);
    assert_eq!(msg.header.z, 0b101);
    assert_eq!(msg.header.rcode, 0b0101);
    assert_eq!(&msg.to_bytes()[..12], &q[..12]);
}

#[test]
fn decode_of_encoded_reply() {
    let name = DnsName::from_string(String::from("example.com"));
    let mut h = header(0x0871, true);
    h.ancount = 2;
    let answers = vec![
        DnsAnswer::new(name.copy(), 1, 1, 10, 4, vec![1, 2, 3, 4]),
        DnsAnswer::new(name.copy(), 1, 1, 20, 4, vec![5, 6, 7, 8]),
    ];
    let msg = DnsMessage::new_reply(h, vec![DnsQuestion::new(name.copy(), 1, 1)], answers);
    let bytes = msg.to_bytes();
    let back = DnsMessage::parse(&bytes).unwrap();
    assert_eq!(back.header, msg.header);
    assert_eq!(back.questions.len(), 1);
    assert_eq!(back.questions[0].qname.to_string(), "example.com");
    assert_eq!(back.answers.len(), 2);
    assert_eq!(back.answers[1].ttl, 20);
    assert_eq!(back.answers[1].rdata, vec![5, 6, 7, 8]);
    assert_eq!(back.to_bytes(), bytes);
}

#[test]
fn only_the_first_question_is_emitted() {
    let name = DnsName::from_string(String::from("a.b"));
    let mut h = header(7, false);
    h.qdcount = 2;
    let msg = DnsMessage::new_query(h, vec![DnsQuestion::new(name.copy(), 1, 1), DnsQuestion::new(name.copy(), 28, 1)]);
    let bytes = msg.to_bytes();
    assert_eq!(bytes[5], 1);
    assert_eq!(bytes.len(), 12 + 5 + 4);
}

#[test]
fn query_answers_are_not_emitted() {
    let name = DnsName::from_string(String::from("a"));
    let msg = DnsMessage::new(header(1, false), vec![DnsQuestion::new(name.copy(), 1, 1)], vec![DnsAnswer::new(name.copy(), 1, 1, 5, 1, vec![9])], DnsMessageType::Query);
    assert_eq!(msg.to_bytes().len(), 12 + 3 + 4);
}

#[test]
fn truncated_input_is_rejected() {
    assert_eq!(DnsMessage::parse(&[8, 113, 1, 0]).unwrap_err(), ParseError::Truncated);
    let mut q = test_query_buf();
    q.truncate(20);
    assert_eq!(DnsMessage::parse(&q).unwrap_err(), ParseError::Truncated);
}

#[test]
fn malformed_label_is_rejected() {
    let mut q = test_query_buf();
    q[12] = 0x45;
    assert_eq!(DnsMessage::parse(&q).unwrap_err(), ParseError::MalformedLabel);
}

#[test]
fn pointer_loop_is_rejected() {
    let mut q = test_query_buf();
    // a pointer to itself
    q[12] = 0xc0;
    q[13] = 12;
    assert_eq!(DnsMessage::parse(&q).unwrap_err(), ParseError::PointerLoop);
}

#[test]
fn label_then_pointer_is_followed() {
    let mut r = test_reply_buf();
    // first answer name: label "www" then a pointer to "yahoo.com"
    let tail = r.split_off(27);
    r.extend_from_slice(&[3, 119, 119, 119, 192, 12]);
    r.extend_from_slice(&tail[2..]);
    let reply = DnsMessage::parse(&r).unwrap();
    assert_eq!(reply.answers[0].name.to_string(), "www.yahoo.com");
    assert_eq!(reply.answers[1].name.to_string(), "yahoo.com");
}

#[test]
fn name_text_conversion() {
    let n = DnsName::from_string(String::from("Example.COM."));
    assert_eq!(n.to_string(), "Example.COM");
    assert_eq!(n.to_lowercase().to_string(), "example.com");
    assert!(n.to_lowercase().same_as(&DnsName::from_string(String::from("example.com"))));
    assert!(!n.same_as(&DnsName::from_string(String::from("example.com"))));
    assert_eq!(DnsName::root().to_string(), "");
    assert_eq!(DnsName::root().to_bytes(), vec![0]);
}

#[test]
fn error_header_copies_id_and_flags() {
    let h = DnsHeader::new_error(header(0x1234, false), 2);
    assert_eq!(h.id, 0x1234);
    assert!(h.qr && h.ra && h.rd);
    assert_eq!(h.rcode, 2);
    assert_eq!((h.qdcount, h.ancount), (0, 0));
    let msg = DnsMessage::new_error(h);
    assert_eq!(msg.to_bytes().len(), 12);
    assert!(msg.first_question().is_none());
    assert!(msg.first_answer().is_none());
}
