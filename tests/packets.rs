use koala_dns::dns_packet::DnsPacket;
use koala_dns::mut_dns_packet::MutDnsPacket;

fn test_buf() -> Vec<u8> {
    return vec![8, 113, 1, 0, 0, 1, 0, 0, 0, 0, 0, 0, 5, 121, 97, 104, 111, 111, 3, 99, 111,
                109, 0, 0, 1, 0, 1];
}

#[test]
fn next_u32() {
    let buf = &test_buf();
    let mut p = DnsPacket::new(buf);
    assert_eq!(141623552, p.next_u32().unwrap());
    let len = p.len();
    // try read 4 bytes when we're 3 byte from the end
    p.seek(len - 3);
    assert_eq!(None, p.next_u32());
    // now try again when we're two bytes away
    p.seek(len - 4);
    assert_eq!(true, p.next_u32().is_some());
}

#[test]
fn seek() {
    let buf = &test_buf();
    let mut p = DnsPacket::new(buf);
    assert_eq!(true, p.seek(5));
    assert_eq!(5, p.pos());
    // can't go past end
    assert_eq!(false, p.seek(1000));
    // position unchanged
    assert_eq!(5, p.pos());
}

#[test]
fn peek_u8() {
    let buf = &test_buf();
    let p = DnsPacket::new(buf);
    assert_eq!(8, p.peek_u8().unwrap());
    // don't move position for a peek
    assert_eq!(0, p.pos());
}

#[test]
fn next_u8() {
    let buf = &test_buf();
    let mut p = DnsPacket::new(buf);
    assert_eq!(8, p.next_u8().unwrap());
    assert_eq!(1, p.pos());
    // return none, don't panic at the end
    let pos = p.len();
    p.seek(pos);
    assert_eq!(None, p.next_u8());
}

#[test]
fn next_u8_boundary() {
    let buf = &test_buf();
    let mut p = DnsPacket::new(buf);
    let len = p.len();
    assert_eq!(true, p.seek(len));
    assert_eq!(None, p.next_u8());
}

#[test]
fn iterate() {
    let buf = test_buf();
    let mut packet = DnsPacket::new(&buf);
    let mut count = 0;
    while let Some(word) = packet.next() {
        println!("word: {:016b} {:?}", word.0, word.1);
        count += 1;
    }
    assert_eq!(count, 13);
}

#[test]
fn next_bytes() {
    let buf = test_buf();
    let mut p = DnsPacket::new(&buf);
    let vec = p.next_bytes(10);
    assert_eq!(vec.len(), 10);
    let vec2 = p.next_bytes(100);
    println!("vec2.len()={:?}", vec2.len());
    assert_eq!(vec2.len(), buf.len() - 10);
}

#[test]
fn next_u16() {
    let buf = test_buf();
    let mut p = DnsPacket::new(&buf);
    let len = p.len();
    p.seek(len - 1);
    assert_eq!(None, p.next_u16());
    p.seek(len - 2);
    assert_eq!(true, p.next_u16().is_some());
}

#[test]
fn empty() {
    let buf = [];
    let mut p = DnsPacket::new(&buf);
    assert_eq!(None, p.next());
    assert_eq!(None, p.next_u8());
    assert_eq!(None, p.next_u16());
    assert_eq!(None, p.next_u32());
    assert_eq!(Vec::<u8>::new(), p.next_bytes(2));
}

#[test]
fn reset_and_new_at() {
    let buf = test_buf();
    let mut p = DnsPacket::new_at(&buf, 12);
    assert_eq!(Some(5), p.next_u8());
    p.reset();
    assert_eq!(Some(2161), p.next_u16());
}

#[test]
fn write_u8() {
    let mut buf = test_buf();
    let mut packet = MutDnsPacket::new(buf.as_mut_slice());
    packet.write_u8(7);
    packet.write_u8(8);
    packet.write_u8(9);
    packet.seek(0);
    assert_eq!(7, packet.next_u8().unwrap());
    assert_eq!(8, packet.next_u8().unwrap());
    assert_eq!(9, packet.next_u8().unwrap());
}

#[test]
fn write_u16() {
    let mut vec = test_buf();
    let mut packet = MutDnsPacket::new(vec.as_mut_slice());
    packet.write_u16(2161);
    packet.write_u16(1);
    packet.seek(0);
    println!("{:?}", packet);
    assert_eq!(2161, packet.next_u16().unwrap());
    assert_eq!(1, packet.next_u16().unwrap());
}

#[test]
fn write_u16_bounds() {
    let mut vec = vec![0, 0, 0, 0];
    let mut packet = MutDnsPacket::new(vec.as_mut_slice());
    assert_eq!(true, packet.write_u16(1));
    assert_eq!(true, packet.write_u16(1));
    assert_eq!(false, packet.write_u16(1)); //no room
    println!("{:?}", packet);
}

#[test]
fn write_u32() {
    let mut vec = vec![0, 0, 0, 0];
    let mut packet = MutDnsPacket::new(vec.as_mut_slice());
    assert_eq!(true, packet.write_u32(123456789));
    println!("{:?}", packet);
    packet.seek(0);
    assert_eq!(123456789, packet.next_u32().unwrap());
}

#[test]
fn write_bytes_all_or_nothing() {
    let mut vec = vec![0, 0, 0, 0];
    let mut packet = MutDnsPacket::new_at(vec.as_mut_slice(), 1);
    assert_eq!(false, packet.write_bytes(&[1, 2, 3, 4]));
    assert_eq!(1, packet.pos());
    assert_eq!(true, packet.write_bytes(&[1, 2, 3]));
    assert_eq!(4, packet.pos());
    assert_eq!(vec, vec![0, 1, 2, 3]);
}
