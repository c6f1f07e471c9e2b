use koala_dns::bit_cursor::BitCursor;

#[test]
fn bit_cursor_mask() {
    let cursor = BitCursor::new_with(12);
    for i in vec![1, 2, 3, 4] {
        let mask = cursor.mask(i);
        println!("{:?} -> {:016b}", i, mask);
        match i {
            1 => assert_eq!(mask, 0b0000_0000_0000_0001),
            2 => assert_eq!(mask, 0b0000_0000_0000_0011),
            3 => assert_eq!(mask, 0b0000_0000_0000_0111),
            4 => assert_eq!(mask, 0b0000_0000_0000_1111),
            _ => unreachable!(),
        }
    }
}

#[test]
fn bit_cursor_shift() {
    // read as a bit, then a u4. so true (0001), then 3(0011)
    let mut cursor = BitCursor::new_with(0b1001_1000_0000_0000);
    assert_eq!(0b0011_0000_0000_0001, cursor.shift(1));
    cursor.advance(1);
    assert_eq!(0b0000_0000_0001_0011, cursor.shift(4));
}

#[test]
fn bit_cursor_next() {
    let mut cursor = BitCursor::new_with(0b0000_1000_0111_0001); //1st word
    assert_eq!(2161, cursor.next_u16()); //id
    cursor.set(0b0000_0001_0000_0000); //2nd word
    assert_eq!(false, cursor.next_bool()); //qr
    assert_eq!(0, cursor.next_u4()); //opcode
    assert_eq!(false, cursor.next_bool()); //aa
    assert_eq!(false, cursor.next_bool()); //tc
    assert_eq!(true, cursor.next_bool()); //rd
    assert_eq!(false, cursor.next_bool()); //ra
    assert_eq!(0, cursor.next_u4()); //z
    assert_eq!(0, cursor.next_u4()); //rcode
}

#[test]
fn write() {
    let mut cursor = BitCursor::new();
    println!("Start {:016b}", cursor.next_u16());
    println!("true as u16 {:016b}", true as u16);
    println!("mask 1 bit {:016b}", cursor.mask(1));
    cursor.write_bool(true);
    cursor.write_bool(true);
    cursor.write_u4(1);
    cursor.write_u8(255);
    cursor.write_u16(1);
    cursor.seek(0);
    println!("next_u16 {:016b}", cursor.next_u16());
}

#[test]
fn bit_cursor_writes_fields_in_order() {
    let mut cursor = BitCursor::new();
    assert!(cursor.write_bool(true));
    assert!(cursor.write_u4(0b1010));
    assert!(cursor.write_and_advance(3, 0b101));
    cursor.seek(0);
    assert_eq!(0b1101_0101_0000_0000, cursor.next_u16());
}

#[test]
fn bit_cursor_refuses_to_move_past_the_end() {
    let mut cursor = BitCursor::new_with(0xffff);
    assert!(cursor.advance(12));
    assert!(!cursor.advance(5));
    assert!(cursor.advance(4));
    assert!(!cursor.seek(17));
}
