use koala_dns::byte_utils as bu;

const BUF: [u8; 27] = [8, 113, 1, 0, 0, 1, 0, 0, 0, 0, 0, 0, 5, 121, 97, 104, 111, 111, 3, 99, 111, 109, 0, 0, 1, 0, 1];

#[test]
fn _setup() {
    println!("Buffer for most tests is:");
    println!("{}", bu::format(&BUF));
}

#[test]
fn format_writes_binary_digits() {
    assert_eq!(bu::format(&[8, 113]), "00001000 01110001 ");
    assert_eq!(bu::format(&[]), "");
}

#[test]
fn read_u16() {
    let val = bu::read_u16(&BUF);
    assert_eq!(val, 2161);
}

#[test]
fn read_u16_at_offset() {
    assert_eq!(bu::read_u16_at(&BUF, 4), 1);
    assert_eq!(bu::read_u16(&[0xff, 0xfe]), 0xfffe);
}

#[test]
fn read_u32() {
    let val = bu::read_u32(&BUF);
    assert_eq!(val, 141623552);
}

#[test]
fn read_bit_at() {
    //byte 1
    assert_eq!(bu::read_bit_at(&BUF, 0), false);
    assert_eq!(bu::read_bit_at(&BUF, 1), false);
    assert_eq!(bu::read_bit_at(&BUF, 2), false);
    assert_eq!(bu::read_bit_at(&BUF, 3), true);
    assert_eq!(bu::read_bit_at(&BUF, 4), false);
    assert_eq!(bu::read_bit_at(&BUF, 5), false);
    assert_eq!(bu::read_bit_at(&BUF, 6), false);
    assert_eq!(bu::read_bit_at(&BUF, 7), false);
    //byte 2
    assert_eq!(bu::read_bit_at(&BUF, 8), true);
    assert_eq!(bu::read_bit_at(&BUF, 9), false);
    assert_eq!(bu::read_bit_at(&BUF, 10), false);
    assert_eq!(bu::read_bit_at(&BUF, 11), false);
    assert_eq!(bu::read_bit_at(&BUF, 12), true);
    assert_eq!(bu::read_bit_at(&BUF, 13), true);
    assert_eq!(bu::read_bit_at(&BUF, 14), true);
    assert_eq!(bu::read_bit_at(&BUF, 15), false);
}

#[test]
fn read_u4() {
    //255 (1111 1111) as a u4 is 15 (0000 1111)
    assert_eq!(bu::read_u4(&[255]), 15);
    assert_eq!(bu::read_u4(&[0x3c]), 12);
}

#[test]
fn read_u4_at() {
    assert_eq!(bu::read_u4_at(&BUF, 16), 1);
    assert_eq!(bu::read_u4_at(&BUF, 17), 0);
}
