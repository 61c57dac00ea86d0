use chip8::decode::{decode, opcode_word};

#[test]
fn decode_extracts_all_fields() {
    let ins = decode(0x12, 0xA8);
    assert_eq!(ins.group, 0x1);
    assert_eq!(ins.x, 0x2);
    assert_eq!(ins.y, 0xA);
    assert_eq!(ins.n, 0x8);
    assert_eq!(ins.address, 0x2A8);
    assert_eq!(ins.immediate, 0xA8);
}

#[test]
fn decode_address_formula() {
    // address = ((byte1 & 0x0F) << 8) | byte2 for every nibble boundary
    assert_eq!(decode(0xFF, 0xFF).address, 0xFFF);
    assert_eq!(decode(0xF0, 0x00).address, 0x000);
    assert_eq!(decode(0x01, 0x00).address, 0x100);
    assert_eq!(decode(0x0F, 0x23).address, 0xF23);
}

#[test]
fn decode_immediate_is_low_byte() {
    for b2 in [0x00u8, 0x01, 0x7F, 0x80, 0xAB, 0xFF] {
        assert_eq!(decode(0x60, b2).immediate, b2);
    }
}

#[test]
fn decode_is_deterministic() {
    let a = decode(0xD1, 0x25);
    let b = decode(0xD1, 0x25);
    assert_eq!(a, b);
    assert_eq!(a.group, 0xD);
    assert_eq!(a.x, 0x1);
    assert_eq!(a.y, 0x2);
    assert_eq!(a.n, 0x5);
}

#[test]
fn opcode_word_is_big_endian() {
    assert_eq!(opcode_word(0x12, 0x34), 0x1234);
    assert_eq!(opcode_word(0x00, 0xE0), 0x00E0);
}
