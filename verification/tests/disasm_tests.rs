use chip8::disasm::disasm_chip_8_op;

fn dis(b1: u8, b2: u8) -> String {
    disasm_chip_8_op(&[b1, b2, 0, 0], 0)
}

#[test]
fn disasm_group_zero() {
    assert_eq!(dis(0x00, 0xE0), "CLS");
    assert_eq!(dis(0x00, 0xEE), "RET");
    assert_eq!(dis(0x03, 0x45), "SYS addr: 345");
}

#[test]
fn disasm_jumps_and_calls() {
    assert_eq!(dis(0x12, 0xA8), "JMP 2a8");
    assert_eq!(dis(0x23, 0x00), "CALL 300");
    assert_eq!(dis(0xB1, 0x23), "JMP 123 + V0");
}

#[test]
fn disasm_skips() {
    assert_eq!(dis(0x63, 0x2A), "STORE V3, 2a");
    assert_eq!(dis(0x31, 0x0F), "SKIP IF V1 == f");
    assert_eq!(dis(0x41, 0x10), "SKIP IF V1 != 10");
    assert_eq!(dis(0x51, 0x20), "SKIP IF V1 == V2");
    assert_eq!(dis(0x91, 0x20), "SKIP IF V1 != V2");
}

#[test]
fn disasm_arithmetic_family() {
    assert_eq!(dis(0x85, 0x30), "STORE V5, V3");
    assert_eq!(dis(0x85, 0x31), "OR V5, V3");
    assert_eq!(dis(0x85, 0x32), "AND V5, V3");
    assert_eq!(dis(0x85, 0x33), "XOR V5, V3");
    assert_eq!(dis(0x85, 0x34), "ADD V5, V3; VF = C");
    assert_eq!(dis(0x85, 0x35), "SUB V5, V3; VF = C");
    assert_eq!(dis(0x85, 0x36), "SHR V5, V3, 1; VF = LSB(V3)");
    assert_eq!(dis(0x85, 0x37), "STORE V5, V3 - V5, VF = C");
    assert_eq!(dis(0x85, 0x3E), "SHL V5, V3, 1; VF = MSB(V3)");
    assert_eq!(dis(0x85, 0x3F), "UNSUPPORTED INSTRUCTION: 853f");
}

#[test]
fn disasm_misc_family() {
    assert_eq!(dis(0xA1, 0x23), "STORE I, 123");
    assert_eq!(dis(0xC2, 0x0F), "STORE V2, RAND() & f");
    assert_eq!(dis(0xD1, 0x25), "DRAW V1, V2, 5");
    assert_eq!(dis(0xE1, 0x9E), "SKIP IF IS_PUSHED(V1)");
    assert_eq!(dis(0xE1, 0xA1), "SKIP IF !IS_PUSHED(V1)");
    assert_eq!(dis(0xF1, 0x07), "STORE V1, DELAY_TIMER");
    assert_eq!(dis(0xF1, 0x0A), "AWAIT KEY V1");
    assert_eq!(dis(0xF1, 0x15), "STORE DELAY_TIMER, V1");
    assert_eq!(dis(0xF1, 0x18), "STORE SOUND_TIMER, V1");
    assert_eq!(dis(0xF1, 0x1E), "ADD I, V1");
    assert_eq!(dis(0xF1, 0x29), "STORE I, sprite_addr[V1]");
    assert_eq!(dis(0xF1, 0x33), "STORE [I], [I+1], [I+2], BCD(V1)");
    assert_eq!(dis(0xF2, 0x55), "REG DUMP FROM V0..=V2 to [I]; I = I + 2 + 1");
    assert_eq!(dis(0xF2, 0x65), "REG LOAD FROM V0..=V2 from [I]; I = I + 2 + 1");
    assert_eq!(dis(0xF1, 0xFF), "UNSUPPORTED INSTRUCTION: f1ff");
}
