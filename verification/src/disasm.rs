//! A human-readable mnemonic for each opcode, for tracing and debugging.
//! It consumes the same decode artifact as the execution engine, so the
//! two can never disagree on field extraction. The exact text of every
//! mnemonic is pinned by `spec_disasm`.
use vstd::prelude::*;
use vstd::string::StringExecFns;

use crate::decode::{decode, spec_decode, spec_opcode};

verus! {

/// The lowercase hexadecimal digit for a nibble value.
pub open spec fn spec_hex_digit(n: int) -> char {
    if n == 0 {
        '0'
    } else if n == 1 {
        '1'
    } else if n == 2 {
        '2'
    } else if n == 3 {
        '3'
    } else if n == 4 {
        '4'
    } else if n == 5 {
        '5'
    } else if n == 6 {
        '6'
    } else if n == 7 {
        '7'
    } else if n == 8 {
        '8'
    } else if n == 9 {
        '9'
    } else if n == 10 {
        'a'
    } else if n == 11 {
        'b'
    } else if n == 12 {
        'c'
    } else if n == 13 {
        'd'
    } else if n == 14 {
        'e'
    } else {
        'f'
    }
}

/// Lowercase hexadecimal of a value, most significant digit first, with
/// no leading zeroes.
pub open spec fn spec_hex(v: int) -> Seq<char>
    decreases v,
{
    if v < 16 {
        seq![spec_hex_digit(v)]
    } else {
        spec_hex(v / 16).push(spec_hex_digit(v % 16))
    }
}

/// The mnemonic for the opcode word made of `b1` and `b2`.
pub open spec fn spec_disasm(b1: u8, b2: u8) -> Seq<char> {
    let ins = spec_decode(b1, b2);
    let whole = spec_opcode(b1, b2);
    let x = seq![spec_hex_digit(ins.x as int)];
    let y = seq![spec_hex_digit(ins.y as int)];
    let n = seq![spec_hex_digit(ins.n as int)];
    let addr = spec_hex(ins.address as int);
    let imm = spec_hex(ins.immediate as int);
    let bad = "UNSUPPORTED INSTRUCTION: "@ + spec_hex(whole as int);
    if ins.group == 0x0 {
        if ins.address == 0x0E0 {
            "CLS"@
        } else if ins.address == 0x0EE {
            "RET"@
        } else {
            "SYS addr: "@ + addr
        }
    } else if ins.group == 0x1 {
        "JMP "@ + addr
    } else if ins.group == 0x2 {
        "CALL "@ + addr
    } else if ins.group == 0x3 {
        "SKIP IF V"@ + x + " == "@ + imm
    } else if ins.group == 0x4 {
        "SKIP IF V"@ + x + " != "@ + imm
    } else if ins.group == 0x5 {
        "SKIP IF V"@ + x + " == V"@ + y
    } else if ins.group == 0x6 {
        "STORE V"@ + x + ", "@ + imm
    } else if ins.group == 0x7 {
        "ADD V"@ + x + ", "@ + imm
    } else if ins.group == 0x8 {
        if ins.n == 0x0 {
            "STORE V"@ + x + ", V"@ + y
        } else if ins.n == 0x1 {
            "OR V"@ + x + ", V"@ + y
        } else if ins.n == 0x2 {
            "AND V"@ + x + ", V"@ + y
        } else if ins.n == 0x3 {
            "XOR V"@ + x + ", V"@ + y
        } else if ins.n == 0x4 {
            "ADD V"@ + x + ", V"@ + y + "; VF = C"@
        } else if ins.n == 0x5 {
            "SUB V"@ + x + ", V"@ + y + "; VF = C"@
        } else if ins.n == 0x6 {
            "SHR V"@ + x + ", V"@ + y + ", 1; VF = LSB(V"@ + y + ")"@
        } else if ins.n == 0x7 {
            "STORE V"@ + x + ", V"@ + y + " - V"@ + x + ", VF = C"@
        } else if ins.n == 0xE {
            "SHL V"@ + x + ", V"@ + y + ", 1; VF = MSB(V"@ + y + ")"@
        } else {
            bad
        }
    } else if ins.group == 0x9 {
        "SKIP IF V"@ + x + " != V"@ + y
    } else if ins.group == 0xA {
        "STORE I, "@ + addr
    } else if ins.group == 0xB {
        "JMP "@ + addr + " + V0"@
    } else if ins.group == 0xC {
        "STORE V"@ + x + ", RAND() & "@ + imm
    } else if ins.group == 0xD {
        "DRAW V"@ + x + ", V"@ + y + ", "@ + n
    } else if ins.group == 0xE {
        if ins.immediate == 0x9E {
            "SKIP IF IS_PUSHED(V"@ + x + ")"@
        } else if ins.immediate == 0xA1 {
            "SKIP IF !IS_PUSHED(V"@ + x + ")"@
        } else {
            bad
        }
    } else {
        if ins.immediate == 0x07 {
            "STORE V"@ + x + ", DELAY_TIMER"@
        } else if ins.immediate == 0x0A {
            "AWAIT KEY V"@ + x
        } else if ins.immediate == 0x15 {
            "STORE DELAY_TIMER, V"@ + x
        } else if ins.immediate == 0x18 {
            "STORE SOUND_TIMER, V"@ + x
        } else if ins.immediate == 0x1E {
            "ADD I, V"@ + x
        } else if ins.immediate == 0x29 {
            "STORE I, sprite_addr[V"@ + x + "]"@
        } else if ins.immediate == 0x33 {
            "STORE [I], [I+1], [I+2], BCD(V"@ + x + ")"@
        } else if ins.immediate == 0x55 {
            "REG DUMP FROM V0..=V"@ + x + " to [I]; I = I + "@ + x + " + 1"@
        } else if ins.immediate == 0x65 {
            "REG LOAD FROM V0..=V"@ + x + " from [I]; I = I + "@ + x + " + 1"@
        } else {
            bad
        }
    }
}

/// The lowercase hexadecimal digit for a nibble, as a one-character
/// string slice.
fn hex_digit_str(n: u8) -> (r: &'static str)
    requires
        n < 16,
    ensures
        r@ == seq![spec_hex_digit(n as int)],
{
    proof {
        reveal_strlit("0");
        reveal_strlit("1");
        reveal_strlit("2");
        reveal_strlit("3");
        reveal_strlit("4");
        reveal_strlit("5");
        reveal_strlit("6");
        reveal_strlit("7");
        reveal_strlit("8");
        reveal_strlit("9");
        reveal_strlit("a");
        reveal_strlit("b");
        reveal_strlit("c");
        reveal_strlit("d");
        reveal_strlit("e");
        reveal_strlit("f");
    }
    match n {
        0 => "0",
        1 => "1",
        2 => "2",
        3 => "3",
        4 => "4",
        5 => "5",
        6 => "6",
        7 => "7",
        8 => "8",
        9 => "9",
        10 => "a",
        11 => "b",
        12 => "c",
        13 => "d",
        14 => "e",
        _ => "f",
    }
}

/// Lowercase hexadecimal of a value with no leading zeroes.
fn hex_str(v: u16) -> (s: String)
    ensures
        s@ == spec_hex(v as int),
    decreases v,
{
    if v < 16 {
        String::from_str(hex_digit_str(v as u8))
    } else {
        let mut s = hex_str(v / 16);
        s.append(hex_digit_str((v % 16) as u8));
        proof {
            assert(s@ =~= spec_hex(v as int));
        }
        s
    }
}

/// The mnemonic of the opcode at `pc`, decoded by the same step the
/// execution engine uses.
pub fn disasm_chip_8_op(memory: &[u8], pc: usize) -> (r: String)
    requires
        pc + 1 < memory@.len(),
    ensures
        r@ == spec_disasm(memory@[pc as int], memory@[pc as int + 1]),
{
    let b1 = memory[pc];
    let b2 = memory[pc + 1];
    let ins = decode(b1, b2);
    let whole = ((b1 as u16) << 8) | (b2 as u16);
    let mut s = String::new();
    if ins.group == 0x0 {
        if ins.address == 0x0E0 {
            s.append("CLS");
        } else if ins.address == 0x0EE {
            s.append("RET");
        } else {
            s.append("SYS addr: ");
            s.append(hex_str(ins.address).as_str());
        }
    } else if ins.group == 0x1 {
        s.append("JMP ");
        s.append(hex_str(ins.address).as_str());
    } else if ins.group == 0x2 {
        s.append("CALL ");
        s.append(hex_str(ins.address).as_str());
    } else if ins.group == 0x3 {
        s.append("SKIP IF V");
        s.append(hex_digit_str(ins.x));
        s.append(" == ");
        s.append(hex_str(ins.immediate as u16).as_str());
    } else if ins.group == 0x4 {
        s.append("SKIP IF V");
        s.append(hex_digit_str(ins.x));
        s.append(" != ");
        s.append(hex_str(ins.immediate as u16).as_str());
    } else if ins.group == 0x5 {
        s.append("SKIP IF V");
        s.append(hex_digit_str(ins.x));
        s.append(" == V");
        s.append(hex_digit_str(ins.y));
    } else if ins.group == 0x6 {
        s.append("STORE V");
        s.append(hex_digit_str(ins.x));
        s.append(", ");
        s.append(hex_str(ins.immediate as u16).as_str());
    } else if ins.group == 0x7 {
        s.append("ADD V");
        s.append(hex_digit_str(ins.x));
        s.append(", ");
        s.append(hex_str(ins.immediate as u16).as_str());
    } else if ins.group == 0x8 {
        if ins.n == 0x0 {
            s.append("STORE V");
            s.append(hex_digit_str(ins.x));
            s.append(", V");
            s.append(hex_digit_str(ins.y));
        } else if ins.n == 0x1 {
            s.append("OR V");
            s.append(hex_digit_str(ins.x));
            s.append(", V");
            s.append(hex_digit_str(ins.y));
        } else if ins.n == 0x2 {
            s.append("AND V");
            s.append(hex_digit_str(ins.x));
            s.append(", V");
            s.append(hex_digit_str(ins.y));
        } else if ins.n == 0x3 {
            s.append("XOR V");
            s.append(hex_digit_str(ins.x));
            s.append(", V");
            s.append(hex_digit_str(ins.y));
        } else if ins.n == 0x4 {
            s.append("ADD V");
            s.append(hex_digit_str(ins.x));
            s.append(", V");
            s.append(hex_digit_str(ins.y));
            s.append("; VF = C");
        } else if ins.n == 0x5 {
            s.append("SUB V");
            s.append(hex_digit_str(ins.x));
            s.append(", V");
            s.append(hex_digit_str(ins.y));
            s.append("; VF = C");
        } else if ins.n == 0x6 {
            s.append("SHR V");
            s.append(hex_digit_str(ins.x));
            s.append(", V");
            s.append(hex_digit_str(ins.y));
            s.append(", 1; VF = LSB(V");
            s.append(hex_digit_str(ins.y));
            s.append(")");
        } else if ins.n == 0x7 {
            s.append("STORE V");
            s.append(hex_digit_str(ins.x));
            s.append(", V");
            s.append(hex_digit_str(ins.y));
            s.append(" - V");
            s.append(hex_digit_str(ins.x));
            s.append(", VF = C");
        } else if ins.n == 0xE {
            s.append("SHL V");
            s.append(hex_digit_str(ins.x));
            s.append(", V");
            s.append(hex_digit_str(ins.y));
            s.append(", 1; VF = MSB(V");
            s.append(hex_digit_str(ins.y));
            s.append(")");
        } else {
            s.append("UNSUPPORTED INSTRUCTION: ");
            s.append(hex_str(whole).as_str());
        }
    } else if ins.group == 0x9 {
        s.append("SKIP IF V");
        s.append(hex_digit_str(ins.x));
        s.append(" != V");
        s.append(hex_digit_str(ins.y));
    } else if ins.group == 0xA {
        s.append("STORE I, ");
        s.append(hex_str(ins.address).as_str());
    } else if ins.group == 0xB {
        s.append("JMP ");
        s.append(hex_str(ins.address).as_str());
        s.append(" + V0");
    } else if ins.group == 0xC {
        s.append("STORE V");
        s.append(hex_digit_str(ins.x));
        s.append(", RAND() & ");
        s.append(hex_str(ins.immediate as u16).as_str());
    } else if ins.group == 0xD {
        s.append("DRAW V");
        s.append(hex_digit_str(ins.x));
        s.append(", V");
        s.append(hex_digit_str(ins.y));
        s.append(", ");
        s.append(hex_digit_str(ins.n));
    } else if ins.group == 0xE {
        if ins.immediate == 0x9E {
            s.append("SKIP IF IS_PUSHED(V");
            s.append(hex_digit_str(ins.x));
            s.append(")");
        } else if ins.immediate == 0xA1 {
            s.append("SKIP IF !IS_PUSHED(V");
            s.append(hex_digit_str(ins.x));
            s.append(")");
        } else {
            s.append("UNSUPPORTED INSTRUCTION: ");
            s.append(hex_str(whole).as_str());
        }
    } else {
        if ins.immediate == 0x07 {
            s.append("STORE V");
            s.append(hex_digit_str(ins.x));
            s.append(", DELAY_TIMER");
        } else if ins.immediate == 0x0A {
            s.append("AWAIT KEY V");
            s.append(hex_digit_str(ins.x));
        } else if ins.immediate == 0x15 {
            s.append("STORE DELAY_TIMER, V");
            s.append(hex_digit_str(ins.x));
        } else if ins.immediate == 0x18 {
            s.append("STORE SOUND_TIMER, V");
            s.append(hex_digit_str(ins.x));
        } else if ins.immediate == 0x1E {
            s.append("ADD I, V");
            s.append(hex_digit_str(ins.x));
        } else if ins.immediate == 0x29 {
            s.append("STORE I, sprite_addr[V");
            s.append(hex_digit_str(ins.x));
            s.append("]");
        } else if ins.immediate == 0x33 {
            s.append("STORE [I], [I+1], [I+2], BCD(V");
            s.append(hex_digit_str(ins.x));
            s.append(")");
        } else if ins.immediate == 0x55 {
            s.append("REG DUMP FROM V0..=V");
            s.append(hex_digit_str(ins.x));
            s.append(" to [I]; I = I + ");
            s.append(hex_digit_str(ins.x));
            s.append(" + 1");
        } else if ins.immediate == 0x65 {
            s.append("REG LOAD FROM V0..=V");
            s.append(hex_digit_str(ins.x));
            s.append(" from [I]; I = I + ");
            s.append(hex_digit_str(ins.x));
            s.append(" + 1");
        } else {
            s.append("UNSUPPORTED INSTRUCTION: ");
            s.append(hex_str(whole).as_str());
        }
    }
    proof {
        assert(s@ =~= spec_disasm(b1, b2));
    }
    s
}

} // verus!
