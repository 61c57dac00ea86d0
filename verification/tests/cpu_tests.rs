use chip8::cpu::{Chip8, FaultCause};
use chip8::input::InputState;
use chip8::options::{Chip8Options, Quirks};

fn boot(rom: Vec<u8>) -> Chip8 {
    Chip8::new_with_rom(Chip8Options::new(10, rom)).unwrap()
}

fn no_keys() -> InputState {
    InputState::new()
}

fn key(k: u8) -> InputState {
    let mut s = InputState::new();
    s.set_key(k, true);
    s
}

#[test]
fn load_and_add_end_to_end() {
    // load V0 = 5, then add 3
    let mut cpu = boot(vec![0x60, 0x05, 0x70, 0x03, 0x00, 0x00]);
    cpu.cycle(no_keys(), 0).unwrap();
    cpu.cycle(no_keys(), 0).unwrap();
    assert_eq!(cpu.registers[0], 8);
    assert_eq!(cpu.pc, 0x204);
}

#[test]
fn add_wraps_and_leaves_vf_alone() {
    // V0 = 0xFF, add 0x02
    let mut cpu = boot(vec![0x60, 0xFF, 0x70, 0x02]);
    cpu.cycle(no_keys(), 0).unwrap();
    cpu.cycle(no_keys(), 0).unwrap();
    assert_eq!(cpu.registers[0], 0x01);
    assert_eq!(cpu.registers[0xF], 0);
}

#[test]
fn add_registers_sets_carry() {
    // V0 = 0xF0, V1 = 0x20, V0 += V1
    let mut cpu = boot(vec![0x60, 0xF0, 0x61, 0x20, 0x80, 0x14]);
    for _ in 0..3 {
        cpu.cycle(no_keys(), 0).unwrap();
    }
    assert_eq!(cpu.registers[0], 0x10);
    assert_eq!(cpu.registers[0xF], 1);
}

#[test]
fn add_registers_without_carry() {
    let mut cpu = boot(vec![0x60, 0x10, 0x61, 0x20, 0x80, 0x14]);
    for _ in 0..3 {
        cpu.cycle(no_keys(), 0).unwrap();
    }
    assert_eq!(cpu.registers[0], 0x30);
    assert_eq!(cpu.registers[0xF], 0);
}

#[test]
fn subtract_sets_no_borrow_flag() {
    // V0 = 5, V1 = 3: V0 -= V1 leaves 2, VF = 1 (no borrow)
    let mut cpu = boot(vec![0x60, 0x05, 0x61, 0x03, 0x80, 0x15]);
    for _ in 0..3 {
        cpu.cycle(no_keys(), 0).unwrap();
    }
    assert_eq!(cpu.registers[0], 2);
    assert_eq!(cpu.registers[0xF], 1);
}

#[test]
fn subtract_wraps_on_borrow() {
    // V0 = 3, V1 = 5: V0 -= V1 wraps to 254, VF = 0 (borrow)
    let mut cpu = boot(vec![0x60, 0x03, 0x61, 0x05, 0x80, 0x15]);
    for _ in 0..3 {
        cpu.cycle(no_keys(), 0).unwrap();
    }
    assert_eq!(cpu.registers[0], 254);
    assert_eq!(cpu.registers[0xF], 0);
}

#[test]
fn reverse_subtract_flags() {
    // V0 = 3, V1 = 5: V0 = V1 - V0 = 2, VF = 1 (no borrow)
    let mut cpu = boot(vec![0x60, 0x03, 0x61, 0x05, 0x80, 0x17]);
    for _ in 0..3 {
        cpu.cycle(no_keys(), 0).unwrap();
    }
    assert_eq!(cpu.registers[0], 2);
    assert_eq!(cpu.registers[0xF], 1);
}

#[test]
fn equal_subtraction_counts_as_no_borrow() {
    let mut cpu = boot(vec![0x60, 0x07, 0x61, 0x07, 0x80, 0x15]);
    for _ in 0..3 {
        cpu.cycle(no_keys(), 0).unwrap();
    }
    assert_eq!(cpu.registers[0], 0);
    assert_eq!(cpu.registers[0xF], 1);
}

#[test]
fn call_and_return_round_trip() {
    // CALL 0x204, then a RET at 0x204 comes back to 0x202
    let mut cpu = boot(vec![0x22, 0x04, 0x00, 0x00, 0x00, 0xEE]);
    cpu.cycle(no_keys(), 0).unwrap();
    assert_eq!(cpu.pc, 0x204);
    cpu.cycle(no_keys(), 0).unwrap();
    assert_eq!(cpu.pc, 0x202);
    assert_eq!(cpu.stack.len(), 0);
}

#[test]
fn register_dump_then_load_round_trips() {
    // quirk: leave I unchanged, so the load reads where the dump wrote
    let quirks = Quirks {
        shift_source_vy: false,
        flag_write_last: false,
        increment_index_on_transfer: false,
    };
    // V0 = 0x11, V1 = 0x22, I = 0x300, dump V0..=V1, clobber V0 and V1, load V0..=V1
    let rom = vec![
        0x60, 0x11, // V0 = 0x11
        0x61, 0x22, // V1 = 0x22
        0xA3, 0x00, // I = 0x300
        0xF1, 0x55, // dump V0..=V1
        0x60, 0x00, // V0 = 0
        0x61, 0x00, // V1 = 0
        0xF1, 0x65, // load V0..=V1
    ];
    let options = Chip8Options {
        scale_factor: 10,
        file: String::new(),
        rom,
        quirks,
    };
    let mut cpu = Chip8::new_with_rom(options).unwrap();
    for _ in 0..7 {
        cpu.cycle(no_keys(), 0).unwrap();
    }
    assert_eq!(cpu.registers[0], 0x11);
    assert_eq!(cpu.registers[1], 0x22);
    assert_eq!(cpu.memory[0x300], 0x11);
    assert_eq!(cpu.memory[0x301], 0x22);
    assert_eq!(cpu.i, 0x300);
}

#[test]
fn register_dump_advances_index_by_default() {
    let rom = vec![
        0x62, 0x33, // V2 = 0x33
        0xA3, 0x00, // I = 0x300
        0xF2, 0x55, // dump V0..=V2
    ];
    let mut cpu = boot(rom);
    for _ in 0..3 {
        cpu.cycle(no_keys(), 0).unwrap();
    }
    assert_eq!(cpu.i, 0x303);
    assert_eq!(cpu.memory[0x302], 0x33);
}

#[test]
fn bcd_splits_decimal_digits() {
    // V0 = 187, I = 0x300, BCD
    let mut cpu = boot(vec![0x60, 0xBB, 0xA3, 0x00, 0xF0, 0x33]);
    for _ in 0..3 {
        cpu.cycle(no_keys(), 0).unwrap();
    }
    assert_eq!(cpu.memory[0x300], 1);
    assert_eq!(cpu.memory[0x301], 8);
    assert_eq!(cpu.memory[0x302], 7);
}

#[test]
fn await_key_holds_pc_until_a_key_arrives() {
    // F0 0A: await a key into V0
    let mut cpu = boot(vec![0xF0, 0x0A, 0x00, 0x00]);
    for _ in 0..5 {
        cpu.cycle(no_keys(), 0).unwrap();
        assert_eq!(cpu.pc, 0x200);
    }
    // keys 5 and 9 pressed: the lowest index wins, PC advances once
    let mut keys = InputState::new();
    keys.set_key(9, true);
    keys.set_key(5, true);
    cpu.cycle(keys, 0).unwrap();
    assert_eq!(cpu.registers[0], 5);
    assert_eq!(cpu.pc, 0x202);
}

#[test]
fn skip_if_key_pressed() {
    // E0 9E: skip when the key in V0 (0) is pressed
    let mut cpu = boot(vec![0xE0, 0x9E]);
    cpu.cycle(key(0), 0).unwrap();
    assert_eq!(cpu.pc, 0x204);
    let mut cpu2 = boot(vec![0xE0, 0x9E]);
    cpu2.cycle(key(3), 0).unwrap();
    assert_eq!(cpu2.pc, 0x202);
}

#[test]
fn skip_if_key_not_pressed() {
    let mut cpu = boot(vec![0xE0, 0xA1]);
    cpu.cycle(no_keys(), 0).unwrap();
    assert_eq!(cpu.pc, 0x204);
    let mut cpu2 = boot(vec![0xE0, 0xA1]);
    cpu2.cycle(key(0), 0).unwrap();
    assert_eq!(cpu2.pc, 0x202);
}

#[test]
fn skip_families_compare_correctly() {
    // 30 05 skips when V0 == 5
    let mut cpu = boot(vec![0x60, 0x05, 0x30, 0x05]);
    cpu.cycle(no_keys(), 0).unwrap();
    cpu.cycle(no_keys(), 0).unwrap();
    assert_eq!(cpu.pc, 0x206);
    // 40 06 skips when V0 != 6
    let mut cpu2 = boot(vec![0x60, 0x05, 0x40, 0x06]);
    cpu2.cycle(no_keys(), 0).unwrap();
    cpu2.cycle(no_keys(), 0).unwrap();
    assert_eq!(cpu2.pc, 0x206);
    // 50 10 skips when V0 == V1
    let mut cpu3 = boot(vec![0x50, 0x10]);
    cpu3.cycle(no_keys(), 0).unwrap();
    assert_eq!(cpu3.pc, 0x204);
    // 90 10 does not skip when V0 == V1
    let mut cpu4 = boot(vec![0x90, 0x10]);
    cpu4.cycle(no_keys(), 0).unwrap();
    assert_eq!(cpu4.pc, 0x202);
}

#[test]
fn shift_right_uses_vx_by_default() {
    // V0 = 5: SHR gives 2, VF = 1 (low bit)
    let mut cpu = boot(vec![0x60, 0x05, 0x80, 0x16]);
    cpu.cycle(no_keys(), 0).unwrap();
    cpu.cycle(no_keys(), 0).unwrap();
    assert_eq!(cpu.registers[0], 2);
    assert_eq!(cpu.registers[0xF], 1);
}

#[test]
fn shift_left_flags_high_bit() {
    // V0 = 0x81: SHL gives 0x02, VF = 1 (high bit)
    let mut cpu = boot(vec![0x60, 0x81, 0x80, 0x1E]);
    cpu.cycle(no_keys(), 0).unwrap();
    cpu.cycle(no_keys(), 0).unwrap();
    assert_eq!(cpu.registers[0], 0x02);
    assert_eq!(cpu.registers[0xF], 1);
}

#[test]
fn draw_font_glyph_and_redraw_clears_it() {
    // I = 0 (the "0" glyph), draw 5 rows at (V0, V0) twice
    let mut cpu = boot(vec![0xA0, 0x00, 0xD0, 0x05, 0xD0, 0x05]);
    cpu.cycle(no_keys(), 0).unwrap();
    cpu.cycle(no_keys(), 0).unwrap();
    // first draw on a clear grid: pixels set, no collision
    assert_eq!(cpu.registers[0xF], 0);
    for cx in 0..4 {
        assert!(cpu.screen.is_set(cx, 0));
    }
    cpu.cycle(no_keys(), 0).unwrap();
    // second draw erases them all and reports the collision
    assert_eq!(cpu.registers[0xF], 1);
    for cy in 0..32 {
        for cx in 0..64 {
            assert!(!cpu.screen.is_set(cx, cy));
        }
    }
}

#[test]
fn random_respects_mask() {
    // C0 0F: V0 = random & 0x0F
    let mut cpu = boot(vec![0xC0, 0x0F]);
    cpu.cycle(no_keys(), 0).unwrap();
    assert_eq!(cpu.registers[0] & 0xF0, 0);
}

#[test]
fn jump_and_jump_with_offset() {
    let mut cpu = boot(vec![0x12, 0x08]);
    cpu.cycle(no_keys(), 0).unwrap();
    assert_eq!(cpu.pc, 0x208);
    // V0 = 4, then jump to 0x300 + V0
    let mut cpu2 = boot(vec![0x60, 0x04, 0xB3, 0x00]);
    cpu2.cycle(no_keys(), 0).unwrap();
    cpu2.cycle(no_keys(), 0).unwrap();
    assert_eq!(cpu2.pc, 0x304);
}

#[test]
fn font_addressing_points_into_the_table() {
    // V0 = 0xA, then I = V0 * 5
    let mut cpu = boot(vec![0x60, 0x0A, 0xF0, 0x29]);
    cpu.cycle(no_keys(), 0).unwrap();
    cpu.cycle(no_keys(), 0).unwrap();
    assert_eq!(cpu.i, 50);
}

#[test]
fn timer_set_and_get_through_opcodes() {
    // V0 = 9, delay = V0, V1 = delay
    let mut cpu = boot(vec![0x60, 0x09, 0xF0, 0x15, 0xF1, 0x07]);
    for _ in 0..3 {
        cpu.cycle(no_keys(), 0).unwrap();
    }
    assert_eq!(cpu.timers.delay_timer, 9);
    assert_eq!(cpu.registers[1], 9);
}

#[test]
fn unsupported_opcode_is_fatal() {
    let mut cpu = boot(vec![0xF0, 0xFF]);
    let fault = cpu.cycle(no_keys(), 0).unwrap_err();
    assert_eq!(fault.pc, 0x200);
    assert_eq!(fault.opcode, 0xF0FF);
    assert!(matches!(fault.cause, FaultCause::UnsupportedOpcode));
    assert!(!cpu.running);
}

#[test]
fn return_with_empty_stack_is_fatal() {
    let mut cpu = boot(vec![0x00, 0xEE]);
    let fault = cpu.cycle(no_keys(), 0).unwrap_err();
    assert!(matches!(fault.cause, FaultCause::StackUnderflow));
}

#[test]
fn call_overflow_is_fatal() {
    // a call that targets itself grows the stack by one per cycle
    let mut cpu = boot(vec![0x22, 0x00]);
    for _ in 0..16 {
        cpu.cycle(no_keys(), 0).unwrap();
    }
    let fault = cpu.cycle(no_keys(), 0).unwrap_err();
    assert!(matches!(fault.cause, FaultCause::StackOverflow));
}

#[test]
fn draw_past_end_of_memory_is_fatal() {
    // I = 0xFFF, then draw five rows from there
    let mut cpu = boot(vec![0xAF, 0xFF, 0xD0, 0x05]);
    cpu.cycle(no_keys(), 0).unwrap();
    let fault = cpu.cycle(no_keys(), 0).unwrap_err();
    assert!(matches!(fault.cause, FaultCause::MemoryOutOfBounds { .. }));
}

#[test]
fn oversized_rom_is_rejected_before_execution() {
    let rom = vec![0u8; 4096 - 0x200 + 1];
    let err = match Chip8::new_with_rom(Chip8Options::new(10, rom)) {
        Ok(_) => panic!("an oversized ROM must be rejected"),
        Err(e) => e,
    };
    assert_eq!(err.rom_len, 4096 - 0x200 + 1);
    assert_eq!(err.capacity, 4096 - 0x200);
    let just_fits = vec![0u8; 4096 - 0x200];
    assert!(Chip8::new_with_rom(Chip8Options::new(10, just_fits)).is_ok());
}

#[test]
fn index_add_masks_to_twelve_bits() {
    // I = 0xFFF, V0 = 2, I += V0 wraps into 12 bits
    let mut cpu = boot(vec![0xAF, 0xFF, 0x60, 0x02, 0xF0, 0x1E]);
    for _ in 0..3 {
        cpu.cycle(no_keys(), 0).unwrap();
    }
    assert_eq!(cpu.i, 0x001);
}

#[test]
fn timers_tick_across_cycles() {
    // delay = 2 via opcodes, then idle cycles with elapsed time
    let mut cpu = boot(vec![0x60, 0x02, 0xF0, 0x15, 0x12, 0x04]);
    cpu.cycle(no_keys(), 0).unwrap();
    cpu.cycle(no_keys(), 0).unwrap();
    assert_eq!(cpu.timers.delay_timer, 2);
    // ten cycles of 10 ms each: 100 ms is five full ticks, timer floors at 0
    for _ in 0..10 {
        cpu.cycle(no_keys(), 10_000).unwrap();
    }
    assert_eq!(cpu.timers.delay_timer, 0);
}

#[test]
fn clear_screen_opcode_wipes_the_grid() {
    let mut cpu = boot(vec![0xA0, 0x00, 0xD0, 0x05, 0x00, 0xE0]);
    cpu.cycle(no_keys(), 0).unwrap();
    cpu.cycle(no_keys(), 0).unwrap();
    assert!(cpu.screen.is_set(0, 0));
    cpu.cycle(no_keys(), 0).unwrap();
    for cy in 0..32 {
        for cx in 0..64 {
            assert!(!cpu.screen.is_set(cx, cy));
        }
    }
}
