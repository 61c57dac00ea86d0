//! The execution engine: registers, memory, program counter, call stack
//! and index register, plus ownership of the pixel grid, the timers and
//! the key state. One `cycle` call fetches, decodes and executes the
//! opcode at the program counter, then advances the timers by the elapsed
//! wall time the caller reports. Any out-of-range access or unrecognized
//! opcode is fatal: the engine halts and surfaces the program counter,
//! the opcode word and the cause.
use vstd::prelude::*;

use crate::decode::{decode, opcode_word, spec_decode, spec_opcode, Instruction};
use crate::framebuffer::{blank_grid, draw_result, spec_collision, FrameBuffer};
use crate::input::{spec_lowest_pressed, InputState};
use crate::options::{Chip8Options, Quirks};
use crate::timers::{spec_count_down, spec_remainder, spec_ticks, Timers, TICK_MICROS};

verus! {

/// Why the engine halted.
#[derive(Clone, Copy, PartialEq, Eq, Structural, Debug)]
pub enum FaultCause {
    /// The opcode word matches no instruction of the architecture.
    UnsupportedOpcode,
    /// A call was made with the call stack already at its depth limit.
    StackOverflow,
    /// A return was executed with the call stack empty.
    StackUnderflow,
    /// A memory access needed bytes up to `index`, at or past `bound`.
    MemoryOutOfBounds { index: u16, bound: u16 },
}

/// A fatal condition: the address of the instruction that failed, the
/// opcode word, and the cause. The engine stops and reports; it never
/// retries or clamps.
#[derive(Clone, Copy, PartialEq, Eq, Structural, Debug)]
pub struct Fault {
    pub pc: u16,
    pub opcode: u16,
    pub cause: FaultCause,
}

/// A ROM that does not fit the address space above the program base.
#[derive(Clone, Copy, PartialEq, Eq, Structural, Debug)]
pub struct LoadError {
    pub rom_len: usize,
    pub capacity: usize,
}

/// The mathematical state of the whole machine: every contract of the
/// engine relates values of this type.
pub struct MachineView {
    pub running: bool,
    pub awaiting_key: Option<u8>,
    pub delay: u8,
    pub sound: u8,
    pub acc: u64,
    pub grid: Seq<bool>,
    pub keys: Seq<bool>,
    pub memory: Seq<u8>,
    pub registers: Seq<u8>,
    pub i: u16,
    pub pc: u16,
    pub last_pc: u16,
    pub cycles: u64,
    pub stack: Seq<u16>,
    pub quirks: Quirks,
    pub fault: Option<Fault>,
}

impl MachineView {
    /// Structural soundness: fixed sizes and a drained accumulator.
    pub open spec fn wf(&self) -> bool {
        &&& self.memory.len() == 4096
        &&& self.registers.len() == 16
        &&& self.stack.len() <= 16
        &&& self.keys.len() == 16
        &&& self.grid.len() == 2048
        &&& self.acc < TICK_MICROS
        &&& (self.awaiting_key matches Some(x) ==> x < 16)
    }
}

/// The execution engine. Fields are exposed so that a host can read the
/// grid and registers and flip `running` on a quit signal; all mutation
/// during execution goes through `cycle`.
pub struct Chip8 {
    pub running: bool,
    pub awaiting_key: Option<u8>,
    pub timers: Timers,
    pub screen: FrameBuffer,
    pub keys: InputState,
    pub memory: Vec<u8>,
    pub registers: Vec<u8>,
    pub i: u16,
    pub pc: u16,
    pub last_pc: u16,
    pub cycles: u64,
    pub stack: Vec<u16>,
    pub quirks: Quirks,
    pub fault: Option<Fault>,
}

impl View for Chip8 {
    type V = MachineView;

    open spec fn view(&self) -> MachineView {
        MachineView {
            running: self.running,
            awaiting_key: self.awaiting_key,
            delay: self.timers.delay_timer,
            sound: self.timers.sound_timer,
            acc: self.timers.accumulated_micros,
            grid: self.screen@,
            keys: self.keys@,
            memory: self.memory@,
            registers: self.registers@,
            i: self.i,
            pc: self.pc,
            last_pc: self.last_pc,
            cycles: self.cycles,
            stack: self.stack@,
            quirks: self.quirks,
            fault: self.fault,
        }
    }
}

/// Program ROM is loaded at this memory offset, and execution starts here.
pub const PROGRAM_BASE: u16 = 0x200;

/// Maximum call depth of the dedicated return-address stack.
pub const STACK_DEPTH: usize = 16;

/// The state with register `r` set to `v` and nothing else changed.
pub open spec fn with_reg(s: MachineView, r: int, v: u8) -> MachineView {
    MachineView { registers: s.registers.update(r, v), ..s }
}

/// The state with the program counter moved and nothing else changed.
pub open spec fn with_pc(s: MachineView, pc: u16) -> MachineView {
    MachineView { pc, ..s }
}

/// `mem` with `data` written over it starting at `base`.
pub open spec fn spec_overlay(mem: Seq<u8>, data: Seq<u8>, base: int) -> Seq<u8> {
    Seq::new(mem.len(), |j: int| if base <= j < base + data.len() { data[j - base] } else { mem[j] })
}

/// The 80-byte font table: sixteen 8x5 glyphs for the digits 0 through F,
/// five bytes each, loaded at memory offset 0.
pub open spec fn spec_font() -> Seq<u8> {
    seq![
        0xF0u8, 0x90u8, 0x90u8, 0x90u8, 0xF0u8,
        0x20u8, 0x60u8, 0x20u8, 0x20u8, 0x70u8,
        0xF0u8, 0x10u8, 0xF0u8, 0x80u8, 0xF0u8,
        0xF0u8, 0x10u8, 0xF0u8, 0x10u8, 0xF0u8,
        0x90u8, 0x90u8, 0xF0u8, 0x10u8, 0x10u8,
        0xF0u8, 0x80u8, 0xF0u8, 0x10u8, 0xF0u8,
        0xF0u8, 0x80u8, 0xF0u8, 0x90u8, 0xF0u8,
        0xF0u8, 0x10u8, 0x20u8, 0x40u8, 0x40u8,
        0xF0u8, 0x90u8, 0xF0u8, 0x90u8, 0xF0u8,
        0xF0u8, 0x90u8, 0xF0u8, 0x10u8, 0xF0u8,
        0xF0u8, 0x90u8, 0xF0u8, 0x90u8, 0x90u8,
        0xE0u8, 0x90u8, 0xE0u8, 0x90u8, 0xE0u8,
        0xF0u8, 0x80u8, 0x80u8, 0x80u8, 0xF0u8,
        0xE0u8, 0x90u8, 0x90u8, 0x90u8, 0xE0u8,
        0xF0u8, 0x80u8, 0xF0u8, 0x80u8, 0xF0u8,
        0xF0u8, 0x80u8, 0xF0u8, 0x80u8, 0x80u8,
    ]
}

/// The 4096-byte memory image the machine starts from: the font at the
/// base of memory, the ROM at the program base, zeroes elsewhere.
pub open spec fn spec_initial_memory(rom: Seq<u8>) -> Seq<u8> {
    spec_overlay(spec_overlay(Seq::new(4096, |j: int| 0u8), spec_font(), 0), rom, PROGRAM_BASE as int)
}

/// The font table as a fresh vector.
fn font_data() -> (v: Vec<u8>)
    ensures
        v@ == spec_font(),
{
    let v: Vec<u8> = vec![
        0xF0u8, 0x90u8, 0x90u8, 0x90u8, 0xF0u8,
        0x20u8, 0x60u8, 0x20u8, 0x20u8, 0x70u8,
        0xF0u8, 0x10u8, 0xF0u8, 0x80u8, 0xF0u8,
        0xF0u8, 0x10u8, 0xF0u8, 0x10u8, 0xF0u8,
        0x90u8, 0x90u8, 0xF0u8, 0x10u8, 0x10u8,
        0xF0u8, 0x80u8, 0xF0u8, 0x10u8, 0xF0u8,
        0xF0u8, 0x80u8, 0xF0u8, 0x90u8, 0xF0u8,
        0xF0u8, 0x10u8, 0x20u8, 0x40u8, 0x40u8,
        0xF0u8, 0x90u8, 0xF0u8, 0x90u8, 0xF0u8,
        0xF0u8, 0x90u8, 0xF0u8, 0x10u8, 0xF0u8,
        0xF0u8, 0x90u8, 0xF0u8, 0x90u8, 0x90u8,
        0xE0u8, 0x90u8, 0xE0u8, 0x90u8, 0xE0u8,
        0xF0u8, 0x80u8, 0x80u8, 0x80u8, 0xF0u8,
        0xE0u8, 0x90u8, 0x90u8, 0x90u8, 0xE0u8,
        0xF0u8, 0x80u8, 0xF0u8, 0x80u8, 0xF0u8,
        0xF0u8, 0x80u8, 0xF0u8, 0x80u8, 0x80u8,
    ];
    proof {
        assert(v@ =~= spec_font());
    }
    v
}

impl Chip8 {
    /// The engine's invariant, stated over its mathematical state.
    pub open spec fn wf(&self) -> bool {
        self@.wf()
    }

    /// Build a machine with memory zeroed, the font at offset 0, the ROM
    /// at the program base, the program counter at the program base, an
    /// empty call stack and all registers and timers zero. Fails, before
    /// any execution, when the ROM does not fit above the program base.
    pub fn new_with_rom(options: Chip8Options) -> (r: Result<Chip8, LoadError>)
        ensures
            r is Ok <==> options.rom@.len() + PROGRAM_BASE <= 4096,
            r matches Ok(c) ==> {
                &&& c.wf()
                &&& c@.memory == spec_initial_memory(options.rom@)
                &&& c@.registers == Seq::new(16, |j: int| 0u8)
                &&& c@.grid == blank_grid()
                &&& c@.keys == Seq::new(16, |j: int| false)
                &&& c@.stack == Seq::<u16>::empty()
                &&& c@.pc == PROGRAM_BASE
                &&& c@.i == 0
                &&& c@.last_pc == 0
                &&& c@.cycles == 0
                &&& c@.delay == 0
                &&& c@.sound == 0
                &&& c@.acc == 0
                &&& c@.running
                &&& c@.awaiting_key is None
                &&& c@.fault is None
                &&& c@.quirks == options.quirks
            },
            r matches Err(e) ==> e.rom_len == options.rom@.len() && e.capacity == 4096
                - PROGRAM_BASE,
    {
        if options.rom.len() > 4096 - (PROGRAM_BASE as usize) {
            return Err(LoadError { rom_len: options.rom.len(), capacity: 4096 - (PROGRAM_BASE as usize) });
        }
        let mut memory: Vec<u8> = Vec::new();
        let mut j: usize = 0;
        while j < 4096
            invariant
                j <= 4096,
                memory@.len() == j,
                forall|k: int| 0 <= k < j ==> memory@[k] == 0u8,
            decreases 4096 - j,
        {
            memory.push(0u8);
            j += 1;
        }
        let mut registers: Vec<u8> = Vec::new();
        let mut k: usize = 0;
        while k < 16
            invariant
                k <= 16,
                registers@.len() == k,
                forall|m: int| 0 <= m < k ==> registers@[m] == 0u8,
            decreases 16 - k,
        {
            registers.push(0u8);
            k += 1;
        }
        let mut chip = Chip8 {
            running: true,
            awaiting_key: None,
            timers: Timers::new(),
            screen: FrameBuffer::new(),
            keys: InputState::new(),
            memory,
            registers,
            i: 0,
            pc: PROGRAM_BASE,
            last_pc: 0,
            cycles: 0,
            stack: Vec::new(),
            quirks: options.quirks,
            fault: None,
        };
        let font = font_data();
        chip.load_rom(font.as_slice(), 0);
        chip.load_rom(options.rom.as_slice(), PROGRAM_BASE as usize);
        proof {
            assert(chip@.registers =~= Seq::new(16, |j: int| 0u8));
            assert(chip@.keys =~= Seq::new(16, |j: int| false));
            assert(chip@.stack =~= Seq::<u16>::empty());
        }
        Ok(chip)
    }

    /// Copy `rom` verbatim into memory starting at `index`.
    pub fn load_rom(&mut self, rom: &[u8], index: usize)
        requires
            old(self).wf(),
            index + rom@.len() <= 4096,
        ensures
            final(self).wf(),
            final(self)@ == (MachineView {
                memory: spec_overlay(old(self)@.memory, rom@, index as int),
                ..old(self)@
            }),
    {
        let ghost mem0 = self@.memory;
        proof {
            assert(spec_overlay(mem0, rom@.take(0), index as int) =~= mem0);
        }
        let mut k: usize = 0;
        while k < rom.len()
            invariant
                old(self).wf(),
                self@.memory.len() == 4096,
                index + rom@.len() <= 4096,
                k <= rom@.len(),
                mem0 == old(self)@.memory,
                self@ == (MachineView {
                    memory: spec_overlay(mem0, rom@.take(k as int), index as int),
                    ..old(self)@
                }),
            decreases rom@.len() - k,
        {
            self.memory.set(index + k, rom[k]);
            proof {
                assert(spec_overlay(mem0, rom@.take(k as int), index as int).update(
                    index + k,
                    rom@[k as int],
                ) =~= spec_overlay(mem0, rom@.take(k as int + 1), index as int));
            }
            k += 1;
        }
        proof {
            assert(rom@.take(rom@.len() as int) =~= rom@);
        }
    }

    /// Jump: set the program counter to `address`.
    pub fn jump_to_address(&mut self, address: u16)
        requires
            old(self).wf(),
        ensures
            final(self).wf(),
            final(self)@ == with_pc(old(self)@, address),
    {
        self.pc = address;
    }

    /// Call: push the current program counter (already advanced, so the
    /// address of the next instruction) and jump to `address`. Fails when
    /// the stack is at its depth limit.
    pub fn call_subroutine(&mut self, address: u16) -> (r: Result<(), FaultCause>)
        requires
            old(self).wf(),
        ensures
            final(self).wf(),
            old(self)@.stack.len() < STACK_DEPTH ==> r is Ok && final(self)@ == (MachineView {
                stack: old(self)@.stack.push(old(self)@.pc),
                pc: address,
                ..old(self)@
            }),
            old(self)@.stack.len() >= STACK_DEPTH ==> r == Result::<(), FaultCause>::Err(
                FaultCause::StackOverflow,
            ) && final(self)@ == old(self)@,
    {
        if self.stack.len() >= STACK_DEPTH {
            return Err(FaultCause::StackOverflow);
        }
        self.stack.push(self.pc);
        self.pc = address;
        Ok(())
    }

    /// Group-0 instructions: clear the grid, return from a subroutine, or
    /// a legacy system call, which is a no-op. Return fails when the call
    /// stack is empty.
    pub fn clear_return(&mut self, address: u16) -> (r: Result<(), FaultCause>)
        requires
            old(self).wf(),
        ensures
            final(self).wf(),
            address == 0x0E0 ==> r is Ok && final(self)@ == (MachineView {
                grid: blank_grid(),
                ..old(self)@
            }),
            address == 0x0EE && old(self)@.stack.len() > 0 ==> r is Ok && final(self)@
                == (MachineView {
                pc: old(self)@.stack.last(),
                stack: old(self)@.stack.drop_last(),
                ..old(self)@
            }),
            address == 0x0EE && old(self)@.stack.len() == 0 ==> r == Result::<(
                ),
                FaultCause,
            >::Err(FaultCause::StackUnderflow) && final(self)@ == old(self)@,
            address != 0x0E0 && address != 0x0EE ==> r is Ok && final(self)@ == old(self)@,
    {
        if address == 0x0E0 {
            self.screen.clear();
            Ok(())
        } else if address == 0x0EE {
            match self.stack.pop() {
                Some(ret) => {
                    self.pc = ret;
                    Ok(())
                },
                None => Err(FaultCause::StackUnderflow),
            }
        } else {
            Ok(())
        }
    }

    /// Skip the next instruction when Vx equals the immediate.
    pub fn skip_if_reg_equal_val(&mut self, number: u8, reg: u8)
        requires
            old(self).wf(),
            reg < 16,
            old(self).pc <= 0xFFFD,
        ensures
            final(self).wf(),
            final(self)@ == (if old(self)@.registers[reg as int] == number {
                with_pc(old(self)@, (old(self)@.pc + 2) as u16)
            } else {
                old(self)@
            }),
    {
        if self.registers[reg as usize] == number {
            self.pc = self.pc + 2;
        }
    }

    /// Skip the next instruction when Vx differs from the immediate.
    pub fn skip_if_reg_not_equal_val(&mut self, number: u8, reg: u8)
        requires
            old(self).wf(),
            reg < 16,
            old(self).pc <= 0xFFFD,
        ensures
            final(self).wf(),
            final(self)@ == (if old(self)@.registers[reg as int] != number {
                with_pc(old(self)@, (old(self)@.pc + 2) as u16)
            } else {
                old(self)@
            }),
    {
        if self.registers[reg as usize] != number {
            self.pc = self.pc + 2;
        }
    }

    /// Skip the next instruction when Vx equals Vy.
    pub fn skip_if_reg_equal_reg(&mut self, reg_1: u8, reg_2: u8)
        requires
            old(self).wf(),
            reg_1 < 16,
            reg_2 < 16,
            old(self).pc <= 0xFFFD,
        ensures
            final(self).wf(),
            final(self)@ == (if old(self)@.registers[reg_1 as int] == old(self)@.registers[reg_2 as int] {
                with_pc(old(self)@, (old(self)@.pc + 2) as u16)
            } else {
                old(self)@
            }),
    {
        if self.registers[reg_1 as usize] == self.registers[reg_2 as usize] {
            self.pc = self.pc + 2;
        }
    }

    /// Skip the next instruction when Vx differs from Vy.
    pub fn skip_if_reg_not_equal_reg(&mut self, reg_1: u8, reg_2: u8)
        requires
            old(self).wf(),
            reg_1 < 16,
            reg_2 < 16,
            old(self).pc <= 0xFFFD,
        ensures
            final(self).wf(),
            final(self)@ == (if old(self)@.registers[reg_1 as int] != old(self)@.registers[reg_2 as int] {
                with_pc(old(self)@, (old(self)@.pc + 2) as u16)
            } else {
                old(self)@
            }),
    {
        if self.registers[reg_1 as usize] != self.registers[reg_2 as usize] {
            self.pc = self.pc + 2;
        }
    }

    /// Load the immediate into Vx.
    pub fn move_value_to_reg(&mut self, reg: u8, number: u8)
        requires
            old(self).wf(),
            reg < 16,
        ensures
            final(self).wf(),
            final(self)@ == with_reg(old(self)@, reg as int, number),
    {
        self.registers.set(reg as usize, number);
    }

    /// Add the immediate to Vx, wrapping modulo 256. VF is untouched.
    pub fn add_value_to_reg(&mut self, reg: u8, number: u8)
        requires
            old(self).wf(),
            reg < 16,
        ensures
            final(self).wf(),
            final(self)@ == with_reg(
                old(self)@,
                reg as int,
                ((old(self)@.registers[reg as int] + number) % 256) as u8,
            ),
    {
        let sum: u16 = (self.registers[reg as usize] as u16) + (number as u16);
        self.registers.set(reg as usize, (sum % 256) as u8);
    }

    /// Load the index register with `address`.
    pub fn load_index_reg_with_value(&mut self, address: u16)
        requires
            old(self).wf(),
        ensures
            final(self).wf(),
            final(self)@ == (MachineView { i: address, ..old(self)@ }),
    {
        self.i = address;
    }

    /// Jump to `address` plus V0.
    pub fn jump_to_register_plus_value(&mut self, address: u16)
        requires
            old(self).wf(),
            address < 0x1000,
        ensures
            final(self).wf(),
            final(self)@ == with_pc(
                old(self)@,
                (old(self)@.registers[0] + address) as u16,
            ),
    {
        self.pc = (self.registers[0] as u16) + address;
    }
}

/// Relies on rand::random of the rand crate for the 0xC instruction: it
/// draws a value of the requested type from the thread-local generator.
/// Nothing can be assumed of the value; every caller must be correct for
/// every possible byte.
pub assume_specification<T>[ rand::random::<T> ]() -> (r: T)
    where
        rand::distributions::Standard: rand::distributions::Distribution<T>,
;

/// The state after an instruction that writes both a result register and
/// the VF flag. The quirk flag picks the write order, observable only
/// when the result register is VF itself.
pub open spec fn spec_flag_result(s: MachineView, x: int, val: u8, flag: u8) -> MachineView {
    if s.quirks.flag_write_last {
        MachineView { registers: s.registers.update(x, val).update(15, flag), ..s }
    } else {
        MachineView { registers: s.registers.update(15, flag).update(x, val), ..s }
    }
}

/// The register-to-register instruction family, selected by the low
/// nibble: copy, bitwise OR/AND/XOR, add with carry flag, the two
/// subtractions with no-borrow flag, and the two shifts. `None` marks an
/// unsupported selector. Arithmetic wraps modulo 256; the carry flag for
/// the addition is 1 exactly when the unwrapped sum exceeds 255, and the
/// flag for a subtraction is 1 exactly when the minuend is at least the
/// subtrahend.
pub open spec fn spec_logical(s: MachineView, x: int, y: int, n: int) -> Option<MachineView> {
    let rx = s.registers[x];
    let ry = s.registers[y];
    if n == 0 {
        Some(with_reg(s, x, ry))
    } else if n == 1 {
        Some(with_reg(s, x, rx | ry))
    } else if n == 2 {
        Some(with_reg(s, x, rx & ry))
    } else if n == 3 {
        Some(with_reg(s, x, rx ^ ry))
    } else if n == 4 {
        Some(
            spec_flag_result(
                s,
                x,
                ((rx + ry) % 256) as u8,
                if rx + ry > 255 {
                    1u8
                } else {
                    0u8
                },
            ),
        )
    } else if n == 5 {
        Some(
            spec_flag_result(
                s,
                x,
                ((rx - ry) % 256) as u8,
                if rx >= ry {
                    1u8
                } else {
                    0u8
                },
            ),
        )
    } else if n == 6 {
        let op = if s.quirks.shift_source_vy {
            ry
        } else {
            rx
        };
        Some(spec_flag_result(s, x, op >> 1, op & 1))
    } else if n == 7 {
        Some(
            spec_flag_result(
                s,
                x,
                ((ry - rx) % 256) as u8,
                if ry >= rx {
                    1u8
                } else {
                    0u8
                },
            ),
        )
    } else if n == 0xE {
        let op = if s.quirks.shift_source_vy {
            ry
        } else {
            rx
        };
        Some(spec_flag_result(s, x, op << 1, op >> 7))
    } else {
        None
    }
}

/// Whether the key held in a register is currently pressed: register
/// values outside the sixteen keys are never pressed.
pub open spec fn spec_key_pressed(s: MachineView, v: u8) -> bool {
    v < 16 && s.keys[v as int]
}

/// The effective memory index of the index register: its low 12 bits.
pub open spec fn spec_eff_index(i: u16) -> int {
    (i as int) % 4096
}

/// The registers after loading the first `k` of them from memory at
/// `base`; the rest keep their values.
pub open spec fn spec_load_regs(regs: Seq<u8>, mem: Seq<u8>, base: int, k: int) -> Seq<u8> {
    Seq::new(regs.len(), |r: int| if 0 <= r < k { mem[base + r] } else { regs[r] })
}

/// The miscellaneous instruction family (group 0xF), selected by the low
/// byte: timer moves, key await, index arithmetic, font addressing, BCD,
/// and the register dump and load with the index-increment quirk.
pub open spec fn spec_misc(s: MachineView, x: int, disc: int) -> Result<MachineView, FaultCause> {
    let vx = s.registers[x];
    let eff = spec_eff_index(s.i);
    if disc == 0x07 {
        Ok(with_reg(s, x, s.delay))
    } else if disc == 0x0A {
        match spec_lowest_pressed(s.keys) {
            Some(k) => Ok(
                MachineView { registers: s.registers.update(x, k), awaiting_key: None, ..s },
            ),
            None => Ok(MachineView { awaiting_key: Some(x as u8), pc: s.last_pc, ..s }),
        }
    } else if disc == 0x15 {
        Ok(MachineView { delay: vx, ..s })
    } else if disc == 0x18 {
        Ok(MachineView { sound: vx, ..s })
    } else if disc == 0x1E {
        Ok(MachineView { i: ((s.i + vx) % 4096) as u16, ..s })
    } else if disc == 0x29 {
        Ok(MachineView { i: (vx * 5) as u16, ..s })
    } else if disc == 0x33 {
        if eff + 2 >= 4096 {
            Err(FaultCause::MemoryOutOfBounds { index: (eff + 2) as u16, bound: 4096 })
        } else {
            Ok(
                MachineView {
                    memory: s.memory.update(eff, (vx / 100) as u8).update(
                        eff + 1,
                        ((vx / 10) % 10) as u8,
                    ).update(eff + 2, (vx % 10) as u8),
                    ..s
                },
            )
        }
    } else if disc == 0x55 {
        if eff + x >= 4096 {
            Err(FaultCause::MemoryOutOfBounds { index: (eff + x) as u16, bound: 4096 })
        } else {
            Ok(
                MachineView {
                    memory: spec_overlay(s.memory, s.registers.take(x + 1), eff),
                    i: if s.quirks.increment_index_on_transfer {
                        (eff + x + 1) as u16
                    } else {
                        s.i
                    },
                    ..s
                },
            )
        }
    } else if disc == 0x65 {
        if eff + x >= 4096 {
            Err(FaultCause::MemoryOutOfBounds { index: (eff + x) as u16, bound: 4096 })
        } else {
            Ok(
                MachineView {
                    registers: spec_load_regs(s.registers, s.memory, eff, x + 1),
                    i: if s.quirks.increment_index_on_transfer {
                        (eff + x + 1) as u16
                    } else {
                        s.i
                    },
                    ..s
                },
            )
        }
    } else {
        Err(FaultCause::UnsupportedOpcode)
    }
}

/// The draw instruction: `n` sprite rows read from memory at the
/// effective index, composited at (Vx, Vy), VF set to the collision flag.
/// Fails when the rows would reach past the end of memory.
pub open spec fn spec_draw_sprite(s: MachineView, x: int, y: int, n: int) -> Result<
    MachineView,
    FaultCause,
> {
    let eff = spec_eff_index(s.i);
    if eff + n > 4096 {
        Err(FaultCause::MemoryOutOfBounds { index: (eff + n) as u16, bound: 4096 })
    } else {
        let sprite = s.memory.subrange(eff, eff + n);
        let vx = s.registers[x];
        let vy = s.registers[y];
        let coll = spec_collision(s.grid, vx as int, vy as int, sprite);
        Ok(
            MachineView {
                grid: draw_result(s.grid, vx as int, vy as int, sprite),
                registers: s.registers.update(
                    15,
                    if coll {
                        1u8
                    } else {
                        0u8
                    },
                ),
                ..s
            },
        )
    }
}

impl Chip8 {
    /// Write a result register and the VF flag in the order the quirk
    /// configuration picks.
    fn set_flag_and_reg(&mut self, x: u8, val: u8, flag: u8)
        requires
            old(self).wf(),
            x < 16,
        ensures
            final(self).wf(),
            final(self)@ == spec_flag_result(old(self)@, x as int, val, flag),
    {
        if self.quirks.flag_write_last {
            self.registers.set(x as usize, val);
            self.registers.set(15, flag);
        } else {
            self.registers.set(15, flag);
            self.registers.set(x as usize, val);
        }
    }

    /// The register-to-register family (group 8): copy, bitwise ops,
    /// add with carry, the two subtractions, and the shifts, exactly as
    /// `spec_logical` states them.
    pub fn execute_logical_instruction(&mut self, reg_1: u8, reg_2: u8, disc: u8) -> (r: Result<
        (),
        FaultCause,
    >)
        requires
            old(self).wf(),
            reg_1 < 16,
            reg_2 < 16,
        ensures
            final(self).wf(),
            match spec_logical(old(self)@, reg_1 as int, reg_2 as int, disc as int) {
                Some(s2) => r is Ok && final(self)@ == s2,
                None => r == Result::<(), FaultCause>::Err(FaultCause::UnsupportedOpcode)
                    && final(self)@ == old(self)@,
            },
    {
        let rx = self.registers[reg_1 as usize];
        let ry = self.registers[reg_2 as usize];
        match disc {
            0x00 => {
                self.registers.set(reg_1 as usize, ry);
                Ok(())
            },
            0x01 => {
                self.registers.set(reg_1 as usize, rx | ry);
                Ok(())
            },
            0x02 => {
                self.registers.set(reg_1 as usize, rx & ry);
                Ok(())
            },
            0x03 => {
                self.registers.set(reg_1 as usize, rx ^ ry);
                Ok(())
            },
            0x04 => {
                let sum: u16 = (rx as u16) + (ry as u16);
                let flag: u8 = if sum > 255 {
                    1
                } else {
                    0
                };
                self.set_flag_and_reg(reg_1, (sum % 256) as u8, flag);
                Ok(())
            },
            0x05 => {
                let flag: u8 = if rx >= ry {
                    1
                } else {
                    0
                };
                let val: u8 = if rx >= ry {
                    rx - ry
                } else {
                    ((256u16 + rx as u16) - ry as u16) as u8
                };
                proof {
                    lemma_wrap_sub(rx, ry);
                }
                self.set_flag_and_reg(reg_1, val, flag);
                Ok(())
            },
            0x06 => {
                let op = if self.quirks.shift_source_vy {
                    ry
                } else {
                    rx
                };
                self.set_flag_and_reg(reg_1, op >> 1, op & 1);
                Ok(())
            },
            0x07 => {
                let flag: u8 = if ry >= rx {
                    1
                } else {
                    0
                };
                let val: u8 = if ry >= rx {
                    ry - rx
                } else {
                    ((256u16 + ry as u16) - rx as u16) as u8
                };
                proof {
                    lemma_wrap_sub(ry, rx);
                }
                self.set_flag_and_reg(reg_1, val, flag);
                Ok(())
            },
            0x0E => {
                let op = if self.quirks.shift_source_vy {
                    ry
                } else {
                    rx
                };
                self.set_flag_and_reg(reg_1, op << 1, op >> 7);
                Ok(())
            },
            _ => Err(FaultCause::UnsupportedOpcode),
        }
    }

    /// Store `byte & mask` into Vx: the deterministic tail of the random
    /// instruction, verified for every possible byte.
    pub fn store_masked_random(&mut self, reg: u8, byte: u8, mask: u8)
        requires
            old(self).wf(),
            reg < 16,
        ensures
            final(self).wf(),
            final(self)@ == with_reg(old(self)@, reg as int, byte & mask),
    {
        self.registers.set(reg as usize, byte & mask);
    }

    /// Load Vx with a random byte AND the mask. The byte comes from the
    /// host's generator, so all that is promised is that some byte was
    /// masked in; nothing else changes.
    pub fn generate_random_number(&mut self, reg: u8, mask: u8)
        requires
            old(self).wf(),
            reg < 16,
        ensures
            final(self).wf(),
            exists|b: u8| final(self)@ == with_reg(old(self)@, reg as int, b & mask),
    {
        let b: u8 = rand::random();
        self.store_masked_random(reg, b, mask);
        proof {
            assert(self@ == with_reg(old(self)@, reg as int, b & mask));
        }
    }

    /// The key-skip family (group 0xE): skip the next instruction when
    /// the key held in Vx is pressed (0x9E) or not pressed (0xA1).
    pub fn keyboard_routines(&mut self, reg: u8, disc: u8) -> (r: Result<(), FaultCause>)
        requires
            old(self).wf(),
            reg < 16,
            old(self).pc <= 0xFFFD,
        ensures
            final(self).wf(),
            disc == 0x9E ==> r is Ok && final(self)@ == (if spec_key_pressed(
                old(self)@,
                old(self)@.registers[reg as int],
            ) {
                with_pc(old(self)@, (old(self)@.pc + 2) as u16)
            } else {
                old(self)@
            }),
            disc == 0xA1 ==> r is Ok && final(self)@ == (if !spec_key_pressed(
                old(self)@,
                old(self)@.registers[reg as int],
            ) {
                with_pc(old(self)@, (old(self)@.pc + 2) as u16)
            } else {
                old(self)@
            }),
            disc != 0x9E && disc != 0xA1 ==> r == Result::<(), FaultCause>::Err(
                FaultCause::UnsupportedOpcode,
            ) && final(self)@ == old(self)@,
    {
        let vx = self.registers[reg as usize];
        let pressed = if vx < 16 {
            self.keys.is_pressed(vx)
        } else {
            false
        };
        match disc {
            0x9E => {
                if pressed {
                    self.pc = self.pc + 2;
                }
                Ok(())
            },
            0xA1 => {
                if !pressed {
                    self.pc = self.pc + 2;
                }
                Ok(())
            },
            _ => Err(FaultCause::UnsupportedOpcode),
        }
    }

    /// The miscellaneous family (group 0xF), exactly as `spec_misc`
    /// states it: timer moves, key await, index arithmetic, font
    /// addressing, BCD, register dump and load.
    pub fn misc_routines(&mut self, reg: u8, disc: u8) -> (r: Result<(), FaultCause>)
        requires
            old(self).wf(),
            reg < 16,
        ensures
            final(self).wf(),
            match spec_misc(old(self)@, reg as int, disc as int) {
                Ok(s2) => r is Ok && final(self)@ == s2,
                Err(c) => r == Result::<(), FaultCause>::Err(c) && final(self)@ == old(self)@,
            },
    {
        let vx = self.registers[reg as usize];
        let iv: u16 = self.i;
        let eff: usize = (iv & 0x0FFF) as usize;
        proof {
            assert(iv & 0x0FFF == iv % 4096) by (bit_vector);
        }
        match disc {
            0x07 => {
                let d = self.timers.delay_timer;
                self.registers.set(reg as usize, d);
                Ok(())
            },
            0x0A => {
                match self.keys.lowest_pressed() {
                    Some(k) => {
                        self.awaiting_key = None;
                        self.registers.set(reg as usize, k);
                    },
                    None => {
                        self.awaiting_key = Some(reg);
                        self.pc = self.last_pc;
                    },
                }
                Ok(())
            },
            0x15 => {
                self.timers.delay_timer = vx;
                Ok(())
            },
            0x18 => {
                self.timers.sound_timer = vx;
                Ok(())
            },
            0x1E => {
                self.i = ((self.i as u32 + vx as u32) % 4096) as u16;
                Ok(())
            },
            0x29 => {
                self.i = (vx as u16) * 5;
                Ok(())
            },
            0x33 => {
                if eff + 2 >= 4096 {
                    return Err(FaultCause::MemoryOutOfBounds { index: (eff + 2) as u16, bound: 4096 });
                }
                self.memory.set(eff, vx / 100);
                self.memory.set(eff + 1, (vx / 10) % 10);
                self.memory.set(eff + 2, vx % 10);
                Ok(())
            },
            0x55 => {
                if eff + (reg as usize) >= 4096 {
                    return Err(
                        FaultCause::MemoryOutOfBounds { index: (eff + reg as usize) as u16, bound: 4096 },
                    );
                }
                let ghost mem0 = self@.memory;
                let ghost regs = self@.registers;
                proof {
                    assert(spec_overlay(mem0, regs.take(0), eff as int) =~= mem0);
                }
                let mut k: usize = 0;
                while k <= reg as usize
                    invariant
                        old(self).wf(),
                        self@.memory.len() == 4096,
                        reg < 16,
                        eff + reg < 4096,
                        k <= reg + 1,
                        mem0 == old(self)@.memory,
                        regs == old(self)@.registers,
                        self@ == (MachineView {
                            memory: spec_overlay(mem0, regs.take(k as int), eff as int),
                            ..old(self)@
                        }),
                    decreases reg + 1 - k,
                {
                    let v = self.registers[k];
                    self.memory.set(eff + k, v);
                    proof {
                        assert(spec_overlay(mem0, regs.take(k as int), eff as int).update(
                            eff + k,
                            regs[k as int],
                        ) =~= spec_overlay(mem0, regs.take(k as int + 1), eff as int));
                    }
                    k += 1;
                }
                if self.quirks.increment_index_on_transfer {
                    self.i = (eff + reg as usize + 1) as u16;
                }
                Ok(())
            },
            0x65 => {
                if eff + (reg as usize) >= 4096 {
                    return Err(
                        FaultCause::MemoryOutOfBounds { index: (eff + reg as usize) as u16, bound: 4096 },
                    );
                }
                let ghost mem = self@.memory;
                let ghost regs0 = self@.registers;
                proof {
                    assert(spec_load_regs(regs0, mem, eff as int, 0) =~= regs0);
                }
                let mut k: usize = 0;
                while k <= reg as usize
                    invariant
                        old(self).wf(),
                        self@.registers.len() == 16,
                        reg < 16,
                        eff + reg < 4096,
                        k <= reg + 1,
                        mem == old(self)@.memory,
                        regs0 == old(self)@.registers,
                        self@ == (MachineView {
                            registers: spec_load_regs(regs0, mem, eff as int, k as int),
                            ..old(self)@
                        }),
                    decreases reg + 1 - k,
                {
                    let v = self.memory[eff + k];
                    self.registers.set(k, v);
                    proof {
                        assert(spec_load_regs(regs0, mem, eff as int, k as int).update(
                            k as int,
                            mem[eff + k],
                        ) =~= spec_load_regs(regs0, mem, eff as int, k as int + 1));
                    }
                    k += 1;
                }
                if self.quirks.increment_index_on_transfer {
                    self.i = (eff + reg as usize + 1) as u16;
                }
                Ok(())
            },
            _ => Err(FaultCause::UnsupportedOpcode),
        }
    }

    /// The draw instruction: read `len` sprite rows from memory at the
    /// effective index, composite them at (Vx, Vy) with wraparound, and
    /// set VF to 1 exactly when a pixel was erased.
    pub fn draw_sprite(&mut self, x: u8, y: u8, len: u8) -> (r: Result<(), FaultCause>)
        requires
            old(self).wf(),
            x < 16,
            y < 16,
            len < 16,
        ensures
            final(self).wf(),
            match spec_draw_sprite(old(self)@, x as int, y as int, len as int) {
                Ok(s2) => r is Ok && final(self)@ == s2,
                Err(c) => r == Result::<(), FaultCause>::Err(c) && final(self)@ == old(self)@,
            },
    {
        let iv: u16 = self.i;
        let eff: usize = (iv & 0x0FFF) as usize;
        proof {
            assert(iv & 0x0FFF == iv % 4096) by (bit_vector);
        }
        if eff + (len as usize) > 4096 {
            return Err(FaultCause::MemoryOutOfBounds { index: (eff + len as usize) as u16, bound: 4096 });
        }
        let mut rows: Vec<u8> = Vec::new();
        let mut k: usize = 0;
        while k < len as usize
            invariant
                old(self).wf(),
                self == old(self),
                eff + len <= 4096,
                k <= len,
                rows@.len() == k,
                forall|j: int| 0 <= j < k ==> rows@[j] == self@.memory[eff + j],
            decreases len - k,
        {
            let v = self.memory[eff + k];
            rows.push(v);
            k += 1;
        }
        proof {
            assert(rows@ =~= self@.memory.subrange(eff as int, eff + len));
        }
        let vx = self.registers[x as usize];
        let vy = self.registers[y as usize];
        let coll = self.screen.draw(vx, vy, rows.as_slice());
        self.registers.set(15, if coll { 1 } else { 0 });
        Ok(())
    }
}

/// The cycle counter, wrapping at the top of its range.
pub open spec fn spec_wrap_inc(c: u64) -> u64 {
    if c == u64::MAX {
        0
    } else {
        (c + 1) as u64
    }
}

/// The state with the timers advanced by `elapsed` microseconds of wall
/// time: one decrement per full tick, floored at zero, remainder kept.
pub open spec fn spec_tick_timers(s: MachineView, elapsed: u64) -> MachineView {
    MachineView {
        delay: spec_count_down(s.delay, spec_ticks(s.acc, elapsed)),
        sound: spec_count_down(s.sound, spec_ticks(s.acc, elapsed)),
        acc: spec_remainder(s.acc, elapsed),
        ..s
    }
}

/// The state after a fatal condition: the fault is recorded with the
/// address of the failing instruction and the machine stops running.
pub open spec fn spec_fault(s: MachineView, opcode: u16, cause: FaultCause) -> MachineView {
    MachineView { fault: Some(Fault { pc: s.last_pc, opcode, cause }), running: false, ..s }
}

/// Dispatch of one decoded instruction on a state whose program counter
/// has already been advanced past it. This is the opcode table: one
/// branch per instruction family.
pub open spec fn spec_execute(s: MachineView, ins: Instruction, opcode: u16, rand_byte: u8) -> MachineView {
    let g = ins.group;
    if g == 0x0 {
        if ins.address == 0x0E0 {
            MachineView { grid: blank_grid(), ..s }
        } else if ins.address == 0x0EE {
            if s.stack.len() > 0 {
                MachineView { pc: s.stack.last(), stack: s.stack.drop_last(), ..s }
            } else {
                spec_fault(s, opcode, FaultCause::StackUnderflow)
            }
        } else {
            s
        }
    } else if g == 0x1 {
        with_pc(s, ins.address)
    } else if g == 0x2 {
        if s.stack.len() < STACK_DEPTH {
            MachineView { stack: s.stack.push(s.pc), pc: ins.address, ..s }
        } else {
            spec_fault(s, opcode, FaultCause::StackOverflow)
        }
    } else if g == 0x3 {
        if s.registers[ins.x as int] == ins.immediate {
            with_pc(s, (s.pc + 2) as u16)
        } else {
            s
        }
    } else if g == 0x4 {
        if s.registers[ins.x as int] != ins.immediate {
            with_pc(s, (s.pc + 2) as u16)
        } else {
            s
        }
    } else if g == 0x5 {
        if s.registers[ins.x as int] == s.registers[ins.y as int] {
            with_pc(s, (s.pc + 2) as u16)
        } else {
            s
        }
    } else if g == 0x6 {
        with_reg(s, ins.x as int, ins.immediate)
    } else if g == 0x7 {
        with_reg(s, ins.x as int, ((s.registers[ins.x as int] + ins.immediate) % 256) as u8)
    } else if g == 0x8 {
        match spec_logical(s, ins.x as int, ins.y as int, ins.n as int) {
            Some(s2) => s2,
            None => spec_fault(s, opcode, FaultCause::UnsupportedOpcode),
        }
    } else if g == 0x9 {
        if s.registers[ins.x as int] != s.registers[ins.y as int] {
            with_pc(s, (s.pc + 2) as u16)
        } else {
            s
        }
    } else if g == 0xA {
        MachineView { i: ins.address, ..s }
    } else if g == 0xB {
        with_pc(s, (s.registers[0] + ins.address) as u16)
    } else if g == 0xC {
        with_reg(s, ins.x as int, rand_byte & ins.immediate)
    } else if g == 0xD {
        match spec_draw_sprite(s, ins.x as int, ins.y as int, ins.n as int) {
            Ok(s2) => s2,
            Err(c) => spec_fault(s, opcode, c),
        }
    } else if g == 0xE {
        if ins.immediate == 0x9E {
            if spec_key_pressed(s, s.registers[ins.x as int]) {
                with_pc(s, (s.pc + 2) as u16)
            } else {
                s
            }
        } else if ins.immediate == 0xA1 {
            if !spec_key_pressed(s, s.registers[ins.x as int]) {
                with_pc(s, (s.pc + 2) as u16)
            } else {
                s
            }
        } else {
            spec_fault(s, opcode, FaultCause::UnsupportedOpcode)
        }
    } else {
        match spec_misc(s, ins.x as int, ins.immediate as int) {
            Ok(s2) => s2,
            Err(c) => spec_fault(s, opcode, c),
        }
    }
}

/// One whole cycle as a function of the prior state, the fresh key state,
/// the elapsed wall time, and the byte the random source produced. The
/// key state is adopted first. A machine awaiting a key does not fetch:
/// it either stays put (no key) or receives the lowest pressed key and
/// moves on. Otherwise the opcode at the program counter is fetched
/// (faulting if the two bytes are not in memory), the program counter is
/// advanced past it, the instruction executes, and, unless it faulted,
/// the timers advance by the elapsed time.
pub open spec fn spec_cycle(s: MachineView, new_keys: Seq<bool>, elapsed: u64, rand_byte: u8) -> MachineView {
    let s0 = MachineView { keys: new_keys, last_pc: s.pc, ..s };
    match s.awaiting_key {
        Some(x) => {
            let s1 = match spec_lowest_pressed(new_keys) {
                Some(k) => MachineView {
                    registers: s0.registers.update(x as int, k),
                    awaiting_key: None,
                    pc: (((s0.pc + 2) as int) % 0x10000) as u16,
                    ..s0
                },
                None => s0,
            };
            spec_tick_timers(s1, elapsed)
        },
        None => {
            if s0.pc >= 4095 {
                spec_fault(s0, 0, FaultCause::MemoryOutOfBounds { index: s0.pc, bound: 4095 })
            } else {
                let b1 = s0.memory[s0.pc as int];
                let b2 = s0.memory[s0.pc + 1];
                let ins = spec_decode(b1, b2);
                let opcode = spec_opcode(b1, b2);
                let s1 = MachineView {
                    pc: (s0.pc + 2) as u16,
                    cycles: spec_wrap_inc(s0.cycles),
                    ..s0
                };
                let s2 = spec_execute(s1, ins, opcode, rand_byte);
                if s2.fault is Some {
                    s2
                } else {
                    spec_tick_timers(s2, elapsed)
                }
            }
        },
    }
}

impl Chip8 {
    /// One machine cycle: adopt the fresh key state, then either poll for
    /// the awaited key or fetch, decode and execute the opcode at the
    /// program counter, and advance the timers by the elapsed wall time.
    /// On a fatal condition the fault is recorded, the machine stops
    /// running, and the fault is returned; the state is exactly
    /// `spec_cycle` of the prior state for some byte of the random
    /// source.
    pub fn cycle(&mut self, keys: InputState, elapsed_micros: u64) -> (r: Result<(), Fault>)
        requires
            old(self).wf(),
            keys.wf(),
            old(self)@.fault is None,
            elapsed_micros <= u64::MAX - TICK_MICROS,
        ensures
            final(self).wf(),
            exists|b: u8|
                final(self)@ == #[trigger] spec_cycle(old(self)@, keys@, elapsed_micros, b),
            r is Ok <==> final(self)@.fault is None,
            r matches Err(f) ==> final(self)@.fault == Some(f) && !final(self)@.running,
    {
        let ghost pre = self@;
        self.keys = keys;
        self.last_pc = self.pc;
        if let Some(x) = self.awaiting_key {
            match self.keys.lowest_pressed() {
                Some(k) => {
                    self.registers.set(x as usize, k);
                    self.awaiting_key = None;
                    self.pc = ((self.pc as u32 + 2) % 0x10000) as u16;
                },
                None => {},
            }
            self.timers.update(elapsed_micros);
            proof {
                assert(self@ == spec_cycle(pre, keys@, elapsed_micros, 0u8));
            }
            return Ok(());
        }
        if self.pc >= 4095 {
            let f = Fault {
                pc: self.last_pc,
                opcode: 0,
                cause: FaultCause::MemoryOutOfBounds { index: self.pc, bound: 4095 },
            };
            self.fault = Some(f);
            self.running = false;
            proof {
                assert(self@ == spec_cycle(pre, keys@, elapsed_micros, 0u8));
            }
            return Err(f);
        }
        let b1 = self.memory[self.pc as usize];
        let b2 = self.memory[self.pc as usize + 1];
        let ins = decode(b1, b2);
        let op = opcode_word(b1, b2);
        self.pc = self.pc + 2;
        self.cycles = if self.cycles == u64::MAX {
            0
        } else {
            self.cycles + 1
        };
        let ghost s1 = self@;
        let res: Result<(), FaultCause> = self.execute_instruction(ins, op);
        let ghost op_g = spec_opcode(b1, b2);
        let ghost bw: u8 = if res is Ok {
            choose|b: u8|
                self@ == #[trigger] spec_execute(s1, ins, op_g, b) && self@.fault == s1.fault
        } else {
            0u8
        };
        match res {
            Ok(()) => {
                self.timers.update(elapsed_micros);
                proof {
                    assert(self@ == spec_cycle(pre, keys@, elapsed_micros, bw));
                }
                Ok(())
            },
            Err(cause) => {
                let f = Fault { pc: self.last_pc, opcode: op, cause };
                self.fault = Some(f);
                self.running = false;
                proof {
                    assert(spec_execute(s1, ins, op_g, bw) == spec_fault(s1, op_g, cause));
                    assert(self@ == spec_cycle(pre, keys@, elapsed_micros, bw));
                }
                Err(f)
            },
        }
    }

    /// Dispatch one decoded instruction: the opcode table made
    /// executable. The program counter has already been advanced past the
    /// instruction. On `Ok` the state is `spec_execute` of the prior
    /// state for some random byte; on `Err` the state is unchanged and
    /// `spec_execute` is the corresponding fault for every random byte.
    fn execute_instruction(&mut self, ins: Instruction, op: u16) -> (r: Result<(), FaultCause>)
        requires
            old(self).wf(),
            ins.x < 16,
            ins.y < 16,
            ins.n < 16,
            ins.address < 0x1000,
            old(self).pc <= 0x1000,
        ensures
            final(self).wf(),
            r is Ok ==> exists|b: u8|
                final(self)@ == #[trigger] spec_execute(old(self)@, ins, op, b)
                    && final(self)@.fault == old(self)@.fault,
            r matches Err(c) ==> final(self)@ == old(self)@ && (forall|b: u8|
                spec_execute(old(self)@, ins, op, b) == spec_fault(old(self)@, op, c)),
    {
        let ghost s0 = self@;
        let res: Result<(), FaultCause> = match ins.group {
            0x0 => self.clear_return(ins.address),
            0x1 => {
                self.jump_to_address(ins.address);
                Ok(())
            },
            0x2 => self.call_subroutine(ins.address),
            0x3 => {
                self.skip_if_reg_equal_val(ins.immediate, ins.x);
                Ok(())
            },
            0x4 => {
                self.skip_if_reg_not_equal_val(ins.immediate, ins.x);
                Ok(())
            },
            0x5 => {
                self.skip_if_reg_equal_reg(ins.x, ins.y);
                Ok(())
            },
            0x6 => {
                self.move_value_to_reg(ins.x, ins.immediate);
                Ok(())
            },
            0x7 => {
                self.add_value_to_reg(ins.x, ins.immediate);
                Ok(())
            },
            0x8 => self.execute_logical_instruction(ins.x, ins.y, ins.n),
            0x9 => {
                self.skip_if_reg_not_equal_reg(ins.x, ins.y);
                Ok(())
            },
            0xA => {
                self.load_index_reg_with_value(ins.address);
                Ok(())
            },
            0xB => {
                self.jump_to_register_plus_value(ins.address);
                Ok(())
            },
            0xC => {
                self.generate_random_number(ins.x, ins.immediate);
                Ok(())
            },
            0xD => self.draw_sprite(ins.x, ins.y, ins.n),
            0xE => self.keyboard_routines(ins.x, ins.immediate),
            _ => self.misc_routines(ins.x, ins.immediate),
        };
        proof {
            if res is Ok {
                if ins.group == 0xC {
                    let b = choose|b: u8|
                        self@ == with_reg(s0, ins.x as int, b & ins.immediate);
                    assert(self@ == spec_execute(s0, ins, op, b));
                } else {
                    assert(self@ == spec_execute(s0, ins, op, 0u8));
                }
            }
        }
        res
    }
}

/// The add-with-carry instruction wraps modulo 256, and its carry flag is
/// 1 exactly when the unwrapped 9-bit sum exceeds 255. Stated for result
/// registers other than VF itself, where the quirk-configured write order
/// would decide which write survives.
pub proof fn lemma_add_carry(s: MachineView, x: int, y: int)
    requires
        s.wf(),
        0 <= x < 15,
        0 <= y < 16,
    ensures
        spec_logical(s, x, y, 4) matches Some(r) ==> {
            &&& r.registers[x] == (s.registers[x] + s.registers[y]) % 256
            &&& r.registers[15] == (if s.registers[x] + s.registers[y] > 255 {
                1u8
            } else {
                0u8
            })
        },
{
}

/// The two subtraction instructions set VF to 1 exactly when no borrow
/// occurs (the minuend is at least the subtrahend), and the result wraps
/// modulo 256. Stated for result registers other than VF itself, where
/// the quirk-configured write order would decide which write survives.
pub proof fn lemma_sub_borrow(s: MachineView, x: int, y: int)
    requires
        s.wf(),
        0 <= x < 15,
        0 <= y < 16,
    ensures
        spec_logical(s, x, y, 5) matches Some(r) ==> {
            &&& r.registers[x] == (s.registers[x] - s.registers[y]) % 256
            &&& r.registers[15] == (if s.registers[x] >= s.registers[y] {
                1u8
            } else {
                0u8
            })
        },
        spec_logical(s, x, y, 7) matches Some(r) ==> {
            &&& r.registers[x] == (s.registers[y] - s.registers[x]) % 256
            &&& r.registers[15] == (if s.registers[y] >= s.registers[x] {
                1u8
            } else {
                0u8
            })
        },
{
}

/// A register dump followed by a register load, with the same X and the
/// same effective index, restores the register file exactly: what the
/// dump wrote is what the load reads back, and registers above X were
/// never touched.
pub proof fn lemma_dump_load_round_trip(mem: Seq<u8>, regs: Seq<u8>, base: int, x: int)
    requires
        mem.len() == 4096,
        regs.len() == 16,
        0 <= base,
        0 <= x < 16,
        base + x < 4096,
    ensures
        spec_load_regs(regs, spec_overlay(mem, regs.take(x + 1), base), base, x + 1) == regs,
{
    assert(spec_load_regs(regs, spec_overlay(mem, regs.take(x + 1), base), base, x + 1)
        =~= regs);
}

/// Return comes back to the instruction after the call: a call pushes the
/// already-advanced program counter, the address of the instruction
/// following it, and the matching return pops exactly that address and
/// leaves the stack as it was.
pub proof fn lemma_call_return(
    s: MachineView,
    ins_call: Instruction,
    ins_ret: Instruction,
    op1: u16,
    op2: u16,
    b: u8,
)
    requires
        s.wf(),
        s.fault is None,
        s.stack.len() < STACK_DEPTH,
        ins_call.group == 2,
        ins_ret.group == 0,
        ins_ret.address == 0x0EE,
    ensures
        ({
            let after_call = spec_execute(s, ins_call, op1, b);
            let after_ret = spec_execute(after_call, ins_ret, op2, b);
            &&& after_call.pc == ins_call.address
            &&& after_ret.pc == s.pc
            &&& after_ret.stack == s.stack
            &&& after_ret.fault is None
        }),
{
    let after_call = spec_execute(s, ins_call, op1, b);
    assert(after_call.stack.last() == s.pc);
    assert(after_call.stack.drop_last() =~= s.stack);
}

/// While a machine awaits a key and none is pressed, a cycle moves
/// nothing but the timers: the program counter, the registers and the
/// awaiting state stay. Once keys are pressed, the awaited register
/// receives the lowest pressed index and the program counter advances by
/// exactly one instruction.
pub proof fn lemma_await_key(s: MachineView, keys: Seq<bool>, elapsed: u64, b: u8, x: u8)
    requires
        s.wf(),
        s.awaiting_key == Some(x),
        keys.len() == 16,
    ensures
        ({
            let s2 = spec_cycle(s, keys, elapsed, b);
            &&& (forall|k: int| 0 <= k < 16 ==> !keys[k]) ==> s2.pc == s.pc && s2.awaiting_key
                == Some(x) && s2.registers == s.registers
            &&& (exists|k: int| 0 <= k < 16 && keys[k]) ==> (spec_lowest_pressed(keys) matches Some(low)
                && s2.pc == ((s.pc + 2) as int % 0x10000) as u16 && s2.registers
                == s.registers.update(x as int, low) && s2.awaiting_key is None && keys[low as int]
                && (forall|j: int| 0 <= j < low ==> !keys[j]))
        }),
{
    crate::input::lemma_lowest_pressed(keys);
    if exists|k: int| 0 <= k < 16 && keys[k] {
        let k = choose|k: int| 0 <= k < 16 && keys[k];
        assert(!(spec_lowest_pressed(keys) is None));
    }
}

/// Executing the await-key instruction with no key pressed leaves the
/// program counter on that same instruction and records which register
/// is awaited: the fetch advance is undone, so the instruction is
/// retried on every later cycle.
pub proof fn lemma_await_entry(s: MachineView, keys: Seq<bool>, elapsed: u64, b: u8)
    requires
        s.wf(),
        s.awaiting_key is None,
        s.fault is None,
        s.pc < 4095,
        spec_decode(s.memory[s.pc as int], s.memory[s.pc + 1]).group == 0xF,
        spec_decode(s.memory[s.pc as int], s.memory[s.pc + 1]).immediate == 0x0A,
        forall|k: int| 0 <= k < 16 ==> !keys[k],
        keys.len() == 16,
    ensures
        ({
            let s2 = spec_cycle(s, keys, elapsed, b);
            &&& s2.pc == s.pc
            &&& s2.awaiting_key == Some(spec_decode(s.memory[s.pc as int], s.memory[s.pc + 1]).x)
            &&& s2.registers == s.registers
            &&& s2.fault is None
        }),
{
    crate::input::lemma_lowest_pressed(keys);
}

/// Subtraction wraps modulo 256: the wrapped difference of two bytes,
/// written with a conditional borrow, equals the mathematical difference
/// reduced into the byte range.
proof fn lemma_wrap_sub(a: u8, b: u8)
    ensures
        a >= b ==> ((a - b) % 256) == a - b,
        a < b ==> ((a - b) % 256) == 256 + a - b,
{
    if a >= b {
        vstd::arithmetic::div_mod::lemma_small_mod((a - b) as nat, 256);
    } else {
        vstd::arithmetic::div_mod::lemma_fundamental_div_mod_converse_mod(
            a - b,
            256,
            -1,
            256 + a - b,
        );
    }
}

} // verus!
