//! A verified CHIP-8 virtual machine core: instruction decoding, the opcode
//! state machine, XOR sprite compositing with collision detection, countdown
//! timers, and key-input coupling. Rendering, ROM loading and argument
//! handling are left to an unverified host around this library.
pub mod cpu;
pub mod decode;
pub mod disasm;
pub mod framebuffer;
pub mod input;
pub mod options;
pub mod timers;
