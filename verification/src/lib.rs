//! A verified interpreter core for the CHIP-8 virtual machine: instruction
//! decode, the full opcode semantics table, the XOR-blit framebuffer draw
//! with collision detection, the countdown timers and the keypad state.

pub mod chip8;
pub mod gfx;
pub mod laws;
pub mod opcode;
pub mod semantics;
pub mod state;
