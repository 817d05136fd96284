//! The machine: memory with the built-in font, registers, stack, timers,
//! keypad and framebuffer, together with the operations the host drives —
//! program load, one fetch-decode-execute step, the timer tick, keypad
//! mutation and rendering.

use vstd::prelude::*;
use crate::gfx::{Flat2DArray, Pixel};
use crate::opcode::{op_addr, op_kk, op_n, op_x, op_y, Opcode};
use crate::semantics::{
    advance_pc, bcd_store, byte_add, byte_sub, carry, collision_before, cycle_rel, draw_collision,
    draw_gfx, draw_target, fetch_word, hit_at, hits_before, lemma_collision_done,
    lemma_collision_row, lemma_collision_step, lemma_hits_done, lemma_hits_row, lemma_hits_step,
    lemma_lowest_from, lemma_not_hit_before, lemma_wrap_offset, lit_at, load_regs, lowest_pressed,
    not_borrow, rewind_pc, skip_if, spec_exec_alu, spec_exec_misc, sprite_hits, sprite_pixel,
    store_regs,
};
use crate::state::{gfx_size, mem_size, ProgramLoadError, VmError, VmState};

verus! {

/// The five-byte glyphs of the sixteen built-in hexadecimal digits, held at
/// the low end of memory.
pub open spec fn font_seq() -> Seq<u8> {
    seq![
        0xF0u8, 0x90, 0x90, 0x90, 0xF0,  // 0
        0x20, 0x60, 0x20, 0x20, 0x70,  // 1
        0xF0, 0x10, 0xF0, 0x80, 0xF0,  // 2
        0xF0, 0x10, 0xF0, 0x10, 0xF0,  // 3
        0x90, 0x90, 0xF0, 0x10, 0x10,  // 4
        0xF0, 0x80, 0xF0, 0x10, 0xF0,  // 5
        0xF0, 0x80, 0xF0, 0x90, 0xF0,  // 6
        0xF0, 0x10, 0x20, 0x40, 0x40,  // 7
        0xF0, 0x90, 0xF0, 0x90, 0xF0,  // 8
        0xF0, 0x90, 0xF0, 0x10, 0xF0,  // 9
        0xF0, 0x90, 0xF0, 0x90, 0x90,  // A
        0xE0, 0x90, 0xE0, 0x90, 0xE0,  // B
        0xF0, 0x80, 0x80, 0x80, 0xF0,  // C
        0xE0, 0x90, 0x90, 0x90, 0xE0,  // D
        0xF0, 0x80, 0xF0, 0x80, 0xF0,  // E
        0xF0, 0x80, 0xF0, 0x80, 0x80,  // F
    ]
}

/// The address at which a loaded program image starts.
pub open spec fn program_start() -> int {
    0x200
}

/// The machine state at construction: the font at the low end of memory,
/// everything else zeroed, the program counter at the program start, no key
/// pressed and the screen dark.
pub open spec fn initial_state() -> VmState {
    VmState {
        mem: Seq::new(mem_size(), |a: int| if a < 80 { font_seq()[a] } else { 0u8 }),
        v: Seq::new(16, |k: int| 0u8),
        i: 0,
        pc: 0x200,
        sp: 0,
        delay: 0,
        sound: 0,
        stack: Seq::new(16, |k: int| 0u16),
        keys: Seq::new(16, |k: int| false),
        gfx: Seq::new(gfx_size(), |c: int| false),
    }
}

/// Memory after a program image is written at the program start address;
/// everything below and above the image keeps its contents.
pub open spec fn load_image(mem: Seq<u8>, image: Seq<u8>) -> Seq<u8> {
    Seq::new(mem_size(), |a: int| if program_start() <= a < program_start() + image.len() {
        image[a - program_start()]
    } else {
        mem[a]
    })
}

/// How one framebuffer cell appears in a rendered byte buffer: the four
/// bytes at `4 * c` hold full-intensity white when the cell is lit, black
/// when it is dark, and a zero padding byte.
pub open spec fn cell_rendered(bytes: Seq<u8>, gfx: Seq<bool>, c: int) -> bool {
    let lum: u8 = if gfx[c] { 255u8 } else { 0u8 };
    &&& bytes[4 * c] == lum
    &&& bytes[4 * c + 1] == lum
    &&& bytes[4 * c + 2] == lum
    &&& bytes[4 * c + 3] == 0u8
}

/// One tick of a countdown timer: decrement while above zero, never wrap.
pub open spec fn timer_tick(t: u8) -> u8 {
    if t > 0 {
        (t - 1) as u8
    } else {
        0u8
    }
}

/// The machine. One instance owns all interpreter state; the host drives it
/// through `cycle` (one instruction), `cycle_timers` (one timer tick, on its
/// own cadence, decoupled from the instruction rate), `set_key` and
/// `render_to_pixels`.
pub struct Chip8 {
    memory: Vec<u8>,
    v: Vec<u8>,
    i: u16,
    pc: u16,
    sp: u16,
    delay_timer: u8,
    sound_timer: u8,
    stack: Vec<u16>,
    keyboard: Vec<bool>,
    gfx: Flat2DArray,
}

impl View for Chip8 {
    type V = VmState;

    closed spec fn view(&self) -> VmState {
        VmState {
            mem: self.memory@,
            v: self.v@,
            i: self.i,
            pc: self.pc,
            sp: self.sp,
            delay: self.delay_timer,
            sound: self.sound_timer,
            stack: self.stack@,
            keys: self.keyboard@,
            gfx: Seq::new(gfx_size(), |c: int| self.gfx.data@[c] == 0xFFu8),
        }
    }
}

impl Chip8 {
    /// Well-formedness of the representation: the abstract state is
    /// well-formed, and the framebuffer store is a 64-wide grid whose cells
    /// hold only the two values that stand for dark and lit.
    pub closed spec fn wf(&self) -> bool {
        &&& self@.wf()
        &&& self.gfx.spec_width() == 64
        &&& self.gfx.data@.len() == gfx_size()
        &&& forall|k: int|
            0 <= k < gfx_size() ==> (self.gfx.data@[k] == 0u8 || self.gfx.data@[k] == 0xFFu8)
    }

    /// A fresh machine in the initial state, with the font written into
    /// memory.
    pub fn new() -> (c: Chip8)
        ensures
            c.wf(),
            c@ == initial_state(),
    {
        let mut memory: Vec<u8> = vec![0u8; 4096];
        let font: Vec<u8> = vec![
            0xF0u8, 0x90, 0x90, 0x90, 0xF0,
            0x20, 0x60, 0x20, 0x20, 0x70,
            0xF0, 0x10, 0xF0, 0x80, 0xF0,
            0xF0, 0x10, 0xF0, 0x10, 0xF0,
            0x90, 0x90, 0xF0, 0x10, 0x10,
            0xF0, 0x80, 0xF0, 0x10, 0xF0,
            0xF0, 0x80, 0xF0, 0x90, 0xF0,
            0xF0, 0x10, 0x20, 0x40, 0x40,
            0xF0, 0x90, 0xF0, 0x90, 0xF0,
            0xF0, 0x90, 0xF0, 0x10, 0xF0,
            0xF0, 0x90, 0xF0, 0x90, 0x90,
            0xE0, 0x90, 0xE0, 0x90, 0xE0,
            0xF0, 0x80, 0x80, 0x80, 0xF0,
            0xE0, 0x90, 0x90, 0x90, 0xE0,
            0xF0, 0x80, 0xF0, 0x80, 0xF0,
            0xF0, 0x80, 0xF0, 0x80, 0x80,
        ];
        proof {
            assert(font@ =~= font_seq());
        }
        let mut k: usize = 0;
        while k < 80
            invariant
                k <= 80,
                memory@.len() == 4096,
                font@ == font_seq(),
                forall|j: int| 0 <= j < k ==> memory@[j] == font_seq()[j],
                forall|j: int| k <= j < 4096 ==> memory@[j] == 0u8,
            decreases 80 - k,
        {
            memory[k] = font[k];
            k = k + 1;
        }
        let c = Chip8 {
            memory,
            v: vec![0u8; 16],
            i: 0,
            pc: 0x200,
            sp: 0,
            delay_timer: 0,
            sound_timer: 0,
            stack: vec![0u16; 16],
            keyboard: vec![false; 16],
            gfx: Flat2DArray::new(64, 32),
        };
        proof {
            assert(c@.mem =~= initial_state().mem);
            assert(c@.v =~= initial_state().v);
            assert(c@.stack =~= initial_state().stack);
            assert(c@.keys =~= initial_state().keys);
            assert(c@.gfx =~= initial_state().gfx);
            assert(c@ =~= initial_state());
        }
        c
    }

    /// Loads a program image at the program start address. An image that
    /// does not fit in the memory above that address is rejected whole: a
    /// fatal configuration error, with nothing written.
    pub fn load_program(&mut self, image: &[u8]) -> (r: Result<(), ProgramLoadError>)
        requires
            old(self).wf(),
        ensures
            final(self).wf(),
            match r {
                Ok(()) => image@.len() <= mem_size() - program_start() && final(self)@ == (VmState {
                    mem: load_image(old(self)@.mem, image@),
                    ..old(self)@
                }),
                Err(_) => image@.len() > mem_size() - program_start() && final(self)@ == old(self)@,
            },
    {
        let len = image.len();
        if len > 4096 - 0x200 {
            return Err(ProgramLoadError);
        }
        let mut k: usize = 0;
        while k < len
            invariant
                k <= len,
                len == image@.len(),
                len <= 4096 - 0x200,
                self.memory@.len() == 4096,
                forall|j: int| 0 <= j < k ==> self.memory@[0x200 + j] == image@[j],
                forall|a: int|
                    0 <= a < 4096 && !(0x200 <= a < 0x200 + k) ==> self.memory@[a] == old(
                        self,
                    )@.mem[a],
                self.v == old(self).v,
                self.i == old(self).i,
                self.pc == old(self).pc,
                self.sp == old(self).sp,
                self.delay_timer == old(self).delay_timer,
                self.sound_timer == old(self).sound_timer,
                self.stack == old(self).stack,
                self.keyboard == old(self).keyboard,
                self.gfx == old(self).gfx,
            decreases len - k,
        {
            self.memory[0x200 + k] = image[k];
            k = k + 1;
        }
        proof {
            assert(self@.mem =~= load_image(old(self)@.mem, image@));
            assert(self@ =~= (VmState { mem: load_image(old(self)@.mem, image@), ..old(self)@ }));
        }
        Ok(())
    }

    /// One tick of the timer pair: each counter decrements while above zero
    /// and saturates at zero. The host calls this at its own cadence,
    /// decoupled from the instruction rate, as real-time-dependent programs
    /// require.
    pub fn cycle_timers(&mut self)
        requires
            old(self).wf(),
        ensures
            final(self).wf(),
            final(self)@ == (VmState {
                delay: timer_tick(old(self)@.delay),
                sound: timer_tick(old(self)@.sound),
                ..old(self)@
            }),
    {
        if self.delay_timer > 0 {
            self.delay_timer = self.delay_timer - 1;
        }
        if self.sound_timer > 0 {
            self.sound_timer = self.sound_timer - 1;
        }
        proof {
            assert(self@ =~= (VmState {
                delay: timer_tick(old(self)@.delay),
                sound: timer_tick(old(self)@.sound),
                ..old(self)@
            }));
        }
    }

    /// Records one key-down (`pressed` true) or key-up (`pressed` false)
    /// event from the host's input collaborator.
    pub fn set_key(&mut self, key: usize, pressed: bool)
        requires
            old(self).wf(),
            key < 16,
        ensures
            final(self).wf(),
            final(self)@ == (VmState { keys: old(self)@.keys.update(key as int, pressed), ..old(self)@ }),
    {
        self.keyboard[key] = pressed;
        proof {
            assert(self@ =~= (VmState {
                keys: old(self)@.keys.update(key as int, pressed),
                ..old(self)@
            }));
        }
    }

    /// The value of general register `x`.
    pub fn reg(&self, x: usize) -> (r: u8)
        requires
            self.wf(),
            x < 16,
        ensures
            r == self@.v[x as int],
    {
        self.v[x]
    }

    /// The program counter.
    pub fn program_counter(&self) -> (r: u16)
        ensures
            r == self@.pc,
    {
        self.pc
    }

    /// The index register.
    pub fn index_register(&self) -> (r: u16)
        ensures
            r == self@.i,
    {
        self.i
    }

    /// The stack pointer.
    pub fn stack_pointer(&self) -> (r: u16)
        ensures
            r == self@.sp,
    {
        self.sp
    }

    /// The delay timer's value.
    pub fn delay_value(&self) -> (r: u8)
        ensures
            r == self@.delay,
    {
        self.delay_timer
    }

    /// The sound timer's value.
    pub fn sound_value(&self) -> (r: u8)
        ensures
            r == self@.sound,
    {
        self.sound_timer
    }

    /// The memory byte at `addr`.
    pub fn mem_byte(&self, addr: usize) -> (r: u8)
        requires
            self.wf(),
            addr < mem_size(),
        ensures
            r == self@.mem[addr as int],
    {
        self.memory[addr]
    }

    /// Whether the framebuffer cell at column `x`, row `y` is lit.
    pub fn cell_lit(&self, x: usize, y: usize) -> (r: bool)
        requires
            self.wf(),
            x < 64,
            y < 32,
        ensures
            r == self@.gfx[y * 64 + x],
    {
        *self.gfx.get(x, y) == 0xFF
    }

    /// The framebuffer as a byte buffer for display, four bytes per cell in
    /// row-major order: full-intensity white for a lit cell, black for a
    /// dark one, with a zero padding byte.
    pub fn render_to_pixels(&self) -> (r: Vec<u8>)
        requires
            self.wf(),
        ensures
            r@.len() == 4 * gfx_size(),
            forall|c: int| 0 <= c < gfx_size() ==> #[trigger] cell_rendered(r@, self@.gfx, c),
    {
        let mut buff: Vec<u8> = Vec::new();
        let mut c: usize = 0;
        while c < 2048
            invariant
                self.wf(),
                c <= 2048,
                buff@.len() == 4 * c,
                forall|j: int| 0 <= j < c ==> #[trigger] cell_rendered(buff@, self@.gfx, j),
            decreases 2048 - c,
        {
            let p = if self.gfx.data[c] == 0xFF {
                Pixel::white()
            } else {
                Pixel::default()
            };
            let ghost pre = buff@;
            buff.push(p.r);
            buff.push(p.g);
            buff.push(p.b);
            buff.push(p.pad);
            proof {
                assert forall|j: int| 0 <= j < c + 1 implies #[trigger] cell_rendered(
                    buff@,
                    self@.gfx,
                    j,
                ) by {
                    if j < c {
                        assert(cell_rendered(pre, self@.gfx, j));
                        assert(buff@[4 * j] == pre[4 * j]);
                        assert(buff@[4 * j + 1] == pre[4 * j + 1]);
                        assert(buff@[4 * j + 2] == pre[4 * j + 2]);
                        assert(buff@[4 * j + 3] == pre[4 * j + 3]);
                    }
                }
            }
            c = c + 1;
        }
        buff
    }

    /// The draw instruction's sprite blit: XORs the `n`-row sprite stored at
    /// the index register onto the framebuffer at position (`xv`, `yv`),
    /// wrapping toroidally, and reports whether any set sprite bit landed on
    /// a cell that was already lit.
    #[verifier::loop_isolation(false)]
    fn exec_draw(&mut self, xv: u8, yv: u8, n: usize) -> (collision: bool)
        requires
            old(self).wf(),
            n < 16,
        ensures
            final(self).wf(),
            final(self)@ == (VmState {
                gfx: draw_gfx(
                    old(self)@.gfx,
                    old(self)@.mem,
                    old(self)@.i as int,
                    xv as int,
                    yv as int,
                    n as int,
                ),
                ..old(self)@
            }),
            collision == draw_collision(
                old(self)@.gfx,
                old(self)@.mem,
                old(self)@.i as int,
                xv as int,
                yv as int,
                n as int,
            ),
    {
        let ghost g0 = old(self)@.gfx;
        let ghost mem0 = old(self)@.mem;
        let ghost i0 = old(self)@.i as int;
        let ghost xi = xv as int;
        let ghost yi = yv as int;
        let mut collision = false;
        let mut row: usize = 0;
        while row < n
            invariant
                old(self).wf(),
                n < 16,
                row <= n,
                self.memory == old(self).memory,
                self.v == old(self).v,
                self.i == old(self).i,
                self.pc == old(self).pc,
                self.sp == old(self).sp,
                self.delay_timer == old(self).delay_timer,
                self.sound_timer == old(self).sound_timer,
                self.stack == old(self).stack,
                self.keyboard == old(self).keyboard,
                self.gfx.spec_width() == 64,
                self.gfx.data@.len() == gfx_size(),
                forall|k: int|
                    0 <= k < gfx_size() ==> (self.gfx.data@[k] == 0u8 || self.gfx.data@[k]
                        == 0xFFu8),
                forall|cell: int|
                    0 <= cell < gfx_size() ==> #[trigger] self@.gfx[cell] == (g0[cell]
                        != hits_before(mem0, i0, xi, yi, row as int, 0, cell)),
                collision == collision_before(g0, mem0, i0, xi, yi, row as int, 0),
            decreases n - row,
        {
            let sprite_byte = self.memory[(self.i as usize + row) % 4096];
            let mut col: usize = 0;
            while col < 8
                invariant
                    old(self).wf(),
                    n < 16,
                    row < n,
                    col <= 8,
                    self.memory == old(self).memory,
                    self.v == old(self).v,
                    self.i == old(self).i,
                    self.pc == old(self).pc,
                    self.sp == old(self).sp,
                    self.delay_timer == old(self).delay_timer,
                    self.sound_timer == old(self).sound_timer,
                    self.stack == old(self).stack,
                    self.keyboard == old(self).keyboard,
                    self.gfx.spec_width() == 64,
                    self.gfx.data@.len() == gfx_size(),
                    sprite_byte == mem0[(i0 + row as int) % 4096],
                    forall|k: int|
                        0 <= k < gfx_size() ==> (self.gfx.data@[k] == 0u8 || self.gfx.data@[k]
                            == 0xFFu8),
                    forall|cell: int|
                        0 <= cell < gfx_size() ==> #[trigger] self@.gfx[cell] == (g0[cell]
                            != hits_before(mem0, i0, xi, yi, row as int, col as int, cell)),
                    collision == collision_before(g0, mem0, i0, xi, yi, row as int, col as int),
                decreases 8 - col,
            {
                let sprite_bit = sprite_byte & (0x80u8 >> (col as u8));
                let ghost gfx_prev = self@.gfx;
                let ghost data_prev = self.gfx.data@;
                let ghost collision_prev = collision;
                if sprite_bit != 0 {
                    let xoff = (xv as usize + col) % 64;
                    let yoff = (yv as usize + row) % 32;
                    let cur = *self.gfx.get(xoff, yoff);
                    if cur == 0xFF {
                        collision = true;
                    }
                    self.gfx.set(xoff, yoff, cur ^ 0xFF);
                    proof {
                        assert(0xFFu8 ^ 0xFFu8 == 0u8) by (bit_vector);
                        assert(0u8 ^ 0xFFu8 == 0xFFu8) by (bit_vector);
                    }
                }
                proof {
                    let r = row as int;
                    let c = col as int;
                    let t = draw_target(xi, yi, r, c);
                    assert(sprite_pixel(mem0[(i0 + r) % 4096], c) == (sprite_bit != 0));
                    lemma_collision_step(g0, mem0, i0, xi, yi, r, c);
                    lemma_not_hit_before(mem0, i0, xi, yi, r, c);
                    vstd::arithmetic::div_mod::lemma_mod_bound(xi + c, 64);
                    vstd::arithmetic::div_mod::lemma_mod_bound(yi + r, 32);
                    assert(0 <= t < 2048);
                    assert(gfx_prev[t] == (g0[t] != hits_before(mem0, i0, xi, yi, r, c, t)));
                    assert(gfx_prev[t] == g0[t]);
                    if sprite_bit != 0 {
                        assert(self.gfx.data@ == data_prev.update(t, data_prev[t] ^ 0xFF));
                        assert(collision == (collision_prev || lit_at(g0, mem0, i0, xi, yi, r, c)));
                    } else {
                        assert(!lit_at(g0, mem0, i0, xi, yi, r, c));
                    }
                    assert(collision == collision_before(g0, mem0, i0, xi, yi, r, c + 1));
                    assert forall|cell: int|
                        0 <= cell < gfx_size() implies #[trigger] self@.gfx[cell] == (g0[cell]
                        != hits_before(mem0, i0, xi, yi, r, c + 1, cell)) by {
                        lemma_hits_step(mem0, i0, xi, yi, r, c, cell);
                        if sprite_bit != 0 && cell == t {
                            assert(self@.gfx[t] == (data_prev[t] ^ 0xFF == 0xFF));
                            assert(self@.gfx[t] == !gfx_prev[t]);
                        } else {
                            assert(self@.gfx[cell] == gfx_prev[cell]);
                            assert(!(hit_at(mem0, i0, xi, yi, r, c, cell) && cell != t));
                        }
                    }
                }
                col = col + 1;
            }
            proof {
                let r = row as int;
                assert forall|cell: int| 0 <= cell < gfx_size() implies #[trigger] self@.gfx[cell]
                    == (g0[cell] != hits_before(mem0, i0, xi, yi, r + 1, 0, cell)) by {
                    lemma_hits_row(mem0, i0, xi, yi, r, cell);
                }
                lemma_collision_row(g0, mem0, i0, xi, yi, r);
            }
            row = row + 1;
        }
        proof {
            assert forall|cell: int| 0 <= cell < gfx_size() implies #[trigger] self@.gfx[cell] == (
            g0[cell] != sprite_hits(mem0, i0, xi, yi, n as int, cell)) by {
                lemma_hits_done(mem0, i0, xi, yi, n as int, cell);
            }
            lemma_collision_done(g0, mem0, i0, xi, yi, n as int);
            assert(self@.gfx =~= draw_gfx(g0, mem0, i0, xi, yi, n as int));
            assert(self@ =~= (VmState {
                gfx: draw_gfx(g0, mem0, i0, xi, yi, n as int),
                ..old(self)@
            }));
        }
        collision
    }

    /// The register-block store: writes V[0] through V[`x`] to memory at
    /// the index register upward, wrapping modulo the memory size.
    #[verifier::loop_isolation(false)]
    fn store_regs_exec(&mut self, x: usize)
        requires
            old(self).wf(),
            x < 16,
        ensures
            final(self).wf(),
            final(self)@ == (VmState {
                mem: store_regs(old(self)@.mem, old(self)@.i as int, old(self)@.v, x as int),
                ..old(self)@
            }),
    {
        let ghost mem0 = old(self)@.mem;
        let ghost i0 = old(self)@.i as int;
        let mut j: usize = 0;
        while j <= x
            invariant
                old(self).wf(),
                x < 16,
                j <= x + 1,
                self.v == old(self).v,
                self.i == old(self).i,
                self.pc == old(self).pc,
                self.sp == old(self).sp,
                self.delay_timer == old(self).delay_timer,
                self.sound_timer == old(self).sound_timer,
                self.stack == old(self).stack,
                self.keyboard == old(self).keyboard,
                self.gfx == old(self).gfx,
                self.memory@.len() == 4096,
                forall|a: int|
                    0 <= a < 4096 ==> #[trigger] self.memory@[a] == (if (a - i0) % 4096 < j {
                        old(self)@.v[(a - i0) % 4096]
                    } else {
                        mem0[a]
                    }),
            decreases x + 1 - j,
        {
            let addr = (self.i as usize + j) % 4096;
            let ghost mem_prev = self.memory@;
            let val = self.v[j];
            self.memory[addr] = val;
            proof {
                assert forall|a: int| 0 <= a < 4096 implies #[trigger] self.memory@[a] == (if (a
                    - i0) % 4096 < j + 1 {
                    old(self)@.v[(a - i0) % 4096]
                } else {
                    mem0[a]
                }) by {
                    vstd::arithmetic::div_mod::lemma_mod_bound(a - i0, 4096);
                    lemma_wrap_offset(i0, j as int, a);
                }
            }
            j = j + 1;
        }
        proof {
            assert(self.memory@ =~= store_regs(mem0, i0, old(self)@.v, x as int));
            assert(self@ =~= (VmState {
                mem: store_regs(mem0, i0, old(self)@.v, x as int),
                ..old(self)@
            }));
        }
    }

    /// The register-block load: reads V[0] through V[`x`] from memory at
    /// the index register upward, wrapping modulo the memory size.
    #[verifier::loop_isolation(false)]
    fn load_regs_exec(&mut self, x: usize)
        requires
            old(self).wf(),
            x < 16,
        ensures
            final(self).wf(),
            final(self)@ == (VmState {
                v: load_regs(old(self)@.mem, old(self)@.i as int, old(self)@.v, x as int),
                ..old(self)@
            }),
    {
        let ghost i0 = old(self)@.i as int;
        let mut j: usize = 0;
        while j <= x
            invariant
                old(self).wf(),
                x < 16,
                j <= x + 1,
                self.memory == old(self).memory,
                self.i == old(self).i,
                self.pc == old(self).pc,
                self.sp == old(self).sp,
                self.delay_timer == old(self).delay_timer,
                self.sound_timer == old(self).sound_timer,
                self.stack == old(self).stack,
                self.keyboard == old(self).keyboard,
                self.gfx == old(self).gfx,
                self.v@.len() == 16,
                forall|k: int|
                    0 <= k < 16 ==> #[trigger] self.v@[k] == (if k < j {
                        old(self)@.mem[(i0 + k) % 4096]
                    } else {
                        old(self)@.v[k]
                    }),
            decreases x + 1 - j,
        {
            let addr = (self.i as usize + j) % 4096;
            let b = self.memory[addr];
            self.v[j] = b;
            j = j + 1;
        }
        proof {
            assert(self.v@ =~= load_regs(old(self)@.mem, i0, old(self)@.v, x as int));
            assert(self@ =~= (VmState {
                v: load_regs(old(self)@.mem, i0, old(self)@.v, x as int),
                ..old(self)@
            }));
        }
    }

    /// One fetch-decode-execute step with the random byte supplied by the
    /// caller, consumed exactly where the semantics table consumes the
    /// random source. On success the state is exactly what the semantics
    /// table gives; on a fatal condition nothing of the state changes, not
    /// even the program counter.
    pub fn step_with_random(&mut self, rnd: u8) -> (r: Result<bool, VmError>)
        requires
            old(self).wf(),
        ensures
            final(self).wf(),
            cycle_rel(old(self)@, rnd, final(self)@, r),
    {
        let ghost s0 = advance_pc(old(self)@);
        let pc = self.pc as usize;
        let hi = self.memory[pc];
        let lo = self.memory[(pc + 1) % 4096];
        let w: u16 = (hi as u16) * 256 + (lo as u16);
        let op = Opcode(w);
        let next_pc: u16 = ((pc + 2) % 4096) as u16;
        proof {
            assert(w == fetch_word(old(self)@));
            assert(next_pc == s0.pc);
        }
        let class = op.class();
        if class == 0x0 {
            if w == 0x00E0 {
                // 00E0: clear the framebuffer.
                self.pc = next_pc;
                self.gfx.clear();
                proof {
                    assert(self@.gfx =~= Seq::new(gfx_size(), |c: int| false));
                    assert(self@ =~= (VmState {
                        gfx: Seq::new(gfx_size(), |c: int| false),
                        ..s0
                    }));
                }
                Ok(true)
            } else if w == 0x00EE {
                // 00EE: return from subroutine.
                if self.sp == 0 {
                    return Err(VmError::StackUnderflow);
                }
                let sp = self.sp as usize;
                self.pc = self.stack[sp];
                self.sp = self.sp - 1;
                proof {
                    assert(self@ =~= (VmState {
                        pc: s0.stack[s0.sp as int],
                        sp: (s0.sp - 1) as u16,
                        ..s0
                    }));
                }
                Ok(false)
            } else {
                Err(VmError::InvalidOpcode(w))
            }
        } else if class == 0x1 {
            // 1ADDR: unconditional jump.
            self.pc = op.addr();
            proof {
                assert(self@ =~= (VmState { pc: op_addr(w), ..s0 }));
            }
            Ok(false)
        } else if class == 0x2 {
            // 2ADDR: call subroutine.
            if self.sp >= 15 {
                return Err(VmError::StackOverflow);
            }
            self.sp = self.sp + 1;
            let sp = self.sp as usize;
            self.stack[sp] = next_pc;
            self.pc = op.addr();
            proof {
                assert(self@ =~= (VmState {
                    sp: (s0.sp + 1) as u16,
                    stack: s0.stack.update(s0.sp + 1, s0.pc),
                    pc: op_addr(w),
                    ..s0
                }));
            }
            Ok(false)
        } else if class == 0x3 {
            // 3XKK: skip if V[X] == KK.
            let cond = self.v[op.x()] == op.kk();
            self.pc = if cond {
                ((next_pc as usize + 2) % 4096) as u16
            } else {
                next_pc
            };
            proof {
                assert(self@ =~= skip_if(s0, s0.v[op_x(w)] == op_kk(w)));
            }
            Ok(false)
        } else if class == 0x4 {
            // 4XKK: skip if V[X] != KK.
            let cond = self.v[op.x()] != op.kk();
            self.pc = if cond {
                ((next_pc as usize + 2) % 4096) as u16
            } else {
                next_pc
            };
            proof {
                assert(self@ =~= skip_if(s0, s0.v[op_x(w)] != op_kk(w)));
            }
            Ok(false)
        } else if class == 0x5 {
            // 5XY0: skip if V[X] == V[Y].
            if op.n() != 0 {
                return Err(VmError::InvalidOpcode(w));
            }
            let cond = self.v[op.x()] == self.v[op.y()];
            self.pc = if cond {
                ((next_pc as usize + 2) % 4096) as u16
            } else {
                next_pc
            };
            proof {
                assert(self@ =~= skip_if(s0, s0.v[op_x(w)] == s0.v[op_y(w)]));
            }
            Ok(false)
        } else if class == 0x6 {
            // 6XKK: load immediate.
            self.pc = next_pc;
            let x = op.x();
            self.v[x] = op.kk();
            proof {
                assert(self@ =~= (VmState { v: s0.v.update(op_x(w), op_kk(w)), ..s0 }));
            }
            Ok(false)
        } else if class == 0x7 {
            // 7XKK: add immediate, wrapping, flag untouched.
            self.pc = next_pc;
            let x = op.x();
            let sum = self.v[x] as u16 + op.kk() as u16;
            self.v[x] = (sum % 256) as u8;
            proof {
                assert(self@ =~= (VmState {
                    v: s0.v.update(op_x(w), byte_add(s0.v[op_x(w)], op_kk(w))),
                    ..s0
                }));
            }
            Ok(false)
        } else if class == 0x8 {
            self.exec_alu(op, next_pc, Ghost(s0))
        } else if class == 0x9 {
            // 9XY0: skip if V[X] != V[Y].
            if op.n() != 0 {
                return Err(VmError::InvalidOpcode(w));
            }
            let cond = self.v[op.x()] != self.v[op.y()];
            self.pc = if cond {
                ((next_pc as usize + 2) % 4096) as u16
            } else {
                next_pc
            };
            proof {
                assert(self@ =~= skip_if(s0, s0.v[op_x(w)] != s0.v[op_y(w)]));
            }
            Ok(false)
        } else if class == 0xA {
            // AADDR: load the index register.
            self.pc = next_pc;
            self.i = op.addr();
            proof {
                assert(self@ =~= (VmState { i: op_addr(w), ..s0 }));
            }
            Ok(false)
        } else if class == 0xB {
            // BADDR: jump to ADDR + V[0].
            self.pc = ((op.addr() as usize + self.v[0] as usize) % 4096) as u16;
            proof {
                assert(self@ =~= (VmState {
                    pc: ((op_addr(w) + s0.v[0]) % 4096) as u16,
                    ..s0
                }));
            }
            Ok(false)
        } else if class == 0xC {
            // CXKK: random byte masked by KK.
            self.pc = next_pc;
            let x = op.x();
            self.v[x] = rnd & op.kk();
            proof {
                assert(self@ =~= (VmState { v: s0.v.update(op_x(w), rnd & op_kk(w)), ..s0 }));
            }
            Ok(false)
        } else if class == 0xD {
            // DXYN: draw an N-row sprite at (V[X], V[Y]) with collision flag.
            self.pc = next_pc;
            let xv = self.v[op.x()];
            let yv = self.v[op.y()];
            let collision = self.exec_draw(xv, yv, op.n());
            let flag: u8 = if collision {
                1
            } else {
                0
            };
            self.v[15] = flag;
            proof {
                assert(self@ =~= (VmState {
                    gfx: draw_gfx(
                        s0.gfx,
                        s0.mem,
                        s0.i as int,
                        s0.v[op_x(w)] as int,
                        s0.v[op_y(w)] as int,
                        op_n(w),
                    ),
                    v: s0.v.update(
                        15,
                        if draw_collision(
                            s0.gfx,
                            s0.mem,
                            s0.i as int,
                            s0.v[op_x(w)] as int,
                            s0.v[op_y(w)] as int,
                            op_n(w),
                        ) {
                            1u8
                        } else {
                            0u8
                        },
                    ),
                    ..s0
                }));
            }
            Ok(true)
        } else if class == 0xE {
            // EX9E / EXA1: skip by keypad state at the low nibble of V[X].
            let low = op.low_byte();
            let key = (self.v[op.x()] % 16) as usize;
            if low == 0x9E {
                let cond = self.keyboard[key];
                self.pc = if cond {
                    ((next_pc as usize + 2) % 4096) as u16
                } else {
                    next_pc
                };
                proof {
                    assert(self@ =~= skip_if(s0, s0.keys[s0.v[op_x(w)] as int % 16]));
                }
                Ok(false)
            } else if low == 0xA1 {
                let cond = !self.keyboard[key];
                self.pc = if cond {
                    ((next_pc as usize + 2) % 4096) as u16
                } else {
                    next_pc
                };
                proof {
                    assert(self@ =~= skip_if(s0, !s0.keys[s0.v[op_x(w)] as int % 16]));
                }
                Ok(false)
            } else {
                Err(VmError::InvalidOpcode(w))
            }
        } else {
            self.exec_misc(op, next_pc, Ghost(s0))
        }
    }

    /// The arithmetic-logic family (high nibble 8). The shifts operate on
    /// V[X] itself, not on V[Y]: a documented compatibility quirk.
    fn exec_alu(&mut self, op: Opcode, next_pc: u16, Ghost(s0): Ghost<VmState>) -> (r: Result<
        bool,
        VmError,
    >)
        requires
            old(self).wf(),
            s0 == advance_pc(old(self)@),
            next_pc == s0.pc,
        ensures
            final(self).wf(),
            (match spec_exec_alu(s0, op.0) {
                Ok(sd) => r == Ok::<bool, VmError>(sd.1) && final(self)@ == sd.0,
                Err(e) => r == Err::<bool, VmError>(e) && final(self)@ == old(self)@,
            }),
    {
        let w = op.0;
        let x = op.x();
        let y = op.y();
        let n = op.n();
        let a = self.v[x];
        let b = self.v[y];
        if n == 0x0 {
            // 8XY0: V[X] <- V[Y].
            self.pc = next_pc;
            self.v[x] = b;
            proof {
                assert(self@ =~= (VmState { v: s0.v.update(op_x(w), s0.v[op_y(w)]), ..s0 }));
            }
            Ok(false)
        } else if n == 0x1 {
            // 8XY1: bitwise OR.
            self.pc = next_pc;
            self.v[x] = a | b;
            proof {
                assert(self@ =~= (VmState {
                    v: s0.v.update(op_x(w), s0.v[op_x(w)] | s0.v[op_y(w)]),
                    ..s0
                }));
            }
            Ok(false)
        } else if n == 0x2 {
            // 8XY2: bitwise AND.
            self.pc = next_pc;
            self.v[x] = a & b;
            proof {
                assert(self@ =~= (VmState {
                    v: s0.v.update(op_x(w), s0.v[op_x(w)] & s0.v[op_y(w)]),
                    ..s0
                }));
            }
            Ok(false)
        } else if n == 0x3 {
            // 8XY3: bitwise XOR.
            self.pc = next_pc;
            self.v[x] = a ^ b;
            proof {
                assert(self@ =~= (VmState {
                    v: s0.v.update(op_x(w), s0.v[op_x(w)] ^ s0.v[op_y(w)]),
                    ..s0
                }));
            }
            Ok(false)
        } else if n == 0x4 {
            // 8XY4: add with carry flag.
            self.pc = next_pc;
            let sum = a as u16 + b as u16;
            self.v[x] = (sum % 256) as u8;
            self.v[15] = if sum > 255 {
                1
            } else {
                0
            };
            proof {
                assert(self@ =~= (VmState {
                    v: s0.v.update(op_x(w), byte_add(s0.v[op_x(w)], s0.v[op_y(w)])).update(
                        15,
                        carry(s0.v[op_x(w)], s0.v[op_y(w)]),
                    ),
                    ..s0
                }));
            }
            Ok(false)
        } else if n == 0x5 {
            // 8XY5: subtract with not-borrow flag.
            self.pc = next_pc;
            let diff: u8 = if a >= b {
                a - b
            } else {
                (256 + a as u16 - b as u16) as u8
            };
            self.v[x] = diff;
            self.v[15] = if a >= b {
                1
            } else {
                0
            };
            proof {
                assert(self@ =~= (VmState {
                    v: s0.v.update(op_x(w), byte_sub(s0.v[op_x(w)], s0.v[op_y(w)])).update(
                        15,
                        not_borrow(s0.v[op_x(w)], s0.v[op_y(w)]),
                    ),
                    ..s0
                }));
            }
            Ok(false)
        } else if n == 0x6 {
            // 8XY6: shift right, flag takes the shifted-out bit first.
            self.pc = next_pc;
            self.v[15] = a & 1;
            self.v[x] = a >> 1;
            proof {
                assert(a & 1 == a % 2) by (bit_vector);
                assert(a >> 1 == a / 2) by (bit_vector);
                assert(self@ =~= (VmState {
                    v: s0.v.update(15, (s0.v[op_x(w)] % 2) as u8).update(
                        op_x(w),
                        (s0.v[op_x(w)] / 2) as u8,
                    ),
                    ..s0
                }));
            }
            Ok(false)
        } else if n == 0x7 {
            // 8XY7: reversed subtract with not-borrow flag.
            self.pc = next_pc;
            let diff: u8 = if b >= a {
                b - a
            } else {
                (256 + b as u16 - a as u16) as u8
            };
            self.v[x] = diff;
            self.v[15] = if b >= a {
                1
            } else {
                0
            };
            proof {
                assert(self@ =~= (VmState {
                    v: s0.v.update(op_x(w), byte_sub(s0.v[op_y(w)], s0.v[op_x(w)])).update(
                        15,
                        not_borrow(s0.v[op_y(w)], s0.v[op_x(w)]),
                    ),
                    ..s0
                }));
            }
            Ok(false)
        } else if n == 0xE {
            // 8XYE: shift left, flag takes the shifted-out bit first.
            self.pc = next_pc;
            self.v[15] = (a & 0x80) >> 7;
            self.v[x] = a << 1;
            proof {
                assert((a & 0x80) >> 7 == a / 128) by (bit_vector);
                assert(a << 1 == (a * 2) % 256) by (bit_vector);
                assert(self@ =~= (VmState {
                    v: s0.v.update(15, (s0.v[op_x(w)] / 128) as u8).update(
                        op_x(w),
                        ((s0.v[op_x(w)] * 2) % 256) as u8,
                    ),
                    ..s0
                }));
            }
            Ok(false)
        } else {
            Err(VmError::InvalidOpcode(w))
        }
    }

    /// The miscellaneous family (high nibble F): timers, key wait, index
    /// arithmetic, glyph lookup, decimal decomposition and register blocks.
    fn exec_misc(&mut self, op: Opcode, next_pc: u16, Ghost(s0): Ghost<VmState>) -> (r: Result<
        bool,
        VmError,
    >)
        requires
            old(self).wf(),
            s0 == advance_pc(old(self)@),
            next_pc == s0.pc,
        ensures
            final(self).wf(),
            (match spec_exec_misc(s0, op.0) {
                Ok(sd) => r == Ok::<bool, VmError>(sd.1) && final(self)@ == sd.0,
                Err(e) => r == Err::<bool, VmError>(e) && final(self)@ == old(self)@,
            }),
    {
        let w = op.0;
        let x = op.x();
        let low = op.low_byte();
        if low == 0x07 {
            // FX07: read the delay timer.
            self.pc = next_pc;
            self.v[x] = self.delay_timer;
            proof {
                assert(self@ =~= (VmState { v: s0.v.update(op_x(w), s0.delay), ..s0 }));
            }
            Ok(false)
        } else if low == 0x0A {
            // FX0A: wait for a key by stalling on this instruction.
            let found = self.first_pressed_key();
            match found {
                Some(k) => {
                    self.pc = next_pc;
                    self.v[x] = k;
                    proof {
                        assert(self@ =~= (VmState {
                            v: s0.v.update(op_x(w), lowest_pressed(s0.keys) as u8),
                            ..s0
                        }));
                    }
                },
                None => {
                    self.pc = if next_pc >= 2 {
                        next_pc - 2
                    } else {
                        next_pc + 4094
                    };
                    proof {
                        assert(self@ =~= (VmState { pc: rewind_pc(s0.pc), ..s0 }));
                    }
                },
            }
            Ok(false)
        } else if low == 0x15 {
            // FX15: set the delay timer.
            self.pc = next_pc;
            self.delay_timer = self.v[x];
            proof {
                assert(self@ =~= (VmState { delay: s0.v[op_x(w)], ..s0 }));
            }
            Ok(false)
        } else if low == 0x18 {
            // FX18: set the sound timer.
            self.pc = next_pc;
            self.sound_timer = self.v[x];
            proof {
                assert(self@ =~= (VmState { sound: s0.v[op_x(w)], ..s0 }));
            }
            Ok(false)
        } else if low == 0x1E {
            // FX1E: add V[X] to the index register, wrapping modulo the
            // memory size; no flag side effect (a documented quirk).
            self.pc = next_pc;
            self.i = ((self.i as usize + self.v[x] as usize) % 4096) as u16;
            proof {
                assert(self@ =~= (VmState { i: ((s0.i + s0.v[op_x(w)]) % 4096) as u16, ..s0 }));
            }
            Ok(false)
        } else if low == 0x29 {
            // FX29: point the index register at the glyph for digit V[X].
            self.pc = next_pc;
            self.i = (self.v[x] as u16) * 5;
            proof {
                assert(self@ =~= (VmState { i: (s0.v[op_x(w)] * 5) as u16, ..s0 }));
            }
            Ok(false)
        } else if low == 0x33 {
            // FX33: decimal decomposition of V[X] to memory at I.
            self.pc = next_pc;
            let vx = self.v[x];
            let i = self.i as usize;
            self.memory[i] = vx / 100;
            self.memory[(i + 1) % 4096] = (vx / 10) % 10;
            self.memory[(i + 2) % 4096] = vx % 10;
            proof {
                vstd::arithmetic::div_mod::lemma_small_mod(i as nat, 4096);
                assert(self@.mem =~= bcd_store(s0.mem, s0.i as int, s0.v[op_x(w)]));
                assert(self@ =~= (VmState {
                    mem: bcd_store(s0.mem, s0.i as int, s0.v[op_x(w)]),
                    ..s0
                }));
            }
            Ok(false)
        } else if low == 0x55 {
            // FX55: store V[0] through V[X] at the index register upward.
            self.pc = next_pc;
            self.store_regs_exec(x);
            proof {
                assert(self@ =~= (VmState {
                    mem: store_regs(s0.mem, s0.i as int, s0.v, op_x(w)),
                    ..s0
                }));
            }
            Ok(false)
        } else if low == 0x65 {
            // FX65: load V[0] through V[X] from the index register upward.
            self.pc = next_pc;
            self.load_regs_exec(x);
            proof {
                assert(self@ =~= (VmState {
                    v: load_regs(s0.mem, s0.i as int, s0.v, op_x(w)),
                    ..s0
                }));
            }
            Ok(false)
        } else {
            Err(VmError::InvalidOpcode(w))
        }
    }

    /// One fetch-decode-execute step, with the random byte drawn from the
    /// machine's random source. The boolean reports whether the framebuffer
    /// was mutated, so the host knows a redraw is warranted; a fatal
    /// condition is returned with nothing of the state changed.
    pub fn cycle(&mut self) -> (r: Result<bool, VmError>)
        requires
            old(self).wf(),
        ensures
            final(self).wf(),
            exists|rnd: u8| #[trigger] cycle_rel(old(self)@, rnd, final(self)@, r),
    {
        let rnd = random_8bit();
        let r = self.step_with_random(rnd);
        proof {
            assert(cycle_rel(old(self)@, rnd, self@, r));
        }
        r
    }

    /// The key-wait instruction's scan: the lowest-indexed key currently
    /// pressed, or nothing when no key is.
    #[verifier::loop_isolation(false)]
    fn first_pressed_key(&self) -> (r: Option<u8>)
        requires
            self.wf(),
        ensures
            match r {
                Some(k) => k < 16 && lowest_pressed(self@.keys) == k as int,
                None => lowest_pressed(self@.keys) == 16,
            },
    {
        let mut k: usize = 0;
        while k < 16
            invariant
                self.wf(),
                k <= 16,
                forall|j: int| 0 <= j < k ==> !self@.keys[j],
            decreases 16 - k,
        {
            if self.keyboard[k] {
                proof {
                    lemma_lowest_from(self@.keys, k as int);
                }
                return Some(k as u8);
            }
            k = k + 1;
        }
        proof {
            lemma_lowest_from(self@.keys, 16);
        }
        None
    }
}

/// Relies on rand::random: one byte from the thread-local generator,
/// uniformly distributed over the full 8-bit range. Nothing is promised of
/// which value comes back; every caller must hold for every byte.
#[verifier::external_body]
fn random_8bit() -> u8 {
    rand::random::<u8>()
}

} // verus!
