//! Machine-checked laws of the instruction semantics: what single
//! instructions and short instruction pairs guarantee for every register
//! index, immediate and starting state.

use vstd::prelude::*;
use crate::opcode::{op_addr, op_class, op_kk, op_low_byte, op_n, op_x, op_y};
use crate::semantics::{
    advance_pc, byte_add, draw_collision, draw_gfx, draw_target, fetch_word, hit_at, lit_at,
    spec_cycle, spec_exec, sprite_hits, sprite_pixel,
};
use crate::state::{gfx_size, VmError, VmState};

verus! {

/// The word that encodes instruction family `hi` with register index `x`
/// and immediate byte `kk`.
pub open spec fn word_xkk(hi: u16, x: u16, kk: u8) -> u16 {
    (hi * 0x1000 + x * 0x100 + kk) as u16
}

/// The word that encodes instruction family `hi` with register indices `x`
/// and `y` and low nibble `n`.
pub open spec fn word_xyn(hi: u16, x: u16, y: u16, n: u16) -> u16 {
    (hi * 0x1000 + x * 0x100 + y * 0x10 + n) as u16
}

/// How an X-and-immediate word decodes.
proof fn lemma_decode_xkk(hi: u16, x: u16, kk: u8)
    requires
        hi < 16,
        x < 16,
    ensures
        op_class(word_xkk(hi, x, kk)) == hi,
        op_x(word_xkk(hi, x, kk)) == x,
        op_kk(word_xkk(hi, x, kk)) == kk,
        op_low_byte(word_xkk(hi, x, kk)) == kk,
        word_xkk(hi, x, kk) == hi * 0x1000 + x * 0x100 + kk,
{
    let w = word_xkk(hi, x, kk);
    assert(w == hi * 0x1000 + x * 0x100 + kk);
    assert(w / 0x1000 == hi && (w / 0x100) % 16 == x && w % 0x100 == kk as u16) by (bit_vector)
        requires
            hi < 16,
            x < 16,
            w == hi * 0x1000 + x * 0x100 + kk as u16,
    ;
}

/// How an X-Y-N word decodes.
proof fn lemma_decode_xyn(hi: u16, x: u16, y: u16, n: u16)
    requires
        hi < 16,
        x < 16,
        y < 16,
        n < 16,
    ensures
        op_class(word_xyn(hi, x, y, n)) == hi,
        op_x(word_xyn(hi, x, y, n)) == x,
        op_y(word_xyn(hi, x, y, n)) == y,
        op_n(word_xyn(hi, x, y, n)) == n,
        word_xyn(hi, x, y, n) == hi * 0x1000 + x * 0x100 + y * 0x10 + n,
{
    let w = word_xyn(hi, x, y, n);
    assert(w == hi * 0x1000 + x * 0x100 + y * 0x10 + n);
    assert(w / 0x1000 == hi && (w / 0x100) % 16 == x && (w / 0x10) % 16 == y && w % 0x10 == n)
        by (bit_vector)
        requires
            hi < 16,
            x < 16,
            y < 16,
            n < 16,
            w == hi * 0x1000 + x * 0x100 + y * 0x10 + n,
    ;
}

/// Executing a load-immediate instruction (family 6) writes the immediate
/// byte to V[X]; nothing else of the state changes.
pub proof fn law_load_immediate(s: VmState, x: u16, kk: u8, rnd: u8)
    requires
        s.wf(),
        x < 16,
    ensures
        ({
            let r = spec_exec(s, word_xkk(6, x, kk), rnd);
            r matches Ok((s2, d)) && s2.v[x as int] == kk && d == false && s2 == (VmState {
                v: s.v.update(x as int, kk),
                ..s
            })
        }),
{
    lemma_decode_xkk(6, x, kk);
}

/// Executing an add-immediate instruction (family 7) on V[X] = v writes
/// (v + KK) mod 256 to V[X], and the flag register VF is unchanged — except
/// when X is 15, where V[X] is VF itself.
pub proof fn law_add_immediate(s: VmState, x: u16, kk: u8, rnd: u8)
    requires
        s.wf(),
        x < 16,
    ensures
        ({
            let r = spec_exec(s, word_xkk(7, x, kk), rnd);
            r matches Ok((s2, d)) && s2.v[x as int] == (s.v[x as int] + kk) % 256 && (x != 15
                ==> s2.v[15] == s.v[15]) && s2 == (VmState {
                v: s.v.update(x as int, byte_add(s.v[x as int], kk)),
                ..s
            })
        }),
{
    lemma_decode_xkk(7, x, kk);
}

/// Executing an add-with-carry instruction (8XY4) on V[X] = a, V[Y] = b
/// sets VF to 1 exactly when a + b exceeds 255, and writes (a + b) mod 256
/// to V[X] — except when X is 15, where the flag write wins.
pub proof fn law_add_with_carry(s: VmState, x: u16, y: u16, rnd: u8)
    requires
        s.wf(),
        x < 16,
        y < 16,
    ensures
        ({
            let a = s.v[x as int];
            let b = s.v[y as int];
            let r = spec_exec(s, word_xyn(8, x, y, 4), rnd);
            r matches Ok((s2, d)) && s2.v[15] == (if a + b > 255 {
                1u8
            } else {
                0u8
            }) && (x != 15 ==> s2.v[x as int] == (a + b) % 256)
        }),
{
    lemma_decode_xyn(8, x, y, 4);
}

/// Executing a subtract instruction (8XY5) on V[X] = a, V[Y] = b sets VF to
/// 1 exactly when a >= b (the not-borrow flag), and writes (a - b) mod 256
/// to V[X] — except when X is 15, where the flag write wins.
pub proof fn law_sub_with_not_borrow(s: VmState, x: u16, y: u16, rnd: u8)
    requires
        s.wf(),
        x < 16,
        y < 16,
    ensures
        ({
            let a = s.v[x as int];
            let b = s.v[y as int];
            let r = spec_exec(s, word_xyn(8, x, y, 5), rnd);
            r matches Ok((s2, d)) && s2.v[15] == (if a >= b {
                1u8
            } else {
                0u8
            }) && (x != 15 ==> s2.v[x as int] == (if a >= b {
                a - b
            } else {
                a - b + 256
            }))
        }),
{
    lemma_decode_xyn(8, x, y, 5);
}

/// Executing clear-screen (00E0) reports a draw and leaves every
/// framebuffer cell dark.
pub proof fn law_clear_screen(s: VmState, rnd: u8)
    requires
        s.wf(),
    ensures
        ({
            let r = spec_exec(s, 0x00E0, rnd);
            r matches Ok((s2, d)) && d == true && forall|c: int|
                0 <= c < gfx_size() ==> !s2.gfx[c]
        }),
{
}

/// Drawing a sprite whose footprint is dark, then drawing the identical
/// sprite at the identical position again: the second draw collides (VF
/// would be set) whenever the sprite has any set bit, and the double XOR
/// returns every cell to its state before the first draw.
pub proof fn law_double_draw(gfx: Seq<bool>, mem: Seq<u8>, i: int, x: int, y: int, n: int)
    requires
        gfx.len() == gfx_size(),
        0 <= x,
        0 <= y,
        0 <= n < 16,
        exists|row: int, col: int|
            0 <= row < n && 0 <= col < 8 && #[trigger] sprite_pixel(mem[(i + row) % 4096], col),
        forall|row: int, col: int|
            0 <= row < n && 0 <= col < 8 && #[trigger] sprite_pixel(mem[(i + row) % 4096], col)
                ==> !gfx[draw_target(x, y, row, col)],
    ensures
        draw_collision(draw_gfx(gfx, mem, i, x, y, n), mem, i, x, y, n),
        draw_gfx(draw_gfx(gfx, mem, i, x, y, n), mem, i, x, y, n) == gfx,
{
    let g1 = draw_gfx(gfx, mem, i, x, y, n);
    let (row, col) = choose|row: int, col: int|
        0 <= row < n && 0 <= col < 8 && #[trigger] sprite_pixel(mem[(i + row) % 4096], col);
    let t = draw_target(x, y, row, col);
    vstd::arithmetic::div_mod::lemma_mod_bound(x + col, 64);
    vstd::arithmetic::div_mod::lemma_mod_bound(y + row, 32);
    assert(0 <= t < gfx_size());
    assert(hit_at(mem, i, x, y, row, col, t));
    assert(sprite_hits(mem, i, x, y, n, t));
    assert(!gfx[t]);
    assert(g1[t]);
    assert(lit_at(g1, mem, i, x, y, row, col));
    assert(draw_collision(g1, mem, i, x, y, n));
    assert(draw_gfx(g1, mem, i, x, y, n) =~= gfx);
}

/// A subroutine call executed at `s`, followed immediately by a return,
/// leaves the program counter at the instruction following the call site,
/// and the stack pointer back where it was.
pub proof fn law_call_then_ret(s: VmState, addr: u16, rnd1: u8, rnd2: u8)
    requires
        s.wf(),
        s.sp < 15,
        addr < 0x1000,
    ensures
        ({
            let w = (0x2000 + addr) as u16;
            let r1 = spec_exec(advance_pc(s), w, rnd1);
            r1 matches Ok((s1, d1)) && s1.pc == addr && ({
                let r2 = spec_exec(advance_pc(s1), 0x00EE, rnd2);
                r2 matches Ok((s2, d2)) && s2.pc == (s.pc + 2) % 4096 && s2.sp == s.sp
            })
        }),
{
    let w = (0x2000 + addr) as u16;
    assert(w == 0x2000 + addr);
    assert(w / 0x1000 == 2 && w % 0x1000 == addr && w != 0x00E0 && w != 0x00EE) by (bit_vector)
        requires
            addr < 0x1000,
            w == 0x2000 + addr,
    ;
    assert(op_class(w) == 2 && op_addr(w) == addr);
}

/// A jump-to-self instruction leaves the machine state exactly as it was:
/// any number of steps keeps the same program counter, and no fatal
/// condition arises.
pub proof fn law_self_jump(s: VmState, rnd: u8)
    requires
        s.wf(),
        fetch_word(s) == (0x1000 + s.pc) as u16,
    ensures
        spec_cycle(s, rnd) == Ok::<(VmState, bool), VmError>((s, false)),
{
    let w = fetch_word(s);
    let pc = s.pc;
    assert(w == 0x1000 + pc);
    assert(w / 0x1000 == 1 && w % 0x1000 == pc && w != 0x00E0 && w != 0x00EE) by (bit_vector)
        requires
            pc < 0x1000,
            w == 0x1000 + pc,
    ;
    assert(op_class(w) == 1 && op_addr(w) == s.pc);
    let r = spec_exec(advance_pc(s), w, rnd);
    assert(r matches Ok((s1, d)) && s1 =~= s && d == false);
}

} // verus!
