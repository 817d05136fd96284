//! The complete opcode semantics table as one specification-level transition
//! function: `spec_cycle` says exactly what one fetch-decode-execute step
//! does to a well-formed machine state, for every 16-bit word.

use vstd::prelude::*;
use crate::opcode::{op_addr, op_class, op_kk, op_low_byte, op_n, op_x, op_y};
use crate::state::{gfx_size, mem_size, VmError, VmState};

verus! {

/// Addition on a register byte: the sum modulo 256.
pub open spec fn byte_add(a: u8, b: u8) -> u8 {
    ((a + b) % 256) as u8
}

/// Subtraction on a register byte: the difference modulo 256.
pub open spec fn byte_sub(a: u8, b: u8) -> u8 {
    if a >= b {
        (a - b) as u8
    } else {
        (a - b + 256) as u8
    }
}

/// The carry flag of an addition: 1 exactly when the true sum exceeds 255.
pub open spec fn carry(a: u8, b: u8) -> u8 {
    if a + b > 255 {
        1u8
    } else {
        0u8
    }
}

/// The not-borrow flag of a subtraction: 1 exactly when `a >= b`.
pub open spec fn not_borrow(a: u8, b: u8) -> u8 {
    if a >= b {
        1u8
    } else {
        0u8
    }
}

/// The state with the next instruction skipped when `cond` holds.
pub open spec fn skip_if(s: VmState, cond: bool) -> VmState {
    if cond {
        VmState { pc: ((s.pc + 2) % 4096) as u16, ..s }
    } else {
        s
    }
}

/// The program counter moved back by one instruction, wrapping at zero.
pub open spec fn rewind_pc(pc: u16) -> u16 {
    if pc >= 2 {
        (pc - 2) as u16
    } else {
        (pc + 4094) as u16
    }
}

/// Whether the sprite row byte `b` has the pixel at `col` set
/// (most-significant bit first, `col` counted from 0 to 7).
pub open spec fn sprite_pixel(b: u8, col: int) -> bool {
    b & (0x80u8 >> (col as u8)) != 0
}

/// The framebuffer cell written by sprite bit (`row`, `col`) of a sprite
/// drawn at screen position (`x`, `y`): coordinates wrap toroidally.
pub open spec fn draw_target(x: int, y: int, row: int, col: int) -> int {
    ((y + row) % 32) * 64 + (x + col) % 64
}

/// Whether sprite bit (`row`, `col`) is set and lands on framebuffer cell
/// `cell`.
pub open spec fn hit_at(mem: Seq<u8>, i: int, x: int, y: int, row: int, col: int, cell: int) -> bool {
    sprite_pixel(mem[(i + row) % 4096], col) && draw_target(x, y, row, col) == cell
}

/// Whether some set sprite bit of the `n`-row sprite at memory address `i`,
/// drawn at (`x`, `y`), lands on framebuffer cell `cell`.
pub open spec fn sprite_hits(mem: Seq<u8>, i: int, x: int, y: int, n: int, cell: int) -> bool {
    exists|row: int, col: int|
        0 <= row < n && 0 <= col < 8 && #[trigger] hit_at(mem, i, x, y, row, col, cell)
}

/// The framebuffer after the draw: each cell hit by a set sprite bit is
/// toggled, every other cell keeps its state.
pub open spec fn draw_gfx(gfx: Seq<bool>, mem: Seq<u8>, i: int, x: int, y: int, n: int) -> Seq<
    bool,
> {
    Seq::new(gfx_size(), |cell: int| gfx[cell] != sprite_hits(mem, i, x, y, n, cell))
}

/// Whether sprite bit (`row`, `col`) is set and lands on a cell of `gfx`
/// that is lit.
pub open spec fn lit_at(gfx: Seq<bool>, mem: Seq<u8>, i: int, x: int, y: int, row: int, col: int) -> bool {
    sprite_pixel(mem[(i + row) % 4096], col) && gfx[draw_target(x, y, row, col)]
}

/// Collision: some set sprite bit lands on a cell that was already lit
/// before the draw.
pub open spec fn draw_collision(gfx: Seq<bool>, mem: Seq<u8>, i: int, x: int, y: int, n: int) -> bool {
    exists|row: int, col: int|
        0 <= row < n && 0 <= col < 8 && #[trigger] lit_at(gfx, mem, i, x, y, row, col)
}

/// Whether sprite bit (`row`, `col`) comes strictly before (`row_lim`,
/// `col_lim`) in the order the draw walks the sprite: row by row, and within
/// a row column by column.
pub open spec fn lex_before(row: int, col: int, row_lim: int, col_lim: int) -> bool {
    row < row_lim || (row == row_lim && col < col_lim)
}

/// `sprite_hits` restricted to the sprite bits the draw has already walked:
/// those strictly before (`row_lim`, `col_lim`).
pub open spec fn hits_before(
    mem: Seq<u8>,
    i: int,
    x: int,
    y: int,
    row_lim: int,
    col_lim: int,
    cell: int,
) -> bool {
    exists|row: int, col: int|
        0 <= row && 0 <= col < 8 && lex_before(row, col, row_lim, col_lim) && #[trigger] hit_at(
            mem,
            i,
            x,
            y,
            row,
            col,
            cell,
        )
}

/// `draw_collision` restricted to the sprite bits the draw has already
/// walked: those strictly before (`row_lim`, `col_lim`).
pub open spec fn collision_before(
    gfx: Seq<bool>,
    mem: Seq<u8>,
    i: int,
    x: int,
    y: int,
    row_lim: int,
    col_lim: int,
) -> bool {
    exists|row: int, col: int|
        0 <= row && 0 <= col < 8 && lex_before(row, col, row_lim, col_lim) && #[trigger] lit_at(
            gfx,
            mem,
            i,
            x,
            y,
            row,
            col,
        )
}

/// Walking one more column extends the already-walked set by exactly the
/// bit (`r`, `c`).
pub(crate) proof fn lemma_hits_step(mem: Seq<u8>, i: int, x: int, y: int, r: int, c: int, cell: int)
    requires
        0 <= r,
        0 <= c < 8,
    ensures
        hits_before(mem, i, x, y, r, c + 1, cell) == (hits_before(mem, i, x, y, r, c, cell)
            || hit_at(mem, i, x, y, r, c, cell)),
{
    if hits_before(mem, i, x, y, r, c + 1, cell) {
        let (row, col) = choose|row: int, col: int|
            0 <= row && 0 <= col < 8 && lex_before(row, col, r, c + 1) && #[trigger] hit_at(
                mem,
                i,
                x,
                y,
                row,
                col,
                cell,
            );
        if !(row == r && col == c) {
            assert(lex_before(row, col, r, c));
        }
    }
    if hits_before(mem, i, x, y, r, c, cell) {
        let (row, col) = choose|row: int, col: int|
            0 <= row && 0 <= col < 8 && lex_before(row, col, r, c) && #[trigger] hit_at(
                mem,
                i,
                x,
                y,
                row,
                col,
                cell,
            );
        assert(lex_before(row, col, r, c + 1));
    }
    if hit_at(mem, i, x, y, r, c, cell) {
        assert(lex_before(r, c, r, c + 1));
        assert(hits_before(mem, i, x, y, r, c + 1, cell));
    }
}

/// The bits before the end of row `r` are the bits before the start of row
/// `r` + 1.
pub(crate) proof fn lemma_hits_row(mem: Seq<u8>, i: int, x: int, y: int, r: int, cell: int)
    ensures
        hits_before(mem, i, x, y, r, 8, cell) == hits_before(mem, i, x, y, r + 1, 0, cell),
{
    if hits_before(mem, i, x, y, r, 8, cell) {
        let (row, col) = choose|row: int, col: int|
            0 <= row && 0 <= col < 8 && lex_before(row, col, r, 8) && #[trigger] hit_at(
                mem,
                i,
                x,
                y,
                row,
                col,
                cell,
            );
        assert(lex_before(row, col, r + 1, 0));
    }
    if hits_before(mem, i, x, y, r + 1, 0, cell) {
        let (row, col) = choose|row: int, col: int|
            0 <= row && 0 <= col < 8 && lex_before(row, col, r + 1, 0) && #[trigger] hit_at(
                mem,
                i,
                x,
                y,
                row,
                col,
                cell,
            );
        assert(lex_before(row, col, r, 8));
    }
}

/// After all `n` rows are walked, the already-walked set is the whole
/// sprite.
pub(crate) proof fn lemma_hits_done(mem: Seq<u8>, i: int, x: int, y: int, n: int, cell: int)
    requires
        0 <= n,
    ensures
        hits_before(mem, i, x, y, n, 0, cell) == sprite_hits(mem, i, x, y, n, cell),
{
    if hits_before(mem, i, x, y, n, 0, cell) {
        let (row, col) = choose|row: int, col: int|
            0 <= row && 0 <= col < 8 && lex_before(row, col, n, 0) && #[trigger] hit_at(
                mem,
                i,
                x,
                y,
                row,
                col,
                cell,
            );
        assert(0 <= row < n);
    }
    if sprite_hits(mem, i, x, y, n, cell) {
        let (row, col) = choose|row: int, col: int|
            0 <= row < n && 0 <= col < 8 && #[trigger] hit_at(mem, i, x, y, row, col, cell);
        assert(lex_before(row, col, n, 0));
        assert(hits_before(mem, i, x, y, n, 0, cell));
    }
}

/// `lemma_hits_step` for the collision flag.
pub(crate) proof fn lemma_collision_step(
    gfx: Seq<bool>,
    mem: Seq<u8>,
    i: int,
    x: int,
    y: int,
    r: int,
    c: int,
)
    requires
        0 <= r,
        0 <= c < 8,
    ensures
        collision_before(gfx, mem, i, x, y, r, c + 1) == (collision_before(gfx, mem, i, x, y, r, c)
            || lit_at(gfx, mem, i, x, y, r, c)),
{
    if collision_before(gfx, mem, i, x, y, r, c + 1) {
        let (row, col) = choose|row: int, col: int|
            0 <= row && 0 <= col < 8 && lex_before(row, col, r, c + 1) && #[trigger] lit_at(
                gfx,
                mem,
                i,
                x,
                y,
                row,
                col,
            );
        if !(row == r && col == c) {
            assert(lex_before(row, col, r, c));
        }
    }
    if collision_before(gfx, mem, i, x, y, r, c) {
        let (row, col) = choose|row: int, col: int|
            0 <= row && 0 <= col < 8 && lex_before(row, col, r, c) && #[trigger] lit_at(
                gfx,
                mem,
                i,
                x,
                y,
                row,
                col,
            );
        assert(lex_before(row, col, r, c + 1));
    }
    if lit_at(gfx, mem, i, x, y, r, c) {
        assert(lex_before(r, c, r, c + 1));
        assert(collision_before(gfx, mem, i, x, y, r, c + 1));
    }
}

/// `lemma_hits_row` for the collision flag.
pub(crate) proof fn lemma_collision_row(gfx: Seq<bool>, mem: Seq<u8>, i: int, x: int, y: int, r: int)
    ensures
        collision_before(gfx, mem, i, x, y, r, 8) == collision_before(gfx, mem, i, x, y, r + 1, 0),
{
    if collision_before(gfx, mem, i, x, y, r, 8) {
        let (row, col) = choose|row: int, col: int|
            0 <= row && 0 <= col < 8 && lex_before(row, col, r, 8) && #[trigger] lit_at(
                gfx,
                mem,
                i,
                x,
                y,
                row,
                col,
            );
        assert(lex_before(row, col, r + 1, 0));
    }
    if collision_before(gfx, mem, i, x, y, r + 1, 0) {
        let (row, col) = choose|row: int, col: int|
            0 <= row && 0 <= col < 8 && lex_before(row, col, r + 1, 0) && #[trigger] lit_at(
                gfx,
                mem,
                i,
                x,
                y,
                row,
                col,
            );
        assert(lex_before(row, col, r, 8));
    }
}

/// `lemma_hits_done` for the collision flag.
pub(crate) proof fn lemma_collision_done(
    gfx: Seq<bool>,
    mem: Seq<u8>,
    i: int,
    x: int,
    y: int,
    n: int,
)
    requires
        0 <= n,
    ensures
        collision_before(gfx, mem, i, x, y, n, 0) == draw_collision(gfx, mem, i, x, y, n),
{
    if collision_before(gfx, mem, i, x, y, n, 0) {
        let (row, col) = choose|row: int, col: int|
            0 <= row && 0 <= col < 8 && lex_before(row, col, n, 0) && #[trigger] lit_at(
                gfx,
                mem,
                i,
                x,
                y,
                row,
                col,
            );
        assert(0 <= row < n);
    }
    if draw_collision(gfx, mem, i, x, y, n) {
        let (row, col) = choose|row: int, col: int|
            0 <= row < n && 0 <= col < 8 && #[trigger] lit_at(gfx, mem, i, x, y, row, col);
        assert(lex_before(row, col, n, 0));
        assert(collision_before(gfx, mem, i, x, y, n, 0));
    }
}

/// Distinct sprite bits of one draw land on distinct framebuffer cells:
/// the eight columns stay distinct modulo 64 and the (at most sixteen) rows
/// stay distinct modulo 32.
pub(crate) proof fn lemma_target_injective(x: int, y: int, r1: int, c1: int, r2: int, c2: int)
    requires
        0 <= x,
        0 <= y,
        0 <= r1 < 32,
        0 <= r2 < 32,
        0 <= c1 < 8,
        0 <= c2 < 8,
        draw_target(x, y, r1, c1) == draw_target(x, y, r2, c2),
    ensures
        r1 == r2,
        c1 == c2,
{
    vstd::arithmetic::div_mod::lemma_mod_bound(x + c1, 64);
    vstd::arithmetic::div_mod::lemma_mod_bound(x + c2, 64);
    vstd::arithmetic::div_mod::lemma_mod_bound(y + r1, 32);
    vstd::arithmetic::div_mod::lemma_mod_bound(y + r2, 32);
    let t = draw_target(x, y, r1, c1);
    vstd::arithmetic::div_mod::lemma_fundamental_div_mod_converse(
        t,
        64,
        (y + r1) % 32,
        (x + c1) % 64,
    );
    vstd::arithmetic::div_mod::lemma_fundamental_div_mod_converse(
        t,
        64,
        (y + r2) % 32,
        (x + c2) % 64,
    );
    assert((y + r1) % 32 == (y + r2) % 32);
    assert((x + c1) % 64 == (x + c2) % 64);
    vstd::arithmetic::div_mod::lemma_fundamental_div_mod(y + r1, 32);
    vstd::arithmetic::div_mod::lemma_fundamental_div_mod(y + r2, 32);
    let q1 = (y + r1) / 32;
    let q2 = (y + r2) / 32;
    assert(r1 - r2 == 32 * q1 - 32 * q2);
    assert(32 * q1 - 32 * q2 == 32 * (q1 - q2)) by (nonlinear_arith);
    assert(r1 == r2);
    vstd::arithmetic::div_mod::lemma_fundamental_div_mod(x + c1, 64);
    vstd::arithmetic::div_mod::lemma_fundamental_div_mod(x + c2, 64);
    let p1 = (x + c1) / 64;
    let p2 = (x + c2) / 64;
    assert(c1 - c2 == 64 * p1 - 64 * p2);
    assert(64 * p1 - 64 * p2 == 64 * (p1 - p2)) by (nonlinear_arith);
    assert(c1 == c2);
}

/// The cell that sprite bit (`r`, `c`) lands on has not been hit by any bit
/// walked before it.
pub(crate) proof fn lemma_not_hit_before(mem: Seq<u8>, i: int, x: int, y: int, r: int, c: int)
    requires
        0 <= x,
        0 <= y,
        0 <= r < 32,
        0 <= c < 8,
    ensures
        !hits_before(mem, i, x, y, r, c, draw_target(x, y, r, c)),
{
    if hits_before(mem, i, x, y, r, c, draw_target(x, y, r, c)) {
        let (row, col) = choose|row: int, col: int|
            0 <= row && 0 <= col < 8 && lex_before(row, col, r, c) && #[trigger] hit_at(
                mem,
                i,
                x,
                y,
                row,
                col,
                draw_target(x, y, r, c),
            );
        lemma_target_injective(x, y, row, col, r, c);
        assert(false);
    }
}

/// An address `a` of memory is the `j`-th address written by a wrapping
/// register store at base `i` exactly when `a` is `i` + `j` reduced modulo
/// the memory size.
pub(crate) proof fn lemma_wrap_offset(i: int, j: int, a: int)
    requires
        0 <= i < 4096,
        0 <= j < 4096,
        0 <= a < 4096,
    ensures
        ((a - i) % 4096 == j) <==> (a == (i + j) % 4096),
{
    if a == (i + j) % 4096 {
        vstd::arithmetic::div_mod::lemma_fundamental_div_mod(i + j, 4096);
        let q = (i + j) / 4096;
        assert(a - i == j + 4096 * (-q));
        vstd::arithmetic::div_mod::lemma_mod_multiples_vanish(-q, j, 4096);
        vstd::arithmetic::div_mod::lemma_small_mod(j as nat, 4096);
        assert((a - i) % 4096 == j);
    }
    if (a - i) % 4096 == j && a != (i + j) % 4096 {
        vstd::arithmetic::div_mod::lemma_fundamental_div_mod(a - i, 4096);
        let q = (a - i) / 4096;
        assert(i + j == a + 4096 * (-q));
        vstd::arithmetic::div_mod::lemma_mod_multiples_vanish(-q, a, 4096);
        vstd::arithmetic::div_mod::lemma_small_mod(a as nat, 4096);
        assert((i + j) % 4096 == a);
        assert(false);
    }
}

/// The index of the lowest pressed key at or above `k`, or 16 when none is.
pub open spec fn lowest_pressed_from(keys: Seq<bool>, k: int) -> int
    decreases 16 - k,
{
    if k < 0 || k >= 16 {
        16
    } else if keys[k] {
        k
    } else {
        lowest_pressed_from(keys, k + 1)
    }
}

/// The index of the lowest pressed key, or 16 when no key is pressed.
pub open spec fn lowest_pressed(keys: Seq<bool>) -> int {
    lowest_pressed_from(keys, 0)
}

/// When no key below `k` is pressed, the scan for the lowest pressed key
/// may as well start at `k`.
pub(crate) proof fn lemma_lowest_from(keys: Seq<bool>, k: int)
    requires
        0 <= k <= 16,
        forall|j: int| 0 <= j < k ==> !keys[j],
    ensures
        lowest_pressed(keys) == lowest_pressed_from(keys, k),
    decreases k,
{
    if k > 0 {
        lemma_lowest_from(keys, k - 1);
    }
}

/// The three decimal digits of `val`: hundreds, tens, ones, written to
/// memory at `i`, `i`+1, `i`+2 (wrapping modulo the memory size).
pub open spec fn bcd_store(mem: Seq<u8>, i: int, val: u8) -> Seq<u8> {
    mem.update(i % 4096, (val / 100) as u8)
        .update((i + 1) % 4096, ((val / 10) % 10) as u8)
        .update((i + 2) % 4096, (val % 10) as u8)
}

/// Memory after registers `v[0 ..= x]` are stored at addresses `i` upward
/// (wrapping modulo the memory size).
pub open spec fn store_regs(mem: Seq<u8>, i: int, v: Seq<u8>, x: int) -> Seq<u8> {
    Seq::new(mem_size(), |a: int| if (a - i) % 4096 <= x {
        v[(a - i) % 4096]
    } else {
        mem[a]
    })
}

/// Registers after `v[0 ..= x]` are loaded from addresses `i` upward
/// (wrapping modulo the memory size).
pub open spec fn load_regs(mem: Seq<u8>, i: int, v: Seq<u8>, x: int) -> Seq<u8> {
    Seq::new(16, |j: int| if j <= x {
        mem[(i + j) % 4096]
    } else {
        v[j]
    })
}

/// The arithmetic-logic family (high nibble 8), sub-classified by the low
/// nibble. The shifts operate on V[X] itself, not on V[Y]: a documented
/// compatibility quirk. Where an instruction writes both V[X] and the VF
/// flag, the order of the two writes follows the semantics table, so that
/// for X = 15 the later write wins.
pub open spec fn spec_exec_alu(s: VmState, w: u16) -> Result<(VmState, bool), VmError> {
    let x = op_x(w);
    let y = op_y(w);
    let n = op_n(w);
    if n == 0x0 {
        Ok((VmState { v: s.v.update(x, s.v[y]), ..s }, false))
    } else if n == 0x1 {
        Ok((VmState { v: s.v.update(x, s.v[x] | s.v[y]), ..s }, false))
    } else if n == 0x2 {
        Ok((VmState { v: s.v.update(x, s.v[x] & s.v[y]), ..s }, false))
    } else if n == 0x3 {
        Ok((VmState { v: s.v.update(x, s.v[x] ^ s.v[y]), ..s }, false))
    } else if n == 0x4 {
        Ok((VmState { v: s.v.update(x, byte_add(s.v[x], s.v[y])).update(15, carry(s.v[x], s.v[y])), ..s }, false))
    } else if n == 0x5 {
        Ok((VmState { v: s.v.update(x, byte_sub(s.v[x], s.v[y])).update(15, not_borrow(s.v[x], s.v[y])), ..s }, false))
    } else if n == 0x6 {
        Ok((VmState { v: s.v.update(15, (s.v[x] % 2) as u8).update(x, (s.v[x] / 2) as u8), ..s }, false))
    } else if n == 0x7 {
        Ok((VmState { v: s.v.update(x, byte_sub(s.v[y], s.v[x])).update(15, not_borrow(s.v[y], s.v[x])), ..s }, false))
    } else if n == 0xE {
        Ok((VmState { v: s.v.update(15, (s.v[x] / 128) as u8).update(x, ((s.v[x] * 2) % 256) as u8), ..s }, false))
    } else {
        Err(VmError::InvalidOpcode(w))
    }
}

/// The miscellaneous family (high nibble F), sub-classified by the low
/// byte. The key-wait instruction stalls by rewinding the program counter
/// until a key is pressed; the index-register add wraps modulo the memory
/// size (the documented out-of-range policy of this interpreter).
pub open spec fn spec_exec_misc(s: VmState, w: u16) -> Result<(VmState, bool), VmError> {
    let x = op_x(w);
    let low = op_low_byte(w);
    if low == 0x07 {
        Ok((VmState { v: s.v.update(x, s.delay), ..s }, false))
    } else if low == 0x0A {
        if lowest_pressed(s.keys) < 16 {
            Ok((VmState { v: s.v.update(x, lowest_pressed(s.keys) as u8), ..s }, false))
        } else {
            Ok((VmState { pc: rewind_pc(s.pc), ..s }, false))
        }
    } else if low == 0x15 {
        Ok((VmState { delay: s.v[x], ..s }, false))
    } else if low == 0x18 {
        Ok((VmState { sound: s.v[x], ..s }, false))
    } else if low == 0x1E {
        Ok((VmState { i: ((s.i + s.v[x]) % 4096) as u16, ..s }, false))
    } else if low == 0x29 {
        Ok((VmState { i: (s.v[x] * 5) as u16, ..s }, false))
    } else if low == 0x33 {
        Ok((VmState { mem: bcd_store(s.mem, s.i as int, s.v[x]), ..s }, false))
    } else if low == 0x55 {
        Ok((VmState { mem: store_regs(s.mem, s.i as int, s.v, x), ..s }, false))
    } else if low == 0x65 {
        Ok((VmState { v: load_regs(s.mem, s.i as int, s.v, x), ..s }, false))
    } else {
        Err(VmError::InvalidOpcode(w))
    }
}

/// Execution of one already-fetched instruction word `w` on state `s`
/// (whose program counter has already been advanced past `w`). `rnd` is the
/// byte delivered by the random source, consumed only by the CXKK opcode.
/// The boolean result reports whether the framebuffer was mutated. Any word
/// matching no pattern of the semantics table is an `InvalidOpcode`.
///
/// The skip-on-key instructions read the keypad at the low nibble of V[X]:
/// the base machine leaves a register value above 15 undefined there, so
/// this interpreter defines it as the index modulo 16.
pub open spec fn spec_exec(s: VmState, w: u16, rnd: u8) -> Result<(VmState, bool), VmError> {
    let x = op_x(w);
    let y = op_y(w);
    let kk = op_kk(w);
    let addr = op_addr(w);
    let n = op_n(w);
    let low = op_low_byte(w);
    if w == 0x00E0 {
        Ok((VmState { gfx: Seq::new(gfx_size(), |c: int| false), ..s }, true))
    } else if w == 0x00EE {
        if s.sp == 0 {
            Err(VmError::StackUnderflow)
        } else {
            Ok((VmState { pc: s.stack[s.sp as int], sp: (s.sp - 1) as u16, ..s }, false))
        }
    } else if op_class(w) == 0x1 {
        Ok((VmState { pc: addr, ..s }, false))
    } else if op_class(w) == 0x2 {
        if s.sp >= 15 {
            Err(VmError::StackOverflow)
        } else {
            Ok((VmState {
                sp: (s.sp + 1) as u16,
                stack: s.stack.update(s.sp + 1, s.pc),
                pc: addr,
                ..s
            }, false))
        }
    } else if op_class(w) == 0x3 {
        Ok((skip_if(s, s.v[x] == kk), false))
    } else if op_class(w) == 0x4 {
        Ok((skip_if(s, s.v[x] != kk), false))
    } else if op_class(w) == 0x5 && n == 0 {
        Ok((skip_if(s, s.v[x] == s.v[y]), false))
    } else if op_class(w) == 0x6 {
        Ok((VmState { v: s.v.update(x, kk), ..s }, false))
    } else if op_class(w) == 0x7 {
        Ok((VmState { v: s.v.update(x, byte_add(s.v[x], kk)), ..s }, false))
    } else if op_class(w) == 0x8 {
        spec_exec_alu(s, w)
    } else if op_class(w) == 0x9 && n == 0 {
        Ok((skip_if(s, s.v[x] != s.v[y]), false))
    } else if op_class(w) == 0xA {
        Ok((VmState { i: addr, ..s }, false))
    } else if op_class(w) == 0xB {
        Ok((VmState { pc: ((addr + s.v[0]) % 4096) as u16, ..s }, false))
    } else if op_class(w) == 0xC {
        Ok((VmState { v: s.v.update(x, rnd & kk), ..s }, false))
    } else if op_class(w) == 0xD {
        Ok((VmState {
            gfx: draw_gfx(s.gfx, s.mem, s.i as int, s.v[x] as int, s.v[y] as int, n),
            v: s.v.update(
                15,
                if draw_collision(s.gfx, s.mem, s.i as int, s.v[x] as int, s.v[y] as int, n) {
                    1u8
                } else {
                    0u8
                },
            ),
            ..s
        }, true))
    } else if op_class(w) == 0xE && low == 0x9E {
        Ok((skip_if(s, s.keys[s.v[x] as int % 16]), false))
    } else if op_class(w) == 0xE && low == 0xA1 {
        Ok((skip_if(s, !s.keys[s.v[x] as int % 16]), false))
    } else if op_class(w) == 0xF {
        spec_exec_misc(s, w)
    } else {
        Err(VmError::InvalidOpcode(w))
    }
}

/// The big-endian 16-bit word at the program counter: memory at PC is the
/// high byte, memory at PC+1 (wrapping) the low byte.
pub open spec fn fetch_word(s: VmState) -> u16 {
    (s.mem[s.pc as int] * 256 + s.mem[((s.pc + 1) % 4096) as int]) as u16
}

/// The state with the program counter advanced past the fetched word.
pub open spec fn advance_pc(s: VmState) -> VmState {
    VmState { pc: ((s.pc + 2) % 4096) as u16, ..s }
}

/// One full fetch-decode-execute step. On an error nothing of the state
/// changes, not even the program counter.
pub open spec fn spec_cycle(s: VmState, rnd: u8) -> Result<(VmState, bool), VmError> {
    spec_exec(advance_pc(s), fetch_word(s), rnd)
}

/// How one executed step relates the machine state before (`pre`) and after
/// (`post`) and the returned value: on success the state is exactly the one
/// the semantics table gives; on an error the state is untouched.
pub open spec fn cycle_rel(pre: VmState, rnd: u8, post: VmState, r: Result<bool, VmError>) -> bool {
    match spec_cycle(pre, rnd) {
        Ok(sd) => r == Ok::<bool, VmError>(sd.1) && post == sd.0,
        Err(e) => r == Err::<bool, VmError>(e) && post == pre,
    }
}

} // verus!
