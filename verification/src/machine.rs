//! The mathematical model of the interpreter.
//!
//! [`step`] is the authoritative transcription of the CHIP-8 instruction
//! table: one cycle is fetch, decode, execute, then one timer tick. The
//! executable interpreter ([`crate::cpu::Chip8CPU::cycle`]) is proved to
//! produce exactly the state `step` describes.
//!
//! Fatal conditions (an address outside memory, call-stack overflow or
//! underflow) halt the cycle: the machine is left as it stood when the fault
//! was found, the error is reported, and the timers do not tick.

use vstd::prelude::*;

use crate::Chip8Error;
use crate::display::blank_pixels;
use crate::input::first_pressed;
use vstd::arithmetic::div_mod::{
    lemma_add_mod_noop_right, lemma_fundamental_div_mod, lemma_fundamental_div_mod_converse_div,
    lemma_fundamental_div_mod_converse_mod, lemma_mod_bound, lemma_small_mod, lemma_sub_mod_noop,
};

verus! {

/// The register file, call stack, and control state of the CPU.
#[verifier::ext_equal]
pub ghost struct CpuView {
    /// The sixteen 8-bit general registers V0..VF.
    pub regs: Seq<u8>,
    /// The sixteen 16-bit return-address slots.
    pub stack: Seq<u16>,
    /// The 16-bit index register I.
    pub index: u16,
    /// The stack pointer: next free stack slot, 0..=16.
    pub sp: u8,
    /// The program counter.
    pub pc: u16,
    /// The most recently fetched instruction.
    pub opcode: u16,
    /// The delay timer.
    pub delay: u8,
    /// The sound timer; nonzero means "emit tone".
    pub sound: u8,
}

/// Everything one instruction can read or write: the CPU, the 4096 memory
/// cells, and the 2048 framebuffer pixels.
#[verifier::ext_equal]
pub ghost struct MachineView {
    pub cpu: CpuView,
    pub mem: Seq<u8>,
    pub pixels: Seq<bool>,
}

pub open spec fn wf_machine(s: MachineView) -> bool {
    &&& s.cpu.regs.len() == 16
    &&& s.cpu.stack.len() == 16
    &&& s.cpu.sp <= 16
    &&& s.mem.len() == 4096
    &&& s.pixels.len() == 2048
}

// Instruction fields: for an opcode `kxyn`, `x` is bits 8..12, `y` bits 4..8,
// and the immediates n / nn / nnn are the low 4, 8 and 12 bits.

pub open spec fn op_family(op: u16) -> u16 {
    op / 0x1000
}

pub open spec fn op_x(op: u16) -> int {
    ((op / 0x100) % 16) as int
}

pub open spec fn op_y(op: u16) -> int {
    ((op / 0x10) % 16) as int
}

pub open spec fn op_n(op: u16) -> u16 {
    op % 16
}

pub open spec fn op_nn(op: u16) -> u8 {
    (op % 256) as u8
}

pub open spec fn op_nnn(op: u16) -> u16 {
    op % 0x1000
}

/// The bit-level decode used by the interpreter agrees with the arithmetic
/// field extraction above.
pub proof fn lemma_opcode_fields()
    by (bit_vector)
    ensures
        forall|op: u16| #[trigger] (op >> 12u16) == op / 0x1000,
        forall|op: u16| #[trigger] ((op >> 8u16) & 0xF) == (op / 0x100) % 16,
        forall|op: u16| #[trigger] ((op >> 4u16) & 0xF) == (op / 0x10) % 16,
        forall|op: u16| #[trigger] (op & 0xF) == op % 16,
        forall|op: u16| #[trigger] (op & 0xFF) == op % 256,
        forall|op: u16| #[trigger] (op & 0xFFF) == op % 0x1000,
        forall|op: u16| #[trigger] (op / 0x1000) < 16,
{
}

/// A byte's lowest bit is zero or one.
pub proof fn lemma_byte_low_bit()
    by (bit_vector)
    ensures
        forall|b: u8| #[trigger] (b & 1) < 2,
{
}

/// The 16-bit instruction at `pc`: a big-endian pair of memory bytes.
pub open spec fn fetched(mem: Seq<u8>, pc: u16) -> u16 {
    (mem[pc as int] * 256 + mem[pc as int + 1]) as u16
}

// Small state transformers shared by many instructions.

pub open spec fn with_reg(c: CpuView, i: int, v: u8) -> CpuView {
    CpuView { regs: c.regs.update(i, v), ..c }
}

/// Advance past the next instruction when `cond` holds (the skip family).
pub open spec fn skipping(c: CpuView, cond: bool) -> CpuView {
    if cond {
        CpuView { pc: (c.pc + 2) as u16, ..c }
    } else {
        c
    }
}

pub open spec fn set_reg(s: MachineView, i: int, v: u8) -> MachineView {
    MachineView { cpu: with_reg(s.cpu, i, v), ..s }
}

pub open spec fn skip_if(s: MachineView, cond: bool) -> MachineView {
    MachineView { cpu: skipping(s.cpu, cond), ..s }
}

/// Each timer that is above zero counts down by one; neither wraps.
pub open spec fn tick_timers(c: CpuView) -> CpuView {
    CpuView {
        delay: if c.delay > 0 { (c.delay - 1) as u8 } else { 0u8 },
        sound: if c.sound > 0 { (c.sound - 1) as u8 } else { 0u8 },
        ..c
    }
}

/// 8-bit subtraction that wraps modulo 256.
pub open spec fn wrap_sub(a: u8, b: u8) -> u8 {
    if a >= b {
        (a - b) as u8
    } else {
        (a + 256 - b) as u8
    }
}

// The Dxyn sprite blit. A sprite is `n` bytes at memory[i..]; byte `r` is
// row `r`, most significant bit leftmost. It is drawn with its top-left
// corner at (xp, yp), already wrapped into the screen, and every pixel it
// covers wraps around the screen edges independently.

/// Whether sprite row byte `row` has the bit for column `c` (0 leftmost) set.
pub open spec fn sprite_pixel(row: u8, c: int) -> bool {
    (row >> ((7 - c) as u8)) & 1 == 1
}

/// Framebuffer index covered by sprite row `r`, column `c`.
pub open spec fn sprite_target(xp: int, yp: int, r: int, c: int) -> int {
    ((yp + r) % 32) * 64 + ((xp + c) % 64)
}

/// The sprite row that lands on the framebuffer cell `idx`, counted from `yp`.
pub open spec fn sprite_row_of(yp: int, idx: int) -> int {
    (idx / 64 - yp) % 32
}

/// The sprite column that lands on the framebuffer cell `idx`, counted from `xp`.
pub open spec fn sprite_col_of(xp: int, idx: int) -> int {
    (idx % 64 - xp) % 64
}

/// Whether an `n`-row sprite at (xp, yp) covers the framebuffer cell `idx`.
pub open spec fn sprite_covers(xp: int, yp: int, n: int, idx: int) -> bool {
    sprite_row_of(yp, idx) < n && sprite_col_of(xp, idx) < 8
}

/// The framebuffer after an `n`-row sprite at memory[i..] is XOR-blitted at
/// (xp, yp): every covered cell is toggled by its sprite bit.
pub open spec fn draw_pixels(pix: Seq<bool>, mem: Seq<u8>, i: int, xp: int, yp: int, n: int) -> Seq<
    bool,
> {
    Seq::new(
        2048,
        |idx: int|
            if sprite_covers(xp, yp, n, idx) {
                pix[idx] != sprite_pixel(mem[i + sprite_row_of(yp, idx)], sprite_col_of(xp, idx))
            } else {
                pix[idx]
            },
    )
}

/// Whether the blit erases any lit pixel: some set sprite bit lands on a
/// pixel that was already lit.
pub open spec fn draw_collides(pix: Seq<bool>, mem: Seq<u8>, i: int, xp: int, yp: int, n: int) -> bool {
    exists|r: int, c: int|
        0 <= r < n && 0 <= c < 8 && #[trigger] pix[sprite_target(xp, yp, r, c)] && sprite_pixel(
            mem[i + r],
            c,
        )
}

/// The pixels touched once the blit has processed every row before `rows`
/// whole, and the first `cols` columns of row `rows` itself.
pub open spec fn partial_covers(xp: int, yp: int, rows: int, cols: int, idx: int) -> bool {
    (sprite_row_of(yp, idx) < rows && sprite_col_of(xp, idx) < 8) || (sprite_row_of(yp, idx)
        == rows && sprite_col_of(xp, idx) < cols)
}

/// The framebuffer part-way through a blit: cells the finished part covers
/// are toggled, the rest still hold their old value.
pub open spec fn partial_pixels(
    pix: Seq<bool>,
    mem: Seq<u8>,
    i: int,
    xp: int,
    yp: int,
    rows: int,
    cols: int,
) -> Seq<bool> {
    Seq::new(
        2048,
        |idx: int|
            if partial_covers(xp, yp, rows, cols, idx) {
                pix[idx] != sprite_pixel(mem[i + sprite_row_of(yp, idx)], sprite_col_of(xp, idx))
            } else {
                pix[idx]
            },
    )
}

/// Whether the finished part of a blit has erased a lit pixel yet.
pub open spec fn partial_collides(
    pix: Seq<bool>,
    mem: Seq<u8>,
    i: int,
    xp: int,
    yp: int,
    rows: int,
    cols: int,
) -> bool {
    exists|r: int, c: int|
        ((0 <= r < rows && 0 <= c < 8) || (r == rows && 0 <= c < cols))
            && #[trigger] pix[sprite_target(xp, yp, r, c)] && sprite_pixel(mem[i + r], c)
}

/// A sprite cell's target index lies on screen, and decodes back to exactly
/// the row and column it came from.
pub proof fn lemma_sprite_target_inverse(xp: int, yp: int, r: int, c: int)
    requires
        0 <= xp < 64,
        0 <= yp < 32,
        0 <= r < 32,
        0 <= c < 64,
    ensures
        0 <= sprite_target(xp, yp, r, c) < 2048,
        sprite_row_of(yp, sprite_target(xp, yp, r, c)) == r,
        sprite_col_of(xp, sprite_target(xp, yp, r, c)) == c,
{
    let ty = (yp + r) % 32;
    let tx = (xp + c) % 64;
    let t = sprite_target(xp, yp, r, c);
    lemma_mod_bound(yp + r, 32);
    lemma_mod_bound(xp + c, 64);
    lemma_fundamental_div_mod_converse_div(t, 64, ty, tx);
    lemma_fundamental_div_mod_converse_mod(t, 64, ty, tx);
    assert(t / 64 == ty && t % 64 == tx);
    lemma_sub_mod_noop(yp + r, yp, 32);
    lemma_small_mod(yp as nat, 32);
    lemma_small_mod(r as nat, 32);
    assert(sprite_row_of(yp, t) == ((yp + r) % 32 - yp % 32) % 32);
    assert(sprite_row_of(yp, t) == r);
    lemma_sub_mod_noop(xp + c, xp, 64);
    lemma_small_mod(xp as nat, 64);
    lemma_small_mod(c as nat, 64);
    assert(sprite_col_of(xp, t) == ((xp + c) % 64 - xp % 64) % 64);
    assert(sprite_col_of(xp, t) == c);
}

/// No two sprite cells land on the same framebuffer index: an index that
/// decodes to row `r`, column `c` is that cell's target.
pub proof fn lemma_sprite_target_unique(xp: int, yp: int, r: int, c: int, idx: int)
    requires
        0 <= xp < 64,
        0 <= yp < 32,
        0 <= r < 32,
        0 <= c < 64,
        0 <= idx < 2048,
        sprite_row_of(yp, idx) == r,
        sprite_col_of(xp, idx) == c,
    ensures
        idx == sprite_target(xp, yp, r, c),
{
    let u = idx / 64;
    let v = idx % 64;
    lemma_fundamental_div_mod(idx, 64);
    lemma_mod_bound(idx, 64);
    assert(idx == 64 * u + v);
    assert(0 <= u < 32);
    lemma_add_mod_noop_right(yp, u - yp, 32);
    lemma_small_mod(u as nat, 32);
    assert((yp + r) % 32 == (yp + (u - yp) % 32) % 32);
    assert((yp + r) % 32 == u);
    lemma_add_mod_noop_right(xp, v - xp, 64);
    lemma_small_mod(v as nat, 64);
    assert((xp + c) % 64 == (xp + (v - xp) % 64) % 64);
    assert((xp + c) % 64 == v);
}

/// Memory after Fx55: registers V0..Vx stored at addresses i..=i+x.
pub open spec fn store_regs(mem: Seq<u8>, regs: Seq<u8>, i: int, x: int) -> Seq<u8> {
    Seq::new(4096, |a: int| if i <= a <= i + x { regs[a - i] } else { mem[a] })
}

/// Registers after Fx65: V0..Vx loaded from addresses i..=i+x, the rest kept.
pub open spec fn load_regs(regs: Seq<u8>, mem: Seq<u8>, i: int, x: int) -> Seq<u8> {
    Seq::new(16, |j: int| if 0 <= j <= x { mem[i + j] } else { regs[j] })
}

/// The 8xy_ arithmetic/logic family, selected by the low nibble.
///
/// Where an operation yields a carry, borrow or bit flag, VF is written
/// last: even for x == 0xF the flag lands in VF, overwriting the result.
pub open spec fn exec_alu(s: MachineView, x: int, y: int, sub: u16) -> (MachineView, Option<
    Chip8Error,
>) {
    let vx = s.cpu.regs[x];
    let vy = s.cpu.regs[y];
    if sub == 0x0 {
        (set_reg(s, x, vy), None)
    } else if sub == 0x1 {
        (set_reg(s, x, vx | vy), None)
    } else if sub == 0x2 {
        (set_reg(s, x, vx & vy), None)
    } else if sub == 0x3 {
        (set_reg(s, x, vx ^ vy), None)
    } else if sub == 0x4 {
        (set_reg(set_reg(s, x, ((vx + vy) % 256) as u8), 0xF, if vx + vy > 255 { 1u8 } else { 0u8 }), None)
    } else if sub == 0x5 {
        (set_reg(set_reg(s, x, wrap_sub(vx, vy)), 0xF, if vx >= vy { 1u8 } else { 0u8 }), None)
    } else if sub == 0x6 {
        (set_reg(set_reg(s, x, vx >> 1u8), 0xF, vx & 1), None)
    } else if sub == 0x7 {
        (set_reg(set_reg(s, x, wrap_sub(vy, vx)), 0xF, if vy >= vx { 1u8 } else { 0u8 }), None)
    } else if sub == 0xE {
        (set_reg(set_reg(s, x, vx << 1u8), 0xF, (vx & 0x80) >> 7u8), None)
    } else {
        (s, None)
    }
}

/// The Fx__ family, selected by the low byte.
pub open spec fn exec_fx(s: MachineView, keys: Seq<bool>, x: int, sub: u16) -> (MachineView, Option<
    Chip8Error,
>) {
    let vx = s.cpu.regs[x];
    if sub == 0x07 {
        (set_reg(s, x, s.cpu.delay), None)
    } else if sub == 0x0A {
        // Await a key: with none pressed, rewind the fetch and retry next cycle.
        match first_pressed(keys) {
            Some(k) => (set_reg(s, x, k), None),
            None => (MachineView { cpu: CpuView { pc: (s.cpu.pc - 2) as u16, ..s.cpu }, ..s }, None),
        }
    } else if sub == 0x15 {
        (MachineView { cpu: CpuView { delay: vx, ..s.cpu }, ..s }, None)
    } else if sub == 0x18 {
        (MachineView { cpu: CpuView { sound: vx, ..s.cpu }, ..s }, None)
    } else if sub == 0x1E {
        (MachineView { cpu: CpuView { index: ((s.cpu.index + vx) % 0x10000) as u16, ..s.cpu }, ..s }, None)
    } else if sub == 0x29 {
        (MachineView { cpu: CpuView { index: (0x50 + vx * 5) as u16, ..s.cpu }, ..s }, None)
    } else if sub == 0x33 {
        if s.cpu.index + 2 > 4095 {
            (s, Some(Chip8Error::BoundsError))
        } else {
            (
                MachineView {
                    mem: s.mem.update(s.cpu.index as int, (vx / 100) as u8).update(
                        s.cpu.index as int + 1,
                        ((vx / 10) % 10) as u8,
                    ).update(s.cpu.index as int + 2, (vx % 10) as u8),
                    ..s
                },
                None,
            )
        }
    } else if sub == 0x55 {
        if s.cpu.index + x > 4095 {
            (s, Some(Chip8Error::BoundsError))
        } else {
            (MachineView { mem: store_regs(s.mem, s.cpu.regs, s.cpu.index as int, x), ..s }, None)
        }
    } else if sub == 0x65 {
        if s.cpu.index + x > 4095 {
            (s, Some(Chip8Error::BoundsError))
        } else {
            (
                MachineView {
                    cpu: CpuView {
                        regs: load_regs(s.cpu.regs, s.mem, s.cpu.index as int, x),
                        ..s.cpu
                    },
                    ..s
                },
                None,
            )
        }
    } else {
        (s, None)
    }
}

/// Execute the already-fetched instruction `s.cpu.opcode`.
///
/// `keys` is the keypad as polled this cycle; `r` is the byte the random
/// source produced, read only by Cxnn. Sub-opcodes outside the instruction
/// table are no-ops.
pub open spec fn exec_op(s: MachineView, keys: Seq<bool>, r: u8) -> (MachineView, Option<
    Chip8Error,
>) {
    let op = s.cpu.opcode;
    let x = op_x(op);
    let y = op_y(op);
    let vx = s.cpu.regs[x];
    let vy = s.cpu.regs[y];
    let nn = op_nn(op);
    let nnn = op_nnn(op);
    let n = op_n(op);
    let fam = op_family(op);
    if fam == 0x0 {
        if op % 16 == 0x0 {
            // 00E0: clear the display.
            (MachineView { pixels: blank_pixels(), ..s }, None)
        } else if op % 16 == 0xE {
            // 00EE: return; pop the program counter.
            if s.cpu.sp == 0 {
                (s, Some(Chip8Error::StackError))
            } else {
                (
                    MachineView {
                        cpu: CpuView {
                            sp: (s.cpu.sp - 1) as u8,
                            pc: s.cpu.stack[s.cpu.sp - 1],
                            ..s.cpu
                        },
                        ..s
                    },
                    None,
                )
            }
        } else {
            (s, None)
        }
    } else if fam == 0x1 {
        // 1nnn: jump.
        (MachineView { cpu: CpuView { pc: nnn, ..s.cpu }, ..s }, None)
    } else if fam == 0x2 {
        // 2nnn: call; push the address of the next instruction.
        if s.cpu.sp >= 16 {
            (s, Some(Chip8Error::StackError))
        } else {
            (
                MachineView {
                    cpu: CpuView {
                        stack: s.cpu.stack.update(s.cpu.sp as int, s.cpu.pc),
                        sp: (s.cpu.sp + 1) as u8,
                        pc: nnn,
                        ..s.cpu
                    },
                    ..s
                },
                None,
            )
        }
    } else if fam == 0x3 {
        (skip_if(s, vx == nn), None)
    } else if fam == 0x4 {
        (skip_if(s, vx != nn), None)
    } else if fam == 0x5 {
        (skip_if(s, vx == vy), None)
    } else if fam == 0x6 {
        (set_reg(s, x, nn), None)
    } else if fam == 0x7 {
        // 7xnn: add immediate, wrapping, VF untouched.
        (set_reg(s, x, ((vx + nn) % 256) as u8), None)
    } else if fam == 0x8 {
        exec_alu(s, x, y, op % 16)
    } else if fam == 0x9 {
        (skip_if(s, vx != vy), None)
    } else if fam == 0xA {
        (MachineView { cpu: CpuView { index: nnn, ..s.cpu }, ..s }, None)
    } else if fam == 0xB {
        (MachineView { cpu: CpuView { pc: (s.cpu.regs[0] + nnn) as u16, ..s.cpu }, ..s }, None)
    } else if fam == 0xC {
        // Cxnn: random byte masked by nn.
        (set_reg(s, x, r & nn), None)
    } else if fam == 0xD {
        // Dxyn: XOR-blit an n-row sprite from memory[I..]; VF reports collision.
        if n > 0 && s.cpu.index + n > 4096 {
            (s, Some(Chip8Error::BoundsError))
        } else {
            let xp = vx as int % 64;
            let yp = vy as int % 32;
            let i = s.cpu.index as int;
            let col = draw_collides(s.pixels, s.mem, i, xp, yp, n as int);
            (
                set_reg(
                    MachineView { pixels: draw_pixels(s.pixels, s.mem, i, xp, yp, n as int), ..s },
                    0xF,
                    if col { 1u8 } else { 0u8 },
                ),
                None,
            )
        }
    } else if fam == 0xE {
        // Keys are indexed by Vx; an index past the keypad is out of bounds.
        if op % 16 == 0xE {
            if vx >= 16 {
                (s, Some(Chip8Error::BoundsError))
            } else {
                (skip_if(s, keys[vx as int]), None)
            }
        } else if op % 16 == 0x1 {
            if vx >= 16 {
                (s, Some(Chip8Error::BoundsError))
            } else {
                (skip_if(s, !keys[vx as int]), None)
            }
        } else {
            (s, None)
        }
    } else {
        exec_fx(s, keys, x, op % 256)
    }
}

/// One full cycle: fetch the big-endian instruction at `pc`, advance `pc` by
/// two, execute, then tick both timers. A fatal condition halts the cycle
/// where it stands: on a fetch past memory nothing changes; on an execution
/// fault the fetch stays applied but the instruction has no effect and the
/// timers do not tick.
pub open spec fn step(pre: MachineView, keys: Seq<bool>, r: u8) -> (MachineView, Option<
    Chip8Error,
>) {
    if pre.cpu.pc as int + 1 >= 4096 {
        (pre, Some(Chip8Error::BoundsError))
    } else {
        let s = MachineView {
            cpu: CpuView {
                opcode: fetched(pre.mem, pre.cpu.pc),
                pc: (pre.cpu.pc + 2) as u16,
                ..pre.cpu
            },
            ..pre
        };
        let res = exec_op(s, keys, r);
        if res.1 is Some {
            res
        } else {
            (MachineView { cpu: tick_timers(res.0.cpu), ..res.0 }, None)
        }
    }
}

/// The CPU as it powers up: everything zero, the program counter at the
/// start of the program region.
pub open spec fn initial_cpu() -> CpuView {
    CpuView {
        regs: Seq::new(16, |i: int| 0u8),
        stack: Seq::new(16, |i: int| 0u16),
        index: 0,
        sp: 0,
        pc: 0x200,
        opcode: 0,
        delay: 0,
        sound: 0,
    }
}

/// The `Result` the interpreter returns for a cycle that ended with `err`.
pub open spec fn step_result(err: Option<Chip8Error>) -> Result<(), Chip8Error> {
    match err {
        None => Ok(()),
        Some(e) => Err(e),
    }
}

/// The error a cycle's `Result` carries, if any.
pub open spec fn err_of(result: Result<(), Chip8Error>) -> Option<Chip8Error> {
    match result {
        Ok(_) => None,
        Err(e) => Some(e),
    }
}

/// What one call of the interpreter's cycle promises, given that the random
/// source produced the byte `r`: the machine moves to exactly the state
/// `step` describes, and the cycle's `Result` carries exactly `step`'s error.
pub open spec fn cycle_matches(
    pre: MachineView,
    post: MachineView,
    keys: Seq<bool>,
    r: u8,
    result: Result<(), Chip8Error>,
) -> bool {
    &&& post == step(pre, keys, r).0
    &&& result == step_result(step(pre, keys, r).1)
}

} // verus!
