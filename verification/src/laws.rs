//! Properties of the interpreter that hold for every machine state, proved
//! once and for all against the model in [`crate::machine`].

use vstd::prelude::*;

use crate::machine::{
    draw_collides, draw_pixels, fetched, lemma_sprite_target_inverse, load_regs, op_family, op_n,
    op_nn, op_nnn, op_x, op_y, sprite_pixel, sprite_target, step, store_regs, wf_machine,
    MachineView,
};
use vstd::arithmetic::div_mod::{
    lemma_fundamental_div_mod, lemma_fundamental_div_mod_converse_div,
    lemma_fundamental_div_mod_converse_mod, lemma_mod_bound,
};

verus! {

/// Decoding an instruction assembled from its two bytes recovers the
/// fields of those bytes.
pub proof fn lemma_opcode_of_bytes(hi: u8, lo: u8)
    ensures
        op_family((hi * 256 + lo) as u16) == hi as int / 16,
        op_x((hi * 256 + lo) as u16) == hi as int % 16,
        op_y((hi * 256 + lo) as u16) == lo as int / 16,
        op_n((hi * 256 + lo) as u16) == lo as int % 16,
        op_nn((hi * 256 + lo) as u16) == lo,
        op_nnn((hi * 256 + lo) as u16) == (hi as int % 16) * 256 + lo,
{
    let h = hi as int;
    let l = lo as int;
    let op = (hi * 256 + lo) as u16;
    assert(op == h * 256 + l);
    lemma_fundamental_div_mod(h, 16);
    lemma_mod_bound(h, 16);
    lemma_fundamental_div_mod(l, 16);
    lemma_mod_bound(l, 16);
    lemma_fundamental_div_mod_converse_div(h * 256 + l, 0x1000, h / 16, (h % 16) * 256 + l);
    lemma_fundamental_div_mod_converse_mod(h * 256 + l, 0x1000, h / 16, (h % 16) * 256 + l);
    lemma_fundamental_div_mod_converse_div(h * 256 + l, 256, h, l);
    lemma_fundamental_div_mod_converse_mod(h * 256 + l, 256, h, l);
    lemma_fundamental_div_mod_converse_div(h * 256 + l, 16, 16 * h + l / 16, l % 16);
    lemma_fundamental_div_mod_converse_mod(h * 256 + l, 16, 16 * h + l / 16, l % 16);
    lemma_fundamental_div_mod_converse_mod(16 * h + l / 16, 16, h, l / 16);
    lemma_fundamental_div_mod_converse_mod(h, 16, h / 16, h % 16);
}

/// Setting a register and then comparing it against the same immediate
/// always skips: for every x and nn, a `6xnn` followed by `3xnn` lands the
/// program counter six bytes past where it started.
pub proof fn lemma_set_then_compare_skips(
    s: MachineView,
    keys: Seq<bool>,
    r1: u8,
    r2: u8,
    x: u8,
    nn: u8,
)
    requires
        wf_machine(s),
        x < 16,
        s.cpu.pc as int + 3 <= 4095,
        s.mem[s.cpu.pc as int] == 0x60 + x,
        s.mem[s.cpu.pc as int + 1] == nn,
        s.mem[s.cpu.pc as int + 2] == 0x30 + x,
        s.mem[s.cpu.pc as int + 3] == nn,
    ensures
        step(s, keys, r1).1 is None,
        step(s, keys, r1).0.cpu.regs[x as int] == nn,
        step(s, keys, r1).0.cpu.pc == s.cpu.pc + 2,
        step(step(s, keys, r1).0, keys, r2).1 is None,
        step(step(s, keys, r1).0, keys, r2).0.cpu.pc == s.cpu.pc + 6,
{
    let pc = s.cpu.pc as int;
    let hi1 = s.mem[pc];
    let lo1 = s.mem[pc + 1];
    lemma_opcode_of_bytes(hi1, lo1);
    lemma_fundamental_div_mod_converse_div(0x60 + x as int, 16, 6, x as int);
    lemma_fundamental_div_mod_converse_mod(0x60 + x as int, 16, 6, x as int);
    let s2 = step(s, keys, r1).0;
    assert(s2.cpu.regs[x as int] == nn);
    assert(s2.cpu.pc == s.cpu.pc + 2);
    let hi2 = s2.mem[pc + 2];
    let lo2 = s2.mem[pc + 3];
    lemma_opcode_of_bytes(hi2, lo2);
    lemma_fundamental_div_mod_converse_div(0x30 + x as int, 16, 3, x as int);
    lemma_fundamental_div_mod_converse_mod(0x30 + x as int, 16, 3, x as int);
    assert(step(s2, keys, r2).0.cpu.pc == s.cpu.pc + 6);
}

/// `7xnn` never touches the flag register: as long as x is not 0xF itself,
/// VF is the same after the add as before.
pub proof fn lemma_add_immediate_flag_untouched(s: MachineView, keys: Seq<bool>, r: u8)
    requires
        wf_machine(s),
        s.cpu.pc as int + 1 <= 4095,
        op_family(fetched(s.mem, s.cpu.pc)) == 7,
        op_x(fetched(s.mem, s.cpu.pc)) != 0xF,
    ensures
        step(s, keys, r).1 is None,
        step(s, keys, r).0.cpu.regs[0xF] == s.cpu.regs[0xF],
{
}

/// A call followed by its return restores the program counter and the
/// stack pointer exactly: `2nnn` saves the address of the next
/// instruction, and the `00EE` it jumps to brings the machine back there.
pub proof fn lemma_call_then_return(s: MachineView, keys: Seq<bool>, r1: u8, r2: u8, addr: u16)
    requires
        wf_machine(s),
        s.cpu.sp < 16,
        s.cpu.pc as int + 1 <= 4095,
        addr as int + 1 <= 4095,
        s.mem[s.cpu.pc as int] == (0x20 + addr / 256) as u8,
        s.mem[s.cpu.pc as int + 1] == (addr % 256) as u8,
        s.mem[addr as int] == 0x00u8,
        s.mem[addr as int + 1] == 0xEEu8,
    ensures
        step(s, keys, r1).1 is None,
        step(s, keys, r1).0.cpu.pc == addr,
        step(s, keys, r1).0.cpu.sp == s.cpu.sp + 1,
        step(s, keys, r1).0.cpu.stack[s.cpu.sp as int] == s.cpu.pc + 2,
        step(step(s, keys, r1).0, keys, r2).1 is None,
        step(step(s, keys, r1).0, keys, r2).0.cpu.pc == s.cpu.pc + 2,
        step(step(s, keys, r1).0, keys, r2).0.cpu.sp == s.cpu.sp,
{
    let pc = s.cpu.pc as int;
    let hi1 = s.mem[pc];
    let lo1 = s.mem[pc + 1];
    lemma_fundamental_div_mod(addr as int, 256);
    let d = addr as int / 256;
    let m = addr as int % 256;
    assert(0 <= d < 16);
    lemma_opcode_of_bytes(hi1, lo1);
    lemma_fundamental_div_mod_converse_div(0x20 + d, 16, 2, d);
    lemma_fundamental_div_mod_converse_mod(0x20 + d, 16, 2, d);
    let s2 = step(s, keys, r1).0;
    assert(s2.cpu.pc == addr);
    assert(s2.cpu.sp == s.cpu.sp + 1);
    assert(s2.cpu.stack[s.cpu.sp as int] == s.cpu.pc + 2);
    let hi2 = s2.mem[addr as int];
    let lo2 = s2.mem[addr as int + 1];
    lemma_opcode_of_bytes(hi2, lo2);
    assert(step(s2, keys, r2).0.cpu.pc == s.cpu.pc + 2);
    assert(step(s2, keys, r2).0.cpu.sp == s.cpu.sp);
}

/// XOR self-erase: drawing one 8x1 sprite twice at the same spot, over
/// pixels that started dark, first lights its set bits and then erases
/// them again; the second draw reports a collision exactly when the sprite
/// has any set bit at all, the first draw never does.
pub proof fn lemma_sprite_self_erase(pix: Seq<bool>, mem: Seq<u8>, i: int, xp: int, yp: int)
    requires
        pix.len() == 2048,
        mem.len() == 4096,
        0 <= i < 4096,
        0 <= xp < 64,
        0 <= yp < 32,
        forall|c: int|
            0 <= c < 8 && sprite_pixel(mem[i], c) ==> !pix[#[trigger] sprite_target(xp, yp, 0, c)],
    ensures
        !draw_collides(pix, mem, i, xp, yp, 1),
        draw_collides(draw_pixels(pix, mem, i, xp, yp, 1), mem, i, xp, yp, 1) == (exists|c: int|
            0 <= c < 8 && #[trigger] sprite_pixel(mem[i], c)),
        draw_pixels(draw_pixels(pix, mem, i, xp, yp, 1), mem, i, xp, yp, 1) == pix,
{
    let d1 = draw_pixels(pix, mem, i, xp, yp, 1);
    if draw_collides(pix, mem, i, xp, yp, 1) {
        let (r0, c0) = choose|r0: int, c0: int|
            0 <= r0 < 1 && 0 <= c0 < 8 && #[trigger] pix[sprite_target(xp, yp, r0, c0)]
                && sprite_pixel(mem[i + r0], c0);
        assert(r0 == 0);
        assert(false);
    }
    assert forall|c: int| 0 <= c < 8 implies #[trigger] d1[sprite_target(xp, yp, 0, c)] == (pix[
        sprite_target(xp, yp, 0, c)
    ] != sprite_pixel(mem[i], c)) by {
        lemma_sprite_target_inverse(xp, yp, 0, c);
    }
    if exists|c: int| 0 <= c < 8 && #[trigger] sprite_pixel(mem[i], c) {
        let c0 = choose|c0: int| 0 <= c0 < 8 && #[trigger] sprite_pixel(mem[i], c0);
        lemma_sprite_target_inverse(xp, yp, 0, c0);
        assert(d1[sprite_target(xp, yp, 0, c0)] && sprite_pixel(mem[i + 0], c0));
        assert(draw_collides(d1, mem, i, xp, yp, 1));
    }
    if draw_collides(d1, mem, i, xp, yp, 1) {
        let (r0, c0) = choose|r0: int, c0: int|
            0 <= r0 < 1 && 0 <= c0 < 8 && #[trigger] d1[sprite_target(xp, yp, r0, c0)]
                && sprite_pixel(mem[i + r0], c0);
        assert(sprite_pixel(mem[i], c0));
    }
    assert(draw_pixels(d1, mem, i, xp, yp, 1) =~= pix);
}

/// Fx55 then Fx65 round trip: storing V0..Vx at I and loading them back,
/// into whatever the register file holds by then, reproduces V0..Vx and
/// leaves the registers past Vx as the load found them. Neither direction
/// reads or writes the index register itself.
pub proof fn lemma_store_then_load_round_trip(
    regs: Seq<u8>,
    loaded: Seq<u8>,
    mem: Seq<u8>,
    i: int,
    x: int,
)
    requires
        regs.len() == 16,
        loaded.len() == 16,
        mem.len() == 4096,
        0 <= x < 16,
        0 <= i,
        i + x <= 4095,
    ensures
        forall|j: int|
            0 <= j <= x ==> #[trigger] load_regs(loaded, store_regs(mem, regs, i, x), i, x)[j]
                == regs[j],
        forall|j: int|
            x < j < 16 ==> #[trigger] load_regs(loaded, store_regs(mem, regs, i, x), i, x)[j]
                == loaded[j],
{
}

} // verus!

