//! The CHIP-8 CPU: registers, call stack, timers, and the interpreter.
//!
//! Every instruction handler, and [`Chip8CPU::cycle`] as a whole, is proved
//! against the model in [`crate::machine`]: a cycle leaves the machine in
//! exactly the state [`crate::machine::step`] describes.

use vstd::prelude::*;

use crate::Chip8Error;
use crate::display::Chip8Display;
use crate::input::{first_pressed, Chip8Input};
use crate::machine::{
    cycle_matches, draw_collides, draw_pixels, err_of, exec_op, fetched, lemma_byte_low_bit,
    lemma_opcode_fields, lemma_sprite_target_inverse, lemma_sprite_target_unique, load_regs, op_n,
    op_nn, op_nnn, op_x, op_y, partial_collides, partial_covers, partial_pixels, skipping,
    sprite_col_of, sprite_pixel, sprite_row_of, sprite_target, step, store_regs,
    tick_timers, with_reg, wrap_sub, CpuView, MachineView,
};
use crate::memory::Chip8Memory;

verus! {

/// The CPU state: sixteen 8-bit registers, the index register I, the
/// program counter, the 16-slot call stack with its stack pointer, the
/// currently fetched instruction, and the two countdown timers.
pub struct Chip8CPU {
    pub index_registers: Vec<u8>,
    pub stack: Vec<u16>,
    pub index: u16,
    pub sp: u8,
    pub pc: u16,
    pub opcode: u16,
    pub delay_timer: u8,
    pub sound_timer: u8,
}

/// The whole machine as the model sees it.
pub open spec fn machine_view(cpu: Chip8CPU, mem: Chip8Memory, disp: Chip8Display) -> MachineView {
    MachineView { cpu: cpu_view(cpu), mem: mem.data@, pixels: disp.pixels() }
}

/// The CPU as the model sees it.
pub open spec fn cpu_view(cpu: Chip8CPU) -> CpuView {
    CpuView {
        regs: cpu.index_registers@,
        stack: cpu.stack@,
        index: cpu.index,
        sp: cpu.sp,
        pc: cpu.pc,
        opcode: cpu.opcode,
        delay: cpu.delay_timer,
        sound: cpu.sound_timer,
    }
}

impl Chip8CPU {
    /// Sixteen registers, sixteen stack slots, and a stack pointer that
    /// never leaves 0..=16.
    pub open spec fn wf(&self) -> bool {
        &&& self.index_registers@.len() == 16
        &&& self.stack@.len() == 16
        &&& self.sp <= 16
    }

    /// A powered-up CPU: registers, stack and timers zero, the program
    /// counter at the start of the program region.
    pub fn new() -> (cpu: Chip8CPU)
        ensures
            cpu.wf(),
            cpu_view(cpu) == crate::machine::initial_cpu(),
    {
        let mut index_registers: Vec<u8> = Vec::new();
        let mut stack: Vec<u16> = Vec::new();
        let mut i: usize = 0;
        while i < 16
            invariant
                i <= 16,
                index_registers@.len() == i,
                stack@.len() == i,
                forall|j: int| 0 <= j < i ==> #[trigger] index_registers@[j] == 0u8,
                forall|j: int| 0 <= j < i ==> #[trigger] stack@[j] == 0u16,
            decreases 16 - i,
        {
            index_registers.push(0);
            stack.push(0);
            i = i + 1;
        }
        let cpu = Chip8CPU {
            index_registers,
            stack,
            index: 0,
            sp: 0x00,
            pc: Chip8Memory::START_ADRESS as u16,
            opcode: 0x00,
            delay_timer: 0,
            sound_timer: 0,
        };
        proof {
            assert(cpu_view(cpu) =~= crate::machine::initial_cpu());
        }
        cpu
    }

    /// Write `value` into register `index`.
    pub fn set_register(&mut self, index: &u8, value: &u8)
        requires
            old(self).wf(),
            *index < 16,
        ensures
            final(self).wf(),
            cpu_view(*final(self)) == with_reg(cpu_view(*old(self)), *index as int, *value),
    {
        self.index_registers.set(*index as usize, *value);
    }

    /// Relies on rand::random: a byte drawn from the thread-local generator.
    /// Nothing can be promised of its value.
    #[verifier::external_body]
    pub fn random_byte() -> u8 {
        rand::random::<u8>()
    }

    /// One full cycle: fetch the big-endian instruction at `pc`, advance
    /// `pc`, dispatch on the decoded opcode, then tick both timers.
    ///
    /// For some byte `r` that the random source produced this cycle, the
    /// machine ends in exactly the state [`crate::machine::step`] describes,
    /// and the returned `Result` is exactly the one `step` calls for: `Ok`
    /// for a completed cycle, the fatal error otherwise.
    pub fn cycle(
        &mut self,
        memory: &mut Chip8Memory,
        display: &mut Chip8Display,
        input: &Chip8Input,
    ) -> (result: Result<(), Chip8Error>)
        requires
            old(self).wf(),
            old(memory).wf(),
            old(display).wf(),
            input.wf(),
        ensures
            final(self).wf(),
            final(memory).wf(),
            final(display).wf(),
            exists|r: u8|
                cycle_matches(
                    machine_view(*old(self), *old(memory), *old(display)),
                    machine_view(*final(self), *final(memory), *final(display)),
                    input.keys@,
                    r,
                    result,
                ),
    {
        let ghost pre = machine_view(*old(self), *old(memory), *old(display));
        let ghost keys = input.keys@;
        proof {
            lemma_opcode_fields();
        }
        // Fetch: two consecutive memory bytes form the instruction.
        if self.pc as usize + 1 >= 4096 {
            proof {
                assert(cycle_matches(
                    pre,
                    machine_view(*self, *memory, *display),
                    keys,
                    0u8,
                    Err::<(), Chip8Error>(Chip8Error::BoundsError),
                ));
            }
            return Err(Chip8Error::BoundsError);
        }
        let pc_us = self.pc as usize;
        let hi = memory.data[pc_us];
        let lo = memory.data[pc_us + 1];
        self.opcode = (hi as u16) * 256 + (lo as u16);
        self.pc = self.pc + 2;
        let ghost s1 = machine_view(*self, *memory, *display);
        proof {
            assert(s1 =~= (MachineView {
                cpu: CpuView {
                    opcode: fetched(pre.mem, pre.cpu.pc),
                    pc: (pre.cpu.pc + 2) as u16,
                    ..pre.cpu
                },
                ..pre
            }));
        }
        let ghost mut rr: u8 = 0;
        // Dispatch on the top nibble; families 0, 8, E and F carry several
        // operations and are told apart by their low nibble or byte.
        let family: u16 = self.opcode >> 12u16;
        let res: Result<(), Chip8Error> = match family {
            0x0 => {
                let sub: u16 = self.opcode & 0xF;
                match sub {
                    0x0 => {
                        self.op_00e0(display);
                        proof {
                            assert(machine_view(*self, *memory, *display) =~= exec_op(s1, keys, rr).0);
                            assert(exec_op(s1, keys, rr).1 is None);
                        }
                        Ok(())
                    },
                    0xE => {
                        let res0 = self.op_00ee();
                        proof {
                            assert(machine_view(*self, *memory, *display) =~= exec_op(s1, keys, rr).0);
                            assert(err_of(res0) == exec_op(s1, keys, rr).1);
                        }
                        res0
                    },
                    _ => {
                        self.no_op();
                        proof {
                            assert(machine_view(*self, *memory, *display) =~= exec_op(s1, keys, rr).0);
                            assert(exec_op(s1, keys, rr).1 is None);
                        }
                        Ok(())
                    },
                }
            },
            0x1 => {
                self.op_1nnn();
                proof {
                    assert(machine_view(*self, *memory, *display) =~= exec_op(s1, keys, rr).0);
                    assert(exec_op(s1, keys, rr).1 is None);
                }
                Ok(())
            },
            0x2 => {
                let res0 = self.op_2nnn();
                proof {
                    assert(machine_view(*self, *memory, *display) =~= exec_op(s1, keys, rr).0);
                    assert(err_of(res0) == exec_op(s1, keys, rr).1);
                }
                res0
            },
            0x3 => {
                self.op_3xnn();
                proof {
                    assert(machine_view(*self, *memory, *display) =~= exec_op(s1, keys, rr).0);
                    assert(exec_op(s1, keys, rr).1 is None);
                }
                Ok(())
            },
            0x4 => {
                self.op_4xnn();
                proof {
                    assert(machine_view(*self, *memory, *display) =~= exec_op(s1, keys, rr).0);
                    assert(exec_op(s1, keys, rr).1 is None);
                }
                Ok(())
            },
            0x5 => {
                self.op_5xy0();
                proof {
                    assert(machine_view(*self, *memory, *display) =~= exec_op(s1, keys, rr).0);
                    assert(exec_op(s1, keys, rr).1 is None);
                }
                Ok(())
            },
            0x6 => {
                self.op_6xnn();
                proof {
                    assert(machine_view(*self, *memory, *display) =~= exec_op(s1, keys, rr).0);
                    assert(exec_op(s1, keys, rr).1 is None);
                }
                Ok(())
            },
            0x7 => {
                self.op_7xnn();
                proof {
                    assert(machine_view(*self, *memory, *display) =~= exec_op(s1, keys, rr).0);
                    assert(exec_op(s1, keys, rr).1 is None);
                }
                Ok(())
            },
            0x8 => {
                let sub: u16 = self.opcode & 0xF;
                match sub {
                    0x0 => {
                        self.op_8xy0();
                        proof {
                            assert(machine_view(*self, *memory, *display) =~= exec_op(s1, keys, rr).0);
                            assert(exec_op(s1, keys, rr).1 is None);
                        }
                        Ok(())
                    },
                    0x1 => {
                        self.op_8xy1();
                        proof {
                            assert(machine_view(*self, *memory, *display) =~= exec_op(s1, keys, rr).0);
                            assert(exec_op(s1, keys, rr).1 is None);
                        }
                        Ok(())
                    },
                    0x2 => {
                        self.op_8xy2();
                        proof {
                            assert(machine_view(*self, *memory, *display) =~= exec_op(s1, keys, rr).0);
                            assert(exec_op(s1, keys, rr).1 is None);
                        }
                        Ok(())
                    },
                    0x3 => {
                        self.op_8xy3();
                        proof {
                            assert(machine_view(*self, *memory, *display) =~= exec_op(s1, keys, rr).0);
                            assert(exec_op(s1, keys, rr).1 is None);
                        }
                        Ok(())
                    },
                    0x4 => {
                        self.op_8xy4();
                        proof {
                            assert(machine_view(*self, *memory, *display) =~= exec_op(s1, keys, rr).0);
                            assert(exec_op(s1, keys, rr).1 is None);
                        }
                        Ok(())
                    },
                    0x5 => {
                        self.op_8xy5();
                        proof {
                            assert(machine_view(*self, *memory, *display) =~= exec_op(s1, keys, rr).0);
                            assert(exec_op(s1, keys, rr).1 is None);
                        }
                        Ok(())
                    },
                    0x6 => {
                        self.op_8xy6();
                        proof {
                            assert(machine_view(*self, *memory, *display) =~= exec_op(s1, keys, rr).0);
                            assert(exec_op(s1, keys, rr).1 is None);
                        }
                        Ok(())
                    },
                    0x7 => {
                        self.op_8xy7();
                        proof {
                            assert(machine_view(*self, *memory, *display) =~= exec_op(s1, keys, rr).0);
                            assert(exec_op(s1, keys, rr).1 is None);
                        }
                        Ok(())
                    },
                    0xE => {
                        self.op_8xye();
                        proof {
                            assert(machine_view(*self, *memory, *display) =~= exec_op(s1, keys, rr).0);
                            assert(exec_op(s1, keys, rr).1 is None);
                        }
                        Ok(())
                    },
                    _ => {
                        self.no_op();
                        proof {
                            assert(machine_view(*self, *memory, *display) =~= exec_op(s1, keys, rr).0);
                            assert(exec_op(s1, keys, rr).1 is None);
                        }
                        Ok(())
                    },
                }
            },
            0x9 => {
                self.op_9xy0();
                proof {
                    assert(machine_view(*self, *memory, *display) =~= exec_op(s1, keys, rr).0);
                    assert(exec_op(s1, keys, rr).1 is None);
                }
                Ok(())
            },
            0xA => {
                self.op_annn();
                proof {
                    assert(machine_view(*self, *memory, *display) =~= exec_op(s1, keys, rr).0);
                    assert(exec_op(s1, keys, rr).1 is None);
                }
                Ok(())
            },
            0xB => {
                self.op_bnnn();
                proof {
                    assert(machine_view(*self, *memory, *display) =~= exec_op(s1, keys, rr).0);
                    assert(exec_op(s1, keys, rr).1 is None);
                }
                Ok(())
            },
            0xC => {
                let rb = Chip8CPU::random_byte();
                proof {
                    rr = rb;
                }
                self.op_cxnn(rb);
                proof {
                    assert(machine_view(*self, *memory, *display) =~= exec_op(s1, keys, rr).0);
                    assert(exec_op(s1, keys, rr).1 is None);
                }
                Ok(())
            },
            0xD => {
                let res0 = self.op_dxyn(memory, display);
                proof {
                    assert(machine_view(*self, *memory, *display) =~= exec_op(s1, keys, rr).0);
                    assert(err_of(res0) == exec_op(s1, keys, rr).1);
                }
                res0
            },
            0xE => {
                let sub: u16 = self.opcode & 0xF;
                match sub {
                    0xE => {
                        let res0 = self.op_ex9e(input);
                        proof {
                            assert(machine_view(*self, *memory, *display) =~= exec_op(s1, keys, rr).0);
                            assert(err_of(res0) == exec_op(s1, keys, rr).1);
                        }
                        res0
                    },
                    0x1 => {
                        let res0 = self.op_exa1(input);
                        proof {
                            assert(machine_view(*self, *memory, *display) =~= exec_op(s1, keys, rr).0);
                            assert(err_of(res0) == exec_op(s1, keys, rr).1);
                        }
                        res0
                    },
                    _ => {
                        self.no_op();
                        proof {
                            assert(machine_view(*self, *memory, *display) =~= exec_op(s1, keys, rr).0);
                            assert(exec_op(s1, keys, rr).1 is None);
                        }
                        Ok(())
                    },
                }
            },
            _ => {
                let sub: u16 = self.opcode & 0xFF;
                match sub {
                    0x07 => {
                        self.op_fx07();
                        proof {
                            assert(machine_view(*self, *memory, *display) =~= exec_op(s1, keys, rr).0);
                            assert(exec_op(s1, keys, rr).1 is None);
                        }
                        Ok(())
                    },
                    0x0A => {
                        self.op_fx0a(input);
                        proof {
                            assert(machine_view(*self, *memory, *display) =~= exec_op(s1, keys, rr).0);
                            assert(exec_op(s1, keys, rr).1 is None);
                        }
                        Ok(())
                    },
                    0x15 => {
                        self.op_fx15();
                        proof {
                            assert(machine_view(*self, *memory, *display) =~= exec_op(s1, keys, rr).0);
                            assert(exec_op(s1, keys, rr).1 is None);
                        }
                        Ok(())
                    },
                    0x18 => {
                        self.op_fx18();
                        proof {
                            assert(machine_view(*self, *memory, *display) =~= exec_op(s1, keys, rr).0);
                            assert(exec_op(s1, keys, rr).1 is None);
                        }
                        Ok(())
                    },
                    0x1E => {
                        self.op_fx1e();
                        proof {
                            assert(machine_view(*self, *memory, *display) =~= exec_op(s1, keys, rr).0);
                            assert(exec_op(s1, keys, rr).1 is None);
                        }
                        Ok(())
                    },
                    0x29 => {
                        self.op_fx29();
                        proof {
                            assert(machine_view(*self, *memory, *display) =~= exec_op(s1, keys, rr).0);
                            assert(exec_op(s1, keys, rr).1 is None);
                        }
                        Ok(())
                    },
                    0x33 => {
                        let res0 = self.op_fx33(memory);
                        proof {
                            assert(machine_view(*self, *memory, *display) =~= exec_op(s1, keys, rr).0);
                            assert(err_of(res0) == exec_op(s1, keys, rr).1);
                        }
                        res0
                    },
                    0x55 => {
                        let res0 = self.op_fx55(memory);
                        proof {
                            assert(machine_view(*self, *memory, *display) =~= exec_op(s1, keys, rr).0);
                            assert(err_of(res0) == exec_op(s1, keys, rr).1);
                        }
                        res0
                    },
                    0x65 => {
                        let res0 = self.op_fx65(memory);
                        proof {
                            assert(machine_view(*self, *memory, *display) =~= exec_op(s1, keys, rr).0);
                            assert(err_of(res0) == exec_op(s1, keys, rr).1);
                        }
                        res0
                    },
                    _ => {
                        self.no_op();
                        proof {
                            assert(machine_view(*self, *memory, *display) =~= exec_op(s1, keys, rr).0);
                            assert(exec_op(s1, keys, rr).1 is None);
                        }
                        Ok(())
                    },
                }
            },
        };
        let ghost mid = machine_view(*self, *memory, *display);
        match res {
            Err(e) => {
                proof {
                    assert(step(pre, keys, rr).0 == mid);
                    assert(step(pre, keys, rr).1 == Some(e));
                    assert(cycle_matches(pre, mid, keys, rr, res));
                }
                Err(e)
            },
            Ok(()) => {
                // A completed instruction: both timers count down.
                if self.delay_timer > 0 {
                    self.delay_timer = self.delay_timer - 1;
                }
                if self.sound_timer > 0 {
                    self.sound_timer = self.sound_timer - 1;
                }
                proof {
                    assert(machine_view(*self, *memory, *display) =~= (MachineView {
                        cpu: tick_timers(mid.cpu),
                        ..mid
                    }));
                    assert(cycle_matches(
                        pre,
                        machine_view(*self, *memory, *display),
                        keys,
                        rr,
                        res,
                    ));
                }
                Ok(())
            },
        }
    }

    // The instruction handlers. Each one reads its operands out of the
    // already-fetched `self.opcode` and is specified against the decoded
    // fields of the model in `crate::machine`.

    /// An unrecognized sub-opcode: by design a harmless no-op.
    fn no_op(&mut self)
        ensures
            cpu_view(*final(self)) == cpu_view(*old(self)),
    {
    }

    /// 00E0: clear the display.
    fn op_00e0(&self, display: &mut Chip8Display)
        requires
            old(display).wf(),
        ensures
            final(display).wf(),
            final(display).pixels() == crate::display::blank_pixels(),
    {
        display.clear();
    }

    /// 00EE: return from a subroutine; a return past depth 0 is fatal.
    fn op_00ee(&mut self) -> (result: Result<(), Chip8Error>)
        requires
            old(self).wf(),
        ensures
            final(self).wf(),
            ({
                let c = cpu_view(*old(self));
                if c.sp == 0 {
                    result == Err::<(), Chip8Error>(Chip8Error::StackError)
                        && cpu_view(*final(self)) == c
                } else {
                    result == Ok::<(), Chip8Error>(()) && cpu_view(*final(self)) == (CpuView {
                        sp: (c.sp - 1) as u8,
                        pc: c.stack[c.sp - 1],
                        ..c
                    })
                }
            }),
    {
        if self.sp == 0 {
            return Err(Chip8Error::StackError);
        }
        self.sp = self.sp - 1;
        self.pc = self.stack[self.sp as usize];
        Ok(())
    }

    /// 1nnn: jump.
    fn op_1nnn(&mut self)
        requires
            old(self).wf(),
        ensures
            final(self).wf(),
            cpu_view(*final(self)) == (CpuView {
                pc: op_nnn(old(self).opcode),
                ..cpu_view(*old(self))
            }),
    {
        proof {
            lemma_opcode_fields();
        }
        let address: u16 = self.opcode & 0x0FFF;
        self.pc = address;
    }

    /// 2nnn: call; push the address of the next instruction. A call past
    /// depth 16 is fatal.
    fn op_2nnn(&mut self) -> (result: Result<(), Chip8Error>)
        requires
            old(self).wf(),
        ensures
            final(self).wf(),
            ({
                let c = cpu_view(*old(self));
                if c.sp >= 16 {
                    result == Err::<(), Chip8Error>(Chip8Error::StackError)
                        && cpu_view(*final(self)) == c
                } else {
                    result == Ok::<(), Chip8Error>(()) && cpu_view(*final(self)) == (CpuView {
                        stack: c.stack.update(c.sp as int, c.pc),
                        sp: (c.sp + 1) as u8,
                        pc: op_nnn(c.opcode),
                        ..c
                    })
                }
            }),
    {
        proof {
            lemma_opcode_fields();
        }
        if self.sp >= 16 {
            return Err(Chip8Error::StackError);
        }
        self.stack.set(self.sp as usize, self.pc);
        self.sp = self.sp + 1;
        let address: u16 = self.opcode & 0x0FFF;
        self.pc = address;
        Ok(())
    }

    /// 3xnn: skip the next instruction if Vx == nn.
    fn op_3xnn(&mut self)
        requires
            old(self).wf(),
            old(self).pc <= 0xFFFD,
        ensures
            final(self).wf(),
            ({
                let c = cpu_view(*old(self));
                cpu_view(*final(self)) == skipping(c, c.regs[op_x(c.opcode)] == op_nn(c.opcode))
            }),
    {
        proof {
            lemma_opcode_fields();
        }
        let x = ((self.opcode >> 8u16) & 0x0F) as usize;
        let vx = self.index_registers[x];
        let nn = (self.opcode & 0xFF) as u8;
        if vx == nn {
            self.pc = self.pc + 2;
        }
    }

    /// 4xnn: skip the next instruction if Vx != nn.
    fn op_4xnn(&mut self)
        requires
            old(self).wf(),
            old(self).pc <= 0xFFFD,
        ensures
            final(self).wf(),
            ({
                let c = cpu_view(*old(self));
                cpu_view(*final(self)) == skipping(c, c.regs[op_x(c.opcode)] != op_nn(c.opcode))
            }),
    {
        proof {
            lemma_opcode_fields();
        }
        let x = ((self.opcode >> 8u16) & 0x0F) as usize;
        let vx = self.index_registers[x];
        let nn = (self.opcode & 0xFF) as u8;
        if vx != nn {
            self.pc = self.pc + 2;
        }
    }

    /// 5xy0: skip the next instruction if Vx == Vy.
    fn op_5xy0(&mut self)
        requires
            old(self).wf(),
            old(self).pc <= 0xFFFD,
        ensures
            final(self).wf(),
            ({
                let c = cpu_view(*old(self));
                cpu_view(*final(self)) == skipping(
                    c,
                    c.regs[op_x(c.opcode)] == c.regs[op_y(c.opcode)],
                )
            }),
    {
        proof {
            lemma_opcode_fields();
        }
        let x = ((self.opcode >> 8u16) & 0x0F) as usize;
        let y = ((self.opcode >> 4u16) & 0x0F) as usize;
        if self.index_registers[x] == self.index_registers[y] {
            self.pc = self.pc + 2;
        }
    }

    /// 6xnn: set Vx to nn.
    fn op_6xnn(&mut self)
        requires
            old(self).wf(),
        ensures
            final(self).wf(),
            ({
                let c = cpu_view(*old(self));
                cpu_view(*final(self)) == with_reg(c, op_x(c.opcode), op_nn(c.opcode))
            }),
    {
        proof {
            lemma_opcode_fields();
        }
        let x = ((self.opcode >> 8u16) & 0x0F) as usize;
        let nn = (self.opcode & 0xFF) as u8;
        self.index_registers.set(x, nn);
    }

    /// 7xnn: add nn to Vx, wrapping; VF is never touched.
    fn op_7xnn(&mut self)
        requires
            old(self).wf(),
        ensures
            final(self).wf(),
            ({
                let c = cpu_view(*old(self));
                cpu_view(*final(self)) == with_reg(
                    c,
                    op_x(c.opcode),
                    ((c.regs[op_x(c.opcode)] + op_nn(c.opcode)) % 256) as u8,
                )
            }),
    {
        proof {
            lemma_opcode_fields();
        }
        let x = ((self.opcode >> 8u16) & 0x0F) as usize;
        let nn = (self.opcode & 0xFF) as u8;
        let sum: u16 = self.index_registers[x] as u16 + nn as u16;
        self.index_registers.set(x, (sum % 256) as u8);
    }

    /// 8xy0: set Vx to Vy.
    fn op_8xy0(&mut self)
        requires
            old(self).wf(),
        ensures
            final(self).wf(),
            ({
                let c = cpu_view(*old(self));
                cpu_view(*final(self)) == with_reg(c, op_x(c.opcode), c.regs[op_y(c.opcode)])
            }),
    {
        proof {
            lemma_opcode_fields();
        }
        let x = ((self.opcode >> 8u16) & 0x0F) as usize;
        let y = ((self.opcode >> 4u16) & 0x0F) as usize;
        let vy = self.index_registers[y];
        self.index_registers.set(x, vy);
    }

    /// 8xy1: set Vx to Vx OR Vy.
    fn op_8xy1(&mut self)
        requires
            old(self).wf(),
        ensures
            final(self).wf(),
            ({
                let c = cpu_view(*old(self));
                cpu_view(*final(self)) == with_reg(
                    c,
                    op_x(c.opcode),
                    c.regs[op_x(c.opcode)] | c.regs[op_y(c.opcode)],
                )
            }),
    {
        proof {
            lemma_opcode_fields();
        }
        let x = ((self.opcode >> 8u16) & 0x0F) as usize;
        let y = ((self.opcode >> 4u16) & 0x0F) as usize;
        let v = self.index_registers[x] | self.index_registers[y];
        self.index_registers.set(x, v);
    }

    /// 8xy2: set Vx to Vx AND Vy.
    fn op_8xy2(&mut self)
        requires
            old(self).wf(),
        ensures
            final(self).wf(),
            ({
                let c = cpu_view(*old(self));
                cpu_view(*final(self)) == with_reg(
                    c,
                    op_x(c.opcode),
                    c.regs[op_x(c.opcode)] & c.regs[op_y(c.opcode)],
                )
            }),
    {
        proof {
            lemma_opcode_fields();
        }
        let x = ((self.opcode >> 8u16) & 0x0F) as usize;
        let y = ((self.opcode >> 4u16) & 0x0F) as usize;
        let v = self.index_registers[x] & self.index_registers[y];
        self.index_registers.set(x, v);
    }

    /// 8xy3: set Vx to Vx XOR Vy.
    fn op_8xy3(&mut self)
        requires
            old(self).wf(),
        ensures
            final(self).wf(),
            ({
                let c = cpu_view(*old(self));
                cpu_view(*final(self)) == with_reg(
                    c,
                    op_x(c.opcode),
                    c.regs[op_x(c.opcode)] ^ c.regs[op_y(c.opcode)],
                )
            }),
    {
        proof {
            lemma_opcode_fields();
        }
        let x = ((self.opcode >> 8u16) & 0x0F) as usize;
        let y = ((self.opcode >> 4u16) & 0x0F) as usize;
        let v = self.index_registers[x] ^ self.index_registers[y];
        self.index_registers.set(x, v);
    }

    /// 8xy4: Vx += Vy; VF reports the carry out of eight bits, and is
    /// written last even when x is 0xF.
    fn op_8xy4(&mut self)
        requires
            old(self).wf(),
        ensures
            final(self).wf(),
            ({
                let c = cpu_view(*old(self));
                let vx = c.regs[op_x(c.opcode)];
                let vy = c.regs[op_y(c.opcode)];
                cpu_view(*final(self)) == with_reg(
                    with_reg(c, op_x(c.opcode), ((vx + vy) % 256) as u8),
                    0xF,
                    if vx + vy > 255 {
                        1u8
                    } else {
                        0u8
                    },
                )
            }),
    {
        proof {
            lemma_opcode_fields();
        }
        let x = ((self.opcode >> 8u16) & 0x0F) as usize;
        let y = ((self.opcode >> 4u16) & 0x0F) as usize;
        let result: u16 = self.index_registers[x] as u16 + self.index_registers[y] as u16;
        self.index_registers.set(x, (result % 256) as u8);
        let flag: u8 = if result > 255 {
            1
        } else {
            0
        };
        self.index_registers.set(0xF, flag);
    }

    /// 8xy5: Vx -= Vy, wrapping; VF is 1 exactly when there is no borrow
    /// (Vx >= Vy), and is written last.
    fn op_8xy5(&mut self)
        requires
            old(self).wf(),
        ensures
            final(self).wf(),
            ({
                let c = cpu_view(*old(self));
                let vx = c.regs[op_x(c.opcode)];
                let vy = c.regs[op_y(c.opcode)];
                cpu_view(*final(self)) == with_reg(
                    with_reg(c, op_x(c.opcode), wrap_sub(vx, vy)),
                    0xF,
                    if vx >= vy {
                        1u8
                    } else {
                        0u8
                    },
                )
            }),
    {
        proof {
            lemma_opcode_fields();
        }
        let x = ((self.opcode >> 8u16) & 0x0F) as usize;
        let y = ((self.opcode >> 4u16) & 0x0F) as usize;
        let vx = self.index_registers[x];
        let vy = self.index_registers[y];
        let diff: u8 = if vx >= vy {
            vx - vy
        } else {
            ((vx as u16 + 256 - vy as u16) % 256) as u8
        };
        let flag: u8 = if vx >= vy {
            1
        } else {
            0
        };
        self.index_registers.set(x, diff);
        self.index_registers.set(0xF, flag);
    }

    /// 8xy6: shift Vx right by one; VF takes the bit shifted out, last.
    fn op_8xy6(&mut self)
        requires
            old(self).wf(),
        ensures
            final(self).wf(),
            ({
                let c = cpu_view(*old(self));
                let vx = c.regs[op_x(c.opcode)];
                cpu_view(*final(self)) == with_reg(
                    with_reg(c, op_x(c.opcode), vx >> 1u8),
                    0xF,
                    vx & 1,
                )
            }),
    {
        proof {
            lemma_opcode_fields();
        }
        let x = ((self.opcode >> 8u16) & 0x0F) as usize;
        let vx = self.index_registers[x];
        self.index_registers.set(x, vx >> 1u8);
        self.index_registers.set(0xF, vx & 1);
    }

    /// 8xy7: Vx = Vy - Vx, wrapping; VF is 1 exactly when there is no
    /// borrow (Vy >= Vx), and is written last.
    fn op_8xy7(&mut self)
        requires
            old(self).wf(),
        ensures
            final(self).wf(),
            ({
                let c = cpu_view(*old(self));
                let vx = c.regs[op_x(c.opcode)];
                let vy = c.regs[op_y(c.opcode)];
                cpu_view(*final(self)) == with_reg(
                    with_reg(c, op_x(c.opcode), wrap_sub(vy, vx)),
                    0xF,
                    if vy >= vx {
                        1u8
                    } else {
                        0u8
                    },
                )
            }),
    {
        proof {
            lemma_opcode_fields();
        }
        let x = ((self.opcode >> 8u16) & 0x0F) as usize;
        let y = ((self.opcode >> 4u16) & 0x0F) as usize;
        let vx = self.index_registers[x];
        let vy = self.index_registers[y];
        let diff: u8 = if vy >= vx {
            vy - vx
        } else {
            ((vy as u16 + 256 - vx as u16) % 256) as u8
        };
        let flag: u8 = if vy >= vx {
            1
        } else {
            0
        };
        self.index_registers.set(x, diff);
        self.index_registers.set(0xF, flag);
    }

    /// 8xyE: shift Vx left by one; VF takes the bit shifted out, last.
    fn op_8xye(&mut self)
        requires
            old(self).wf(),
        ensures
            final(self).wf(),
            ({
                let c = cpu_view(*old(self));
                let vx = c.regs[op_x(c.opcode)];
                cpu_view(*final(self)) == with_reg(
                    with_reg(c, op_x(c.opcode), vx << 1u8),
                    0xF,
                    (vx & 0x80) >> 7u8,
                )
            }),
    {
        proof {
            lemma_opcode_fields();
        }
        let x = ((self.opcode >> 8u16) & 0x0F) as usize;
        let vx = self.index_registers[x];
        self.index_registers.set(x, vx << 1u8);
        self.index_registers.set(0xF, (vx & 0x80) >> 7u8);
    }

    /// 9xy0: skip the next instruction if Vx != Vy.
    fn op_9xy0(&mut self)
        requires
            old(self).wf(),
            old(self).pc <= 0xFFFD,
        ensures
            final(self).wf(),
            ({
                let c = cpu_view(*old(self));
                cpu_view(*final(self)) == skipping(
                    c,
                    c.regs[op_x(c.opcode)] != c.regs[op_y(c.opcode)],
                )
            }),
    {
        proof {
            lemma_opcode_fields();
        }
        let x = ((self.opcode >> 8u16) & 0x0F) as usize;
        let y = ((self.opcode >> 4u16) & 0x0F) as usize;
        if self.index_registers[x] != self.index_registers[y] {
            self.pc = self.pc + 2;
        }
    }

    /// Annn: set the index register I to nnn.
    fn op_annn(&mut self)
        requires
            old(self).wf(),
        ensures
            final(self).wf(),
            cpu_view(*final(self)) == (CpuView {
                index: op_nnn(old(self).opcode),
                ..cpu_view(*old(self))
            }),
    {
        proof {
            lemma_opcode_fields();
        }
        let nnn: u16 = self.opcode & 0x0FFF;
        self.index = nnn;
    }

    /// Bnnn: jump to nnn plus V0.
    fn op_bnnn(&mut self)
        requires
            old(self).wf(),
        ensures
            final(self).wf(),
            ({
                let c = cpu_view(*old(self));
                cpu_view(*final(self)) == (CpuView {
                    pc: (c.regs[0] + op_nnn(c.opcode)) as u16,
                    ..c
                })
            }),
    {
        proof {
            lemma_opcode_fields();
        }
        let nnn: u16 = self.opcode & 0x0FFF;
        self.pc = self.index_registers[0] as u16 + nnn;
    }

    /// Cxnn: set Vx to a random byte masked by nn. The caller draws the
    /// byte and hands it in, so the handler is exact for whatever came back.
    fn op_cxnn(&mut self, random: u8)
        requires
            old(self).wf(),
        ensures
            final(self).wf(),
            ({
                let c = cpu_view(*old(self));
                cpu_view(*final(self)) == with_reg(c, op_x(c.opcode), random & op_nn(c.opcode))
            }),
    {
        proof {
            lemma_opcode_fields();
        }
        let x = ((self.opcode >> 8u16) & 0x0F) as usize;
        let nn = (self.opcode & 0xFF) as u8;
        self.index_registers.set(x, random & nn);
    }

    /// Dxyn: XOR-blit the n-row sprite at memory[I..] at (Vx, Vy); VF
    /// reports whether any lit pixel was erased. Every covered pixel wraps
    /// around the screen edges. Reading the sprite past memory is fatal.
    fn op_dxyn(&mut self, memory: &Chip8Memory, display: &mut Chip8Display) -> (result: Result<
        (),
        Chip8Error,
    >)
        requires
            old(self).wf(),
            memory.wf(),
            old(display).wf(),
        ensures
            final(self).wf(),
            final(display).wf(),
            ({
                let c = cpu_view(*old(self));
                let n = op_n(c.opcode) as int;
                let i = c.index as int;
                let xp = c.regs[op_x(c.opcode)] as int % 64;
                let yp = c.regs[op_y(c.opcode)] as int % 32;
                if n > 0 && i + n > 4096 {
                    result == Err::<(), Chip8Error>(Chip8Error::BoundsError)
                        && cpu_view(*final(self)) == c
                        && final(display).pixels() == old(display).pixels()
                } else {
                    result == Ok::<(), Chip8Error>(())
                        && cpu_view(*final(self)) == with_reg(
                        c,
                        0xF,
                        if draw_collides(old(display).pixels(), memory.data@, i, xp, yp, n) {
                            1u8
                        } else {
                            0u8
                        },
                    )
                        && final(display).pixels() == draw_pixels(
                        old(display).pixels(),
                        memory.data@,
                        i,
                        xp,
                        yp,
                        n,
                    )
                }
            }),
    {
        proof {
            lemma_opcode_fields();
        }
        let x = ((self.opcode >> 8u16) & 0x0F) as usize;
        let y = ((self.opcode >> 4u16) & 0x0F) as usize;
        let height: u8 = (self.opcode & 0xF) as u8;
        if height > 0 && self.index as usize + height as usize > 4096 {
            return Err(Chip8Error::BoundsError);
        }
        let x_pos: u8 = self.index_registers[x] % 64;
        let y_pos: u8 = self.index_registers[y] % 32;
        let ghost pix0 = display.pixels();
        let ghost m = memory.data@;
        let ghost ii = self.index as int;
        let ghost xp = x_pos as int;
        let ghost yp = y_pos as int;
        let ghost n_rows = height as int;
        proof {
            assert(display.pixels() =~= partial_pixels(pix0, m, ii, xp, yp, 0, 0));
        }
        let mut vf: u8 = 0;
        let mut i_y: u8 = 0;
        while i_y < height
            invariant
                self.wf(),
                memory.wf(),
                display.wf(),
                cpu_view(*self) == cpu_view(*old(self)),
                i_y <= height,
                height as int == n_rows,
                n_rows == op_n(self.opcode) as int,
                n_rows <= 15,
                ii == self.index as int,
                0 <= xp < 64,
                0 <= yp < 32,
                n_rows > 0 ==> ii + n_rows <= 4096,
                m == memory.data@,
                pix0.len() == 2048,
                x_pos as int == xp,
                y_pos as int == yp,
                display.pixels() == partial_pixels(pix0, m, ii, xp, yp, i_y as int, 0),
                (vf == 1 <==> partial_collides(pix0, m, ii, xp, yp, i_y as int, 0)),
                vf == 0 || vf == 1,
            decreases height - i_y,
        {
            let pixels_row: u8 = memory.data[self.index as usize + i_y as usize];
            let mut i_x: u8 = 0;
            while i_x < 8
                invariant
                    self.wf(),
                    memory.wf(),
                    display.wf(),
                    cpu_view(*self) == cpu_view(*old(self)),
                    i_x <= 8,
                    i_y < height,
                    height as int == n_rows,
                    n_rows <= 15,
                    n_rows > 0 ==> ii + n_rows <= 4096,
                    ii == self.index as int,
                    0 <= xp < 64,
                    0 <= yp < 32,
                    m == memory.data@,
                    pix0.len() == 2048,
                    pixels_row == m[ii + i_y],
                    x_pos as int == xp,
                    y_pos as int == yp,
                    display.pixels() == partial_pixels(pix0, m, ii, xp, yp, i_y as int, i_x as int),
                    (vf == 1 <==> partial_collides(pix0, m, ii, xp, yp, i_y as int, i_x as int)),
                    vf == 0 || vf == 1,
                decreases 8 - i_x,
            {
                let ghost r = i_y as int;
                let ghost cc = i_x as int;
                let ghost t = sprite_target(xp, yp, r, cc);
                let ghost pix_before = display.pixels();
                let ghost vf_before = vf;
                let pixel_state: u8 = if (pixels_row >> (7 - i_x)) & 1 == 0 {
                    0x00
                } else {
                    0xFF
                };
                proof {
                    lemma_byte_low_bit();
                    lemma_sprite_target_inverse(xp, yp, r, cc);
                    assert(!partial_covers(xp, yp, r, cc, t));
                    assert(pix_before[t] == pix0[t]);
                    assert((pixel_state != 0) == sprite_pixel(m[ii + r], cc));
                }
                let flipped = display.xor_pixel(x_pos + i_x, y_pos + i_y, pixel_state);
                if flipped {
                    vf = 1;
                }
                proof {
                    assert(display.pixels() == pix_before.update(
                        t,
                        pix_before[t] != sprite_pixel(m[ii + r], cc),
                    ));
                    assert forall|idx: int| 0 <= idx < 2048 implies display.pixels()[idx]
                        == partial_pixels(pix0, m, ii, xp, yp, r, cc + 1)[idx] by {
                        if idx != t && sprite_row_of(yp, idx) == r && sprite_col_of(xp, idx)
                            == cc {
                            lemma_sprite_target_unique(xp, yp, r, cc, idx);
                        }
                    }
                    assert(display.pixels() =~= partial_pixels(pix0, m, ii, xp, yp, r, cc + 1));
                    // The collision flag keeps pace: the new cell adds its
                    // own collision, every older cell keeps its answer.
                    if vf == 1 {
                        if vf_before == 1 {
                            let (r0, c0) = choose|r0: int, c0: int|
                                ((0 <= r0 < r && 0 <= c0 < 8) || (r0 == r && 0 <= c0 < cc))
                                    && #[trigger] pix0[sprite_target(xp, yp, r0, c0)]
                                    && sprite_pixel(m[ii + r0], c0);
                            assert(pix0[sprite_target(xp, yp, r0, c0)] && sprite_pixel(
                                m[ii + r0],
                                c0,
                            ));
                            assert(partial_collides(pix0, m, ii, xp, yp, r, cc + 1));
                        } else {
                            assert(pix0[sprite_target(xp, yp, r, cc)] && sprite_pixel(
                                m[ii + r],
                                cc,
                            ));
                            assert(partial_collides(pix0, m, ii, xp, yp, r, cc + 1));
                        }
                    }
                    if partial_collides(pix0, m, ii, xp, yp, r, cc + 1) {
                        let (r0, c0) = choose|r0: int, c0: int|
                            ((0 <= r0 < r && 0 <= c0 < 8) || (r0 == r && 0 <= c0 < cc + 1))
                                && #[trigger] pix0[sprite_target(xp, yp, r0, c0)] && sprite_pixel(
                                m[ii + r0],
                                c0,
                            );
                        if r0 == r && c0 == cc {
                            assert(vf == 1);
                        } else {
                            assert((0 <= r0 < r && 0 <= c0 < 8) || (r0 == r && 0 <= c0 < cc));
                            assert(partial_collides(pix0, m, ii, xp, yp, r, cc));
                            assert(vf == 1);
                        }
                    }
                }
                i_x = i_x + 1;
            }
            proof {
                let r = i_y as int;
                assert(partial_pixels(pix0, m, ii, xp, yp, r, 8) =~= partial_pixels(
                    pix0,
                    m,
                    ii,
                    xp,
                    yp,
                    r + 1,
                    0,
                ));
                if partial_collides(pix0, m, ii, xp, yp, r, 8) {
                    let (r0, c0) = choose|r0: int, c0: int|
                        ((0 <= r0 < r && 0 <= c0 < 8) || (r0 == r && 0 <= c0 < 8))
                            && #[trigger] pix0[sprite_target(xp, yp, r0, c0)] && sprite_pixel(
                            m[ii + r0],
                            c0,
                        );
                    assert(0 <= r0 < r + 1 && 0 <= c0 < 8);
                    assert(partial_collides(pix0, m, ii, xp, yp, r + 1, 0));
                }
                if partial_collides(pix0, m, ii, xp, yp, r + 1, 0) {
                    let (r0, c0) = choose|r0: int, c0: int|
                        ((0 <= r0 < r + 1 && 0 <= c0 < 8) || (r0 == r + 1 && 0 <= c0 < 0))
                            && #[trigger] pix0[sprite_target(xp, yp, r0, c0)] && sprite_pixel(
                            m[ii + r0],
                            c0,
                        );
                    assert(partial_collides(pix0, m, ii, xp, yp, r, 8));
                }
            }
            i_y = i_y + 1;
        }
        self.index_registers.set(0xF, vf);
        proof {
            assert(display.pixels() =~= draw_pixels(pix0, m, ii, xp, yp, n_rows));
            if partial_collides(pix0, m, ii, xp, yp, n_rows, 0) {
                let (r0, c0) = choose|r0: int, c0: int|
                    ((0 <= r0 < n_rows && 0 <= c0 < 8) || (r0 == n_rows && 0 <= c0 < 0))
                        && #[trigger] pix0[sprite_target(xp, yp, r0, c0)] && sprite_pixel(
                        m[ii + r0],
                        c0,
                    );
                assert(draw_collides(pix0, m, ii, xp, yp, n_rows));
            }
            if draw_collides(pix0, m, ii, xp, yp, n_rows) {
                let (r0, c0) = choose|r0: int, c0: int|
                    0 <= r0 < n_rows && 0 <= c0 < 8 && #[trigger] pix0[sprite_target(
                        xp,
                        yp,
                        r0,
                        c0,
                    )] && sprite_pixel(m[ii + r0], c0);
                assert(partial_collides(pix0, m, ii, xp, yp, n_rows, 0));
            }
            assert(cpu_view(*self) =~= with_reg(
                cpu_view(*old(self)),
                0xF,
                if draw_collides(pix0, m, ii, xp, yp, n_rows) {
                    1u8
                } else {
                    0u8
                },
            ));
        }
        Ok(())
    }

    /// Ex9E: skip the next instruction if the key numbered by Vx is
    /// pressed; a key number past the keypad is fatal.
    fn op_ex9e(&mut self, input: &Chip8Input) -> (result: Result<(), Chip8Error>)
        requires
            old(self).wf(),
            input.wf(),
            old(self).pc <= 0xFFFD,
        ensures
            final(self).wf(),
            ({
                let c = cpu_view(*old(self));
                let vx = c.regs[op_x(c.opcode)];
                if vx >= 16 {
                    result == Err::<(), Chip8Error>(Chip8Error::BoundsError)
                        && cpu_view(*final(self)) == c
                } else {
                    result == Ok::<(), Chip8Error>(()) && cpu_view(*final(self)) == skipping(
                        c,
                        input.keys@[vx as int],
                    )
                }
            }),
    {
        proof {
            lemma_opcode_fields();
        }
        let x = ((self.opcode >> 8u16) & 0x0F) as usize;
        let vx = self.index_registers[x];
        if vx >= 16 {
            return Err(Chip8Error::BoundsError);
        }
        if input.is_pressed(vx) {
            self.pc = self.pc + 2;
        }
        Ok(())
    }

    /// ExA1: skip the next instruction if the key numbered by Vx is not
    /// pressed; a key number past the keypad is fatal.
    fn op_exa1(&mut self, input: &Chip8Input) -> (result: Result<(), Chip8Error>)
        requires
            old(self).wf(),
            input.wf(),
            old(self).pc <= 0xFFFD,
        ensures
            final(self).wf(),
            ({
                let c = cpu_view(*old(self));
                let vx = c.regs[op_x(c.opcode)];
                if vx >= 16 {
                    result == Err::<(), Chip8Error>(Chip8Error::BoundsError)
                        && cpu_view(*final(self)) == c
                } else {
                    result == Ok::<(), Chip8Error>(()) && cpu_view(*final(self)) == skipping(
                        c,
                        !input.keys@[vx as int],
                    )
                }
            }),
    {
        proof {
            lemma_opcode_fields();
        }
        let x = ((self.opcode >> 8u16) & 0x0F) as usize;
        let vx = self.index_registers[x];
        if vx >= 16 {
            return Err(Chip8Error::BoundsError);
        }
        if !input.is_pressed(vx) {
            self.pc = self.pc + 2;
        }
        Ok(())
    }

    /// Fx07: set Vx to the delay timer.
    fn op_fx07(&mut self)
        requires
            old(self).wf(),
        ensures
            final(self).wf(),
            ({
                let c = cpu_view(*old(self));
                cpu_view(*final(self)) == with_reg(c, op_x(c.opcode), c.delay)
            }),
    {
        proof {
            lemma_opcode_fields();
        }
        let x = ((self.opcode >> 8u16) & 0x0F) as usize;
        let d = self.delay_timer;
        self.index_registers.set(x, d);
    }

    /// Fx0A: await a key press. With no key down, rewind the program
    /// counter over this instruction so it retries next cycle; otherwise
    /// store the lowest pressed key in Vx.
    fn op_fx0a(&mut self, input: &Chip8Input)
        requires
            old(self).wf(),
            input.wf(),
            old(self).pc >= 2,
        ensures
            final(self).wf(),
            ({
                let c = cpu_view(*old(self));
                cpu_view(*final(self)) == (match first_pressed(input.keys@) {
                    Some(k) => with_reg(c, op_x(c.opcode), k),
                    None => CpuView { pc: (c.pc - 2) as u16, ..c },
                })
            }),
    {
        proof {
            lemma_opcode_fields();
        }
        let x = ((self.opcode >> 8u16) & 0x0F) as usize;
        match input.any_pressed() {
            Some(k) => {
                self.index_registers.set(x, k);
            },
            None => {
                self.pc = self.pc - 2;
            },
        }
    }

    /// Fx15: set the delay timer to Vx.
    fn op_fx15(&mut self)
        requires
            old(self).wf(),
        ensures
            final(self).wf(),
            ({
                let c = cpu_view(*old(self));
                cpu_view(*final(self)) == (CpuView { delay: c.regs[op_x(c.opcode)], ..c })
            }),
    {
        proof {
            lemma_opcode_fields();
        }
        let x = ((self.opcode >> 8u16) & 0x0F) as usize;
        self.delay_timer = self.index_registers[x];
    }

    /// Fx18: set the sound timer to Vx.
    fn op_fx18(&mut self)
        requires
            old(self).wf(),
        ensures
            final(self).wf(),
            ({
                let c = cpu_view(*old(self));
                cpu_view(*final(self)) == (CpuView { sound: c.regs[op_x(c.opcode)], ..c })
            }),
    {
        proof {
            lemma_opcode_fields();
        }
        let x = ((self.opcode >> 8u16) & 0x0F) as usize;
        self.sound_timer = self.index_registers[x];
    }

    /// Fx1E: add Vx to I, wrapping at sixteen bits; no flag is set.
    fn op_fx1e(&mut self)
        requires
            old(self).wf(),
        ensures
            final(self).wf(),
            ({
                let c = cpu_view(*old(self));
                cpu_view(*final(self)) == (CpuView {
                    index: ((c.index + c.regs[op_x(c.opcode)]) % 0x10000) as u16,
                    ..c
                })
            }),
    {
        proof {
            lemma_opcode_fields();
        }
        let x = ((self.opcode >> 8u16) & 0x0F) as usize;
        let sum: u32 = self.index as u32 + self.index_registers[x] as u32;
        self.index = (sum % 0x10000) as u16;
    }

    /// Fx29: point I at the built-in font glyph for the digit in Vx.
    fn op_fx29(&mut self)
        requires
            old(self).wf(),
        ensures
            final(self).wf(),
            ({
                let c = cpu_view(*old(self));
                cpu_view(*final(self)) == (CpuView {
                    index: (0x50 + c.regs[op_x(c.opcode)] * 5) as u16,
                    ..c
                })
            }),
    {
        proof {
            lemma_opcode_fields();
        }
        let x = ((self.opcode >> 8u16) & 0x0F) as usize;
        self.index = Chip8Memory::FONTSET_START_ADRESS as u16 + self.index_registers[x] as u16 * 5;
    }

    /// Fx33: store the three decimal digits of Vx at memory[I..I+3),
    /// hundreds first; an address past memory is fatal.
    fn op_fx33(&self, memory: &mut Chip8Memory) -> (result: Result<(), Chip8Error>)
        requires
            self.wf(),
            old(memory).wf(),
        ensures
            final(memory).wf(),
            ({
                let c = cpu_view(*self);
                let vx = c.regs[op_x(c.opcode)];
                if c.index + 2 > 4095 {
                    result == Err::<(), Chip8Error>(Chip8Error::BoundsError)
                        && final(memory).data@ == old(memory).data@
                } else {
                    result == Ok::<(), Chip8Error>(())
                        && final(memory).data@ == old(memory).data@.update(c.index as int, (vx / 100) as u8).update(
                        c.index as int + 1,
                        ((vx / 10) % 10) as u8,
                    ).update(c.index as int + 2, (vx % 10) as u8)
                }
            }),
    {
        proof {
            lemma_opcode_fields();
        }
        let x = ((self.opcode >> 8u16) & 0x0F) as usize;
        let vx = self.index_registers[x];
        if self.index as usize + 2 > 4095 {
            return Err(Chip8Error::BoundsError);
        }
        let i = self.index as usize;
        memory.data.set(i, vx / 100);
        memory.data.set(i + 1, (vx / 10) % 10);
        memory.data.set(i + 2, vx % 10);
        Ok(())
    }

    /// Fx55: store V0..Vx inclusive at memory[I..]; I itself is unchanged.
    /// An address past memory is fatal.
    fn op_fx55(&self, memory: &mut Chip8Memory) -> (result: Result<(), Chip8Error>)
        requires
            self.wf(),
            old(memory).wf(),
        ensures
            final(memory).wf(),
            ({
                let c = cpu_view(*self);
                let x = op_x(c.opcode);
                if c.index + x > 4095 {
                    result == Err::<(), Chip8Error>(Chip8Error::BoundsError)
                        && final(memory).data@ == old(memory).data@
                } else {
                    result == Ok::<(), Chip8Error>(()) && final(memory).data@ == store_regs(
                        old(memory).data@,
                        c.regs,
                        c.index as int,
                        x,
                    )
                }
            }),
    {
        proof {
            lemma_opcode_fields();
        }
        let x = ((self.opcode >> 8u16) & 0x0F) as usize;
        if self.index as usize + x > 4095 {
            return Err(Chip8Error::BoundsError);
        }
        let i = self.index as usize;
        let mut j: usize = 0;
        while j <= x
            invariant
                self.wf(),
                memory.wf(),
                x < 16,
                i + x <= 4095,
                i == self.index as usize,
                x == op_x(self.opcode),
                j <= x + 1,
                forall|a: int|
                    i <= a < i + j ==> #[trigger] memory.data@[a] == self.index_registers@[a - i],
                forall|a: int|
                    0 <= a < 4096 && !(i <= a < i + j) ==> #[trigger] memory.data@[a]
                        == old(memory).data@[a],
            decreases x + 1 - j,
        {
            let v = self.index_registers[j];
            memory.data.set(i + j, v);
            j = j + 1;
        }
        proof {
            assert(memory.data@ =~= store_regs(
                old(memory).data@,
                cpu_view(*self).regs,
                self.index as int,
                op_x(self.opcode),
            ));
        }
        Ok(())
    }

    /// Fx65: load V0..Vx inclusive from memory[I..]; I itself is unchanged.
    /// An address past memory is fatal.
    fn op_fx65(&mut self, memory: &Chip8Memory) -> (result: Result<(), Chip8Error>)
        requires
            old(self).wf(),
            memory.wf(),
        ensures
            final(self).wf(),
            ({
                let c = cpu_view(*old(self));
                let x = op_x(c.opcode);
                if c.index + x > 4095 {
                    result == Err::<(), Chip8Error>(Chip8Error::BoundsError)
                        && cpu_view(*final(self)) == c
                } else {
                    result == Ok::<(), Chip8Error>(()) && cpu_view(*final(self)) == (CpuView {
                        regs: load_regs(c.regs, memory.data@, c.index as int, x),
                        ..c
                    })
                }
            }),
    {
        proof {
            lemma_opcode_fields();
        }
        let x = ((self.opcode >> 8u16) & 0x0F) as usize;
        if self.index as usize + x > 4095 {
            return Err(Chip8Error::BoundsError);
        }
        let i = self.index as usize;
        let mut j: usize = 0;
        while j <= x
            invariant
                self.wf(),
                memory.wf(),
                x < 16,
                i + x <= 4095,
                i == self.index as usize,
                x == op_x(self.opcode),
                self.index == old(self).index,
                self.opcode == old(self).opcode,
                self.pc == old(self).pc,
                self.sp == old(self).sp,
                self.delay_timer == old(self).delay_timer,
                self.sound_timer == old(self).sound_timer,
                self.stack@ == old(self).stack@,
                j <= x + 1,
                forall|t: int|
                    0 <= t < j ==> #[trigger] self.index_registers@[t] == memory.data@[i + t],
                forall|t: int|
                    j <= t < 16 ==> #[trigger] self.index_registers@[t]
                        == old(self).index_registers@[t],
            decreases x + 1 - j,
    {
            let v = memory.data[i + j];
            self.index_registers.set(j, v);
            j = j + 1;
        }
        proof {
            assert(cpu_view(*self) =~= (CpuView {
                regs: load_regs(
                    cpu_view(*old(self)).regs,
                    memory.data@,
                    old(self).index as int,
                    op_x(old(self).opcode),
                ),
                ..cpu_view(*old(self))
            }));
        }
        Ok(())
    }
}

} // verus!
