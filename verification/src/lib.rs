//! A CHIP-8 virtual machine: 4KB of memory pre-loaded with a font table, a
//! 64x32 monochrome framebuffer, sixteen 8-bit registers, a 16-slot call
//! stack, two countdown timers, and a fetch/decode/execute interpreter for
//! the 35-instruction set.
//!
//! The interpreter's behaviour is stated by the spec function
//! [`machine::step`], a mathematical transcription of the instruction table;
//! [`cpu::Chip8CPU::cycle`] is proved to implement it.

use vstd::prelude::*;

pub mod cpu;
pub mod display;
pub mod input;
pub mod laws;
pub mod machine;
pub mod memory;

use crate::cpu::{cpu_view, machine_view, Chip8CPU};
use crate::display::{blank_pixels, Chip8Display};
use crate::input::Chip8Input;
use crate::machine::{cycle_matches, initial_cpu, MachineView};
use crate::memory::{initial_memory, memory_with_rom, Chip8Memory};

verus! {

/// Fatal and load-time error conditions surfaced to the host.
///
/// Unrecognized sub-opcodes are not errors: they execute as no-ops.
#[derive(Clone, Copy, Debug, PartialEq, Eq, Structural)]
pub enum Chip8Error {
    /// A memory address outside [0, 4095] was about to be read or written.
    BoundsError,
    /// A call past stack depth 16, or a return with an empty stack.
    StackError,
    /// A ROM larger than the program region was handed to the loader.
    ResourceError,
}

/// A whole emulator instance: CPU, memory, display surface, and keypad.
///
/// The host drives it by loading a ROM once and then calling [`Chip8::update`]
/// repeatedly; between updates it renders the display buffer, feeds key
/// events into `chip8_input`, and sounds a tone while the sound timer is
/// above zero.
pub struct Chip8 {
    pub chip8_cpu: Chip8CPU,
    pub chip8_memory: Chip8Memory,
    pub chip8_display: Chip8Display,
    pub chip8_input: Chip8Input,
}

impl Chip8 {
    pub open spec fn wf(&self) -> bool {
        &&& self.chip8_cpu.wf()
        &&& self.chip8_memory.wf()
        &&& self.chip8_display.wf()
        &&& self.chip8_input.wf()
    }

    /// The whole machine as the model sees it.
    pub open spec fn machine(&self) -> MachineView {
        machine_view(self.chip8_cpu, self.chip8_memory, self.chip8_display)
    }

    /// A freshly powered-up machine: zeroed CPU at 0x200, memory holding
    /// only the font table, a dark screen, and no key pressed.
    pub fn new() -> (c8: Chip8)
        ensures
            c8.wf(),
            c8.machine() == (MachineView {
                cpu: initial_cpu(),
                mem: initial_memory(),
                pixels: blank_pixels(),
            }),
            forall|k: int| 0 <= k < 16 ==> !(#[trigger] c8.chip8_input.keys@[k]),
    {
        let c8 = Chip8 {
            chip8_cpu: Chip8CPU::new(),
            chip8_memory: Chip8Memory::new(),
            chip8_display: Chip8Display::new(),
            chip8_input: Chip8Input::new(),
        };
        proof {
            assert(c8.machine() =~= (MachineView {
                cpu: initial_cpu(),
                mem: initial_memory(),
                pixels: blank_pixels(),
            }));
        }
        c8
    }

    /// Copy a ROM into the program region at 0x200. A ROM over 3584 bytes
    /// is refused whole and nothing changes.
    pub fn load_rom(&mut self, rom: &Vec<u8>) -> (result: Result<(), Chip8Error>)
        requires
            old(self).wf(),
        ensures
            final(self).wf(),
            final(self).chip8_input.keys@ == old(self).chip8_input.keys@,
            rom@.len() <= 3584 ==> result == Result::<(), Chip8Error>::Ok(())
                && final(self).machine() == (MachineView {
                mem: memory_with_rom(old(self).machine().mem, rom@),
                ..old(self).machine()
            }),
            rom@.len() > 3584 ==> result == Result::<(), Chip8Error>::Err(
                Chip8Error::ResourceError,
            ) && final(self).machine() == old(self).machine(),
    {
        let result = self.chip8_memory.load_rom(rom);
        proof {
            if rom@.len() <= 3584 {
                assert(self.machine() =~= (MachineView {
                    mem: memory_with_rom(old(self).machine().mem, rom@),
                    ..old(self).machine()
                }));
            } else {
                assert(self.machine() =~= old(self).machine());
            }
        }
        result
    }

    /// Run one interpreter cycle against the current key state.
    pub fn update(&mut self) -> (result: Result<(), Chip8Error>)
        requires
            old(self).wf(),
        ensures
            final(self).wf(),
            final(self).chip8_input.keys@ == old(self).chip8_input.keys@,
            exists|r: u8|
                cycle_matches(
                    old(self).machine(),
                    final(self).machine(),
                    old(self).chip8_input.keys@,
                    r,
                    result,
                ),
    {
        let result = self.chip8_cpu.cycle(
            &mut self.chip8_memory,
            &mut self.chip8_display,
            &self.chip8_input,
        );
        proof {
            let r = choose|r: u8|
                cycle_matches(
                    machine_view(
                        old(self).chip8_cpu,
                        old(self).chip8_memory,
                        old(self).chip8_display,
                    ),
                    machine_view(self.chip8_cpu, self.chip8_memory, self.chip8_display),
                    old(self).chip8_input.keys@,
                    r,
                    result,
                );
            assert(cycle_matches(
                old(self).machine(),
                self.machine(),
                old(self).chip8_input.keys@,
                r,
                result,
            ));
        }
        result
    }

    /// Toggle an 8x8 pixel block in the display's top-left corner: a host
    /// smoke test that exercises the XOR rule without running a ROM.
    pub fn test(&mut self)
        requires
            old(self).wf(),
        ensures
            final(self).wf(),
            cpu_view(final(self).chip8_cpu) == cpu_view(old(self).chip8_cpu),
            final(self).chip8_memory.data@ == old(self).chip8_memory.data@,
            final(self).chip8_input.keys@ == old(self).chip8_input.keys@,
            forall|idx: int|
                0 <= idx < 2048 ==> final(self).chip8_display.pixels()[idx] == (if idx % 64 < 8
                    && idx / 64 < 8 {
                    !old(self).chip8_display.pixels()[idx]
                } else {
                    old(self).chip8_display.pixels()[idx]
                }),
    {
        let ghost pix0 = self.chip8_display.pixels();
        let width: u8 = 8;
        let height: u8 = 8;
        let mut i_y: u8 = 0;
        while i_y < height
            invariant
                old(self).wf(),
                self.chip8_cpu == old(self).chip8_cpu,
                self.chip8_memory == old(self).chip8_memory,
                self.chip8_input == old(self).chip8_input,
                self.chip8_display.wf(),
                height == 8,
                width == 8,
                i_y <= 8,
                pix0 == old(self).chip8_display.pixels(),
                pix0.len() == 2048,
                forall|idx: int|
                    0 <= idx < 2048 ==> self.chip8_display.pixels()[idx] == (if idx % 64 < 8
                        && idx / 64 < i_y as int {
                        !pix0[idx]
                    } else {
                        pix0[idx]
                    }),
            decreases 8 - i_y,
        {
            let mut i_x: u8 = 0;
            while i_x < width
                invariant
                    old(self).wf(),
                    self.chip8_cpu == old(self).chip8_cpu,
                    self.chip8_memory == old(self).chip8_memory,
                    self.chip8_input == old(self).chip8_input,
                    self.chip8_display.wf(),
                    width == 8,
                    i_y < 8,
                    i_x <= 8,
                    pix0 == old(self).chip8_display.pixels(),
                    pix0.len() == 2048,
                    forall|idx: int|
                        0 <= idx < 2048 ==> self.chip8_display.pixels()[idx] == (if idx % 64 < 8
                            && (idx / 64 < i_y as int || (idx / 64 == i_y as int && idx % 64
                                < i_x as int)) {
                            !pix0[idx]
                        } else {
                            pix0[idx]
                        }),
                decreases 8 - i_x,
            {
                let ghost before = self.chip8_display.pixels();
                let ghost t = i_y as int * 64 + i_x as int;
                let _ = self.chip8_display.xor_pixel(i_x, i_y, 0xFF);
                proof {
                    vstd::arithmetic::div_mod::lemma_fundamental_div_mod_converse_div(
                        t,
                        64,
                        i_y as int,
                        i_x as int,
                    );
                    vstd::arithmetic::div_mod::lemma_fundamental_div_mod_converse_mod(
                        t,
                        64,
                        i_y as int,
                        i_x as int,
                    );
                    vstd::arithmetic::div_mod::lemma_small_mod(i_y as nat, 32);
                    vstd::arithmetic::div_mod::lemma_small_mod(i_x as nat, 64);
                    assert(crate::display::pixel_index(i_x as int, i_y as int) == t);
                    assert forall|idx: int|
                        0 <= idx < 2048 implies self.chip8_display.pixels()[idx] == (if idx % 64
                        < 8 && (idx / 64 < i_y as int || (idx / 64 == i_y as int && idx % 64
                        < i_x as int + 1)) {
                        !pix0[idx]
                    } else {
                        pix0[idx]
                    }) by {
                        if idx != t {
                            vstd::arithmetic::div_mod::lemma_fundamental_div_mod(idx, 64);
                        }
                    }
                }
                i_x = i_x + 1;
            }
            i_y = i_y + 1;
        }
    }
}

} // verus!
