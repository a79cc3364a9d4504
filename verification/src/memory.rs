//! The 4096-byte address space, pre-loaded with the built-in font table.
//!
//! Addresses [0x50, 0xA0) hold sixteen 4x5-pixel glyph sprites, one per
//! hexadecimal digit, written once at construction. A ROM is copied into the
//! program region starting at 0x200.

use vstd::prelude::*;

use crate::Chip8Error;

verus! {

/// The five sprite rows of the built-in glyph for hexadecimal digit `d`.
pub open spec fn font_glyph(d: int) -> Seq<u8> {
    if d == 0 {
        seq![0xF0u8, 0x90, 0x90, 0x90, 0xF0]
    } else if d == 1 {
        seq![0x20u8, 0x60, 0x20, 0x20, 0x70]
    } else if d == 2 {
        seq![0xF0u8, 0x10, 0xF0, 0x80, 0xF0]
    } else if d == 3 {
        seq![0xF0u8, 0x10, 0xF0, 0x10, 0xF0]
    } else if d == 4 {
        seq![0x90u8, 0x90, 0xF0, 0x10, 0x10]
    } else if d == 5 {
        seq![0xF0u8, 0x80, 0xF0, 0x10, 0xF0]
    } else if d == 6 {
        seq![0xF0u8, 0x80, 0xF0, 0x90, 0xF0]
    } else if d == 7 {
        seq![0xF0u8, 0x10, 0x20, 0x40, 0x40]
    } else if d == 8 {
        seq![0xF0u8, 0x90, 0xF0, 0x90, 0xF0]
    } else if d == 9 {
        seq![0xF0u8, 0x90, 0xF0, 0x10, 0xF0]
    } else if d == 10 {
        seq![0xF0u8, 0x90, 0xF0, 0x90, 0x90]
    } else if d == 11 {
        seq![0xE0u8, 0x90, 0xE0, 0x90, 0xE0]
    } else if d == 12 {
        seq![0xF0u8, 0x80, 0x80, 0x80, 0xF0]
    } else if d == 13 {
        seq![0xE0u8, 0x90, 0x90, 0x90, 0xE0]
    } else if d == 14 {
        seq![0xF0u8, 0x80, 0xF0, 0x80, 0xF0]
    } else {
        seq![0xF0u8, 0x80, 0xF0, 0x80, 0x80]
    }
}

/// The 80-byte font table: glyph `d` occupies bytes [5 * d, 5 * d + 5).
pub open spec fn font_table() -> Seq<u8> {
    Seq::new(80, |i: int| font_glyph(i / 5)[i % 5])
}

/// Memory as the machine starts: all zero but for the font table at 0x50.
pub open spec fn initial_memory() -> Seq<u8> {
    Seq::new(4096, |i: int| if 0x50 <= i < 0xA0 { font_table()[i - 0x50] } else { 0u8 })
}

/// Memory after a ROM of `rom` bytes is copied in at 0x200.
pub open spec fn memory_with_rom(mem: Seq<u8>, rom: Seq<u8>) -> Seq<u8> {
    Seq::new(4096, |i: int| if 0x200 <= i < 0x200 + rom.len() { rom[i - 0x200] } else { mem[i] })
}

/// The CHIP-8 address space: 4096 byte cells.
pub struct Chip8Memory {
    pub data: Vec<u8>,
}

impl Chip8Memory {
    pub const MEMORY_SIZE: usize = 4096;

    pub const FONTSET_START_ADRESS: u32 = 0x50;

    pub const FONTSET_SIZE: u32 = 80;

    pub const START_ADRESS: u32 = 0x200;

    pub open spec fn wf(&self) -> bool {
        self.data@.len() == 4096
    }

    /// A zeroed address space with the font table written at 0x50.
    #[verifier::rlimit(100)]
    pub fn new() -> (m: Chip8Memory)
        ensures
            m.wf(),
            m.data@ == initial_memory(),
    {
        let mut data: Vec<u8> = Vec::new();
        let mut i: usize = 0;
        while i < 4096
            invariant
                i <= 4096,
                data@.len() == i,
                forall|j: int| 0 <= j < i ==> #[trigger] data@[j] == 0x00u8,
            decreases 4096 - i,
        {
            data.push(0x00);
            i = i + 1;
        }
        // glyph 0
        data.set(0x50 + 0, 0xF0);
        data.set(0x50 + 1, 0x90);
        data.set(0x50 + 2, 0x90);
        data.set(0x50 + 3, 0x90);
        data.set(0x50 + 4, 0xF0);
        // glyph 1
        data.set(0x50 + 5, 0x20);
        data.set(0x50 + 6, 0x60);
        data.set(0x50 + 7, 0x20);
        data.set(0x50 + 8, 0x20);
        data.set(0x50 + 9, 0x70);
        // glyph 2
        data.set(0x50 + 10, 0xF0);
        data.set(0x50 + 11, 0x10);
        data.set(0x50 + 12, 0xF0);
        data.set(0x50 + 13, 0x80);
        data.set(0x50 + 14, 0xF0);
        // glyph 3
        data.set(0x50 + 15, 0xF0);
        data.set(0x50 + 16, 0x10);
        data.set(0x50 + 17, 0xF0);
        data.set(0x50 + 18, 0x10);
        data.set(0x50 + 19, 0xF0);
        // glyph 4
        data.set(0x50 + 20, 0x90);
        data.set(0x50 + 21, 0x90);
        data.set(0x50 + 22, 0xF0);
        data.set(0x50 + 23, 0x10);
        data.set(0x50 + 24, 0x10);
        // glyph 5
        data.set(0x50 + 25, 0xF0);
        data.set(0x50 + 26, 0x80);
        data.set(0x50 + 27, 0xF0);
        data.set(0x50 + 28, 0x10);
        data.set(0x50 + 29, 0xF0);
        // glyph 6
        data.set(0x50 + 30, 0xF0);
        data.set(0x50 + 31, 0x80);
        data.set(0x50 + 32, 0xF0);
        data.set(0x50 + 33, 0x90);
        data.set(0x50 + 34, 0xF0);
        // glyph 7
        data.set(0x50 + 35, 0xF0);
        data.set(0x50 + 36, 0x10);
        data.set(0x50 + 37, 0x20);
        data.set(0x50 + 38, 0x40);
        data.set(0x50 + 39, 0x40);
        // glyph 8
        data.set(0x50 + 40, 0xF0);
        data.set(0x50 + 41, 0x90);
        data.set(0x50 + 42, 0xF0);
        data.set(0x50 + 43, 0x90);
        data.set(0x50 + 44, 0xF0);
        // glyph 9
        data.set(0x50 + 45, 0xF0);
        data.set(0x50 + 46, 0x90);
        data.set(0x50 + 47, 0xF0);
        data.set(0x50 + 48, 0x10);
        data.set(0x50 + 49, 0xF0);
        // glyph A
        data.set(0x50 + 50, 0xF0);
        data.set(0x50 + 51, 0x90);
        data.set(0x50 + 52, 0xF0);
        data.set(0x50 + 53, 0x90);
        data.set(0x50 + 54, 0x90);
        // glyph B
        data.set(0x50 + 55, 0xE0);
        data.set(0x50 + 56, 0x90);
        data.set(0x50 + 57, 0xE0);
        data.set(0x50 + 58, 0x90);
        data.set(0x50 + 59, 0xE0);
        // glyph C
        data.set(0x50 + 60, 0xF0);
        data.set(0x50 + 61, 0x80);
        data.set(0x50 + 62, 0x80);
        data.set(0x50 + 63, 0x80);
        data.set(0x50 + 64, 0xF0);
        // glyph D
        data.set(0x50 + 65, 0xE0);
        data.set(0x50 + 66, 0x90);
        data.set(0x50 + 67, 0x90);
        data.set(0x50 + 68, 0x90);
        data.set(0x50 + 69, 0xE0);
        // glyph E
        data.set(0x50 + 70, 0xF0);
        data.set(0x50 + 71, 0x80);
        data.set(0x50 + 72, 0xF0);
        data.set(0x50 + 73, 0x80);
        data.set(0x50 + 74, 0xF0);
        // glyph F
        data.set(0x50 + 75, 0xF0);
        data.set(0x50 + 76, 0x80);
        data.set(0x50 + 77, 0xF0);
        data.set(0x50 + 78, 0x80);
        data.set(0x50 + 79, 0x80);
        let m = Chip8Memory { data };
        proof {
            assert(m.data@ =~= initial_memory());
        }
        m
    }

    /// Copy a ROM into the program region, starting at 0x200.
    ///
    /// The region holds 4096 - 0x200 = 3584 bytes; a longer ROM is refused
    /// whole and memory is left untouched.
    pub fn load_rom(&mut self, rom: &Vec<u8>) -> (result: Result<(), Chip8Error>)
        requires
            old(self).wf(),
        ensures
            final(self).wf(),
            rom@.len() <= 3584 ==> result == Result::<(), Chip8Error>::Ok(())
                && final(self).data@ == memory_with_rom(old(self).data@, rom@),
            rom@.len() > 3584 ==> result == Result::<(), Chip8Error>::Err(Chip8Error::ResourceError)
                && final(self).data@ == old(self).data@,
    {
        if rom.len() > 3584 {
            return Err(Chip8Error::ResourceError);
        }
        let mut i: usize = 0;
        while i < rom.len()
            invariant
                self.data@.len() == 4096,
                rom@.len() <= 3584,
                i <= rom@.len(),
                forall|j: int| 0x200 <= j < 0x200 + i ==> #[trigger] self.data@[j] == rom@[j - 0x200],
                forall|j: int| 0 <= j < 4096 && !(0x200 <= j < 0x200 + i) ==> #[trigger] self.data@[j] == old(self).data@[j],
            decreases rom@.len() - i,
        {
            let b: u8 = rom[i];
            self.data.set(0x200 + i, b);
            i = i + 1;
        }
        proof {
            assert(self.data@ =~= memory_with_rom(old(self).data@, rom@));
        }
        Ok(())
    }
}

} // verus!
