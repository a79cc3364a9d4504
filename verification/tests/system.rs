use chip8::cpu::Chip8CPU;
use chip8::input::Chip8Input;
use chip8::memory::Chip8Memory;
use chip8::{Chip8, Chip8Error};

#[test]
fn test_new_cpu() {
    let cpu = Chip8CPU::new();

    assert_eq!(cpu.index_registers[5], 0 as u8);
    assert_eq!(cpu.index_registers[10], 0 as u8);

    assert_eq!(cpu.pc, Chip8Memory::START_ADRESS as u16);
    assert_eq!(cpu.sp, 0x0000);
}

#[test]
fn set_register_writes_one_register() {
    let mut cpu = Chip8CPU::new();
    cpu.set_register(&3, &9);
    assert_eq!(cpu.index_registers[3], 9);
    assert_eq!(cpu.index_registers[4], 0);
}

#[test]
fn random_byte_is_callable() {
    // Nothing is promised of the value; masking bounds it.
    let b = Chip8CPU::random_byte() & 0x0F;
    assert!(b <= 0x0F);
}

#[test]
fn new_memory_holds_the_font_and_nothing_else() {
    let m = Chip8Memory::new();
    assert_eq!(m.data.len(), Chip8Memory::MEMORY_SIZE);
    for a in 0..Chip8Memory::FONTSET_START_ADRESS as usize {
        assert_eq!(m.data[a], 0);
    }
    let font_end =
        (Chip8Memory::FONTSET_START_ADRESS + Chip8Memory::FONTSET_SIZE) as usize;
    for a in font_end..Chip8Memory::MEMORY_SIZE {
        assert_eq!(m.data[a], 0);
    }
    // Spot-check glyphs: '1' and 'F'.
    assert_eq!(&m.data[0x55..0x5A], &[0x20, 0x60, 0x20, 0x20, 0x70]);
    assert_eq!(&m.data[0x9B..0xA0], &[0xF0, 0x80, 0xF0, 0x80, 0x80]);
}

#[test]
fn load_rom_copies_into_the_program_region() {
    let mut m = Chip8Memory::new();
    m.load_rom(&vec![1, 2, 3]).unwrap();
    assert_eq!(&m.data[0x200..0x203], &[1, 2, 3]);
    assert_eq!(m.data[0x203], 0);
    // The font table is untouched.
    assert_eq!(m.data[0x50], 0xF0);
}

#[test]
fn load_rom_accepts_the_largest_rom() {
    let mut m = Chip8Memory::new();
    let rom = vec![0xABu8; 3584];
    assert_eq!(m.load_rom(&rom), Ok(()));
    assert_eq!(m.data[4095], 0xAB);
}

#[test]
fn load_rom_refuses_an_oversized_rom() {
    let mut m = Chip8Memory::new();
    let rom = vec![0xABu8; 3585];
    assert_eq!(m.load_rom(&rom), Err(Chip8Error::ResourceError));
    // Nothing was copied.
    assert_eq!(m.data[0x200], 0);
}

#[test]
fn emulator_load_rom_reports_resource_errors() {
    let mut c8 = Chip8::new();
    assert_eq!(c8.load_rom(&vec![0u8; 3585]), Err(Chip8Error::ResourceError));
    assert_eq!(c8.load_rom(&vec![0x12u8, 0x34]), Ok(()));
    assert_eq!(c8.chip8_memory.data[0x200], 0x12);
}

#[test]
fn keypad_tracks_presses() {
    let mut inp = Chip8Input::new();
    assert_eq!(inp.any_pressed(), None);
    for k in 0..16u8 {
        assert!(!inp.is_pressed(k));
    }
    inp.set_key(9, true);
    inp.set_key(4, true);
    assert!(inp.is_pressed(9));
    assert!(inp.is_pressed(4));
    // The lowest pressed key wins.
    assert_eq!(inp.any_pressed(), Some(4));
    inp.set_key(4, false);
    assert_eq!(inp.any_pressed(), Some(9));
}

#[test]
fn fresh_emulator_is_in_the_documented_state() {
    let c8 = Chip8::new();
    assert_eq!(c8.chip8_cpu.pc, 0x200);
    assert_eq!(c8.chip8_cpu.sp, 0);
    assert_eq!(c8.chip8_cpu.index, 0);
    assert_eq!(c8.chip8_cpu.delay_timer, 0);
    assert_eq!(c8.chip8_cpu.sound_timer, 0);
    assert!(!c8.chip8_display.get_pixel(0, 0));
    assert_eq!(c8.chip8_memory.data[0x50], 0xF0);
}
