use chip8::{Chip8, Chip8Error};

/// A machine with `program` loaded at 0x200, ready to run.
fn machine_with(program: &[u8]) -> Chip8 {
    let mut c8 = Chip8::new();
    c8.load_rom(&program.to_vec()).unwrap();
    c8
}

/// Run `cycles` interpreter cycles, all of which must succeed.
fn run(c8: &mut Chip8, cycles: usize) {
    for _ in 0..cycles {
        c8.update().unwrap();
    }
}

#[test]
fn set_then_compare_always_skips() {
    // 6xNN then 3xNN: the register was just set to NN, so the skip fires.
    let mut c8 = machine_with(&[0x6A, 0x42, 0x3A, 0x42]);
    run(&mut c8, 2);
    assert_eq!(c8.chip8_cpu.pc, 0x206);
}

#[test]
fn add_immediate_wraps_without_flag() {
    // VF is parked at 0x55 first; 7xNN must leave it alone while wrapping.
    let mut c8 = machine_with(&[0x6F, 0x55, 0x6A, 0xFF, 0x7A, 0x02]);
    run(&mut c8, 3);
    assert_eq!(c8.chip8_cpu.index_registers[0xA], 0x01);
    assert_eq!(c8.chip8_cpu.index_registers[0xF], 0x55);
}

#[test]
fn add_registers_sets_carry() {
    let mut c8 = machine_with(&[0x6A, 0xFF, 0x6B, 0x01, 0x8A, 0xB4]);
    run(&mut c8, 3);
    assert_eq!(c8.chip8_cpu.index_registers[0xA], 0x00);
    assert_eq!(c8.chip8_cpu.index_registers[0xF], 1);
}

#[test]
fn add_registers_clears_carry() {
    let mut c8 = machine_with(&[0x6A, 0x01, 0x6B, 0x01, 0x8A, 0xB4]);
    run(&mut c8, 3);
    assert_eq!(c8.chip8_cpu.index_registers[0xA], 0x02);
    assert_eq!(c8.chip8_cpu.index_registers[0xF], 0);
}

#[test]
fn sub_registers_borrow() {
    let mut c8 = machine_with(&[0x6A, 0x01, 0x6B, 0x02, 0x8A, 0xB5]);
    run(&mut c8, 3);
    assert_eq!(c8.chip8_cpu.index_registers[0xA], 0xFF);
    assert_eq!(c8.chip8_cpu.index_registers[0xF], 0);
}

#[test]
fn sub_registers_no_borrow() {
    let mut c8 = machine_with(&[0x6A, 0x02, 0x6B, 0x01, 0x8A, 0xB5]);
    run(&mut c8, 3);
    assert_eq!(c8.chip8_cpu.index_registers[0xA], 0x01);
    assert_eq!(c8.chip8_cpu.index_registers[0xF], 1);
}

#[test]
fn call_then_return_restores_pc_and_sp() {
    // 2nnn to 0x204, where 00EE returns straight back.
    let mut c8 = machine_with(&[0x22, 0x04, 0x00, 0x00, 0x00, 0xEE]);
    c8.update().unwrap();
    assert_eq!(c8.chip8_cpu.pc, 0x204);
    assert_eq!(c8.chip8_cpu.sp, 1);
    assert_eq!(c8.chip8_cpu.stack[0], 0x202);
    c8.update().unwrap();
    assert_eq!(c8.chip8_cpu.pc, 0x202);
    assert_eq!(c8.chip8_cpu.sp, 0);
}

#[test]
fn sprite_drawn_twice_self_erases_with_collision() {
    // One 8x1 sprite of all-set bits at (5, 6), drawn twice.
    let mut c8 = machine_with(&[0xA3, 0x00, 0x6A, 0x05, 0x6B, 0x06, 0xDA, 0xB1, 0xDA, 0xB1]);
    c8.chip8_memory.data[0x300] = 0xFF;
    run(&mut c8, 4);
    assert_eq!(c8.chip8_cpu.index_registers[0xF], 0);
    for col in 0..8u8 {
        assert!(c8.chip8_display.get_pixel(5 + col, 6));
    }
    c8.update().unwrap();
    assert_eq!(c8.chip8_cpu.index_registers[0xF], 1);
    for col in 0..8u8 {
        assert!(!c8.chip8_display.get_pixel(5 + col, 6));
    }
}

#[test]
fn sprite_wraps_around_the_right_edge() {
    let mut c8 = machine_with(&[0xA3, 0x00, 0x6A, 0x3C, 0x6B, 0x00, 0xDA, 0xB1]);
    c8.chip8_memory.data[0x300] = 0xFF;
    run(&mut c8, 4);
    // Columns 60..63 and, wrapped, 0..3 of row 0 are lit.
    for col in 60..64u8 {
        assert!(c8.chip8_display.get_pixel(col, 0));
    }
    for col in 0..4u8 {
        assert!(c8.chip8_display.get_pixel(col, 0));
    }
    assert!(!c8.chip8_display.get_pixel(4, 0));
}

#[test]
fn sprite_read_past_memory_is_fatal() {
    let mut c8 = machine_with(&[0xAF, 0xFF, 0x6A, 0x00, 0x6B, 0x00, 0xDA, 0xB2]);
    run(&mut c8, 3);
    assert_eq!(c8.update(), Err(Chip8Error::BoundsError));
}

#[test]
fn bcd_of_137() {
    let mut c8 = machine_with(&[0x6A, 0x89, 0xA3, 0x00, 0xFA, 0x33]);
    run(&mut c8, 3);
    assert_eq!(c8.chip8_memory.data[0x300], 1);
    assert_eq!(c8.chip8_memory.data[0x301], 3);
    assert_eq!(c8.chip8_memory.data[0x302], 7);
}

#[test]
fn store_then_load_round_trips() {
    let mut c8 = machine_with(&[
        0x60, 0x0A, // V0 = 10
        0x61, 0x14, // V1 = 20
        0x62, 0x1E, // V2 = 30
        0x63, 0x28, // V3 = 40
        0xA3, 0x00, // I = 0x300
        0xF3, 0x55, // store V0..V3
        0x60, 0x00, // zero the registers again
        0x61, 0x00, //
        0x62, 0x00, //
        0x63, 0x00, //
        0xF3, 0x65, // load V0..V3 back
    ]);
    run(&mut c8, 6);
    assert_eq!(c8.chip8_cpu.index, 0x300);
    assert_eq!(&c8.chip8_memory.data[0x300..0x304], &[10, 20, 30, 40]);
    run(&mut c8, 5);
    assert_eq!(c8.chip8_cpu.index_registers[0], 10);
    assert_eq!(c8.chip8_cpu.index_registers[1], 20);
    assert_eq!(c8.chip8_cpu.index_registers[2], 30);
    assert_eq!(c8.chip8_cpu.index_registers[3], 40);
    assert_eq!(c8.chip8_cpu.index, 0x300);
}

#[test]
fn font_glyph_address_for_zero() {
    let mut c8 = machine_with(&[0x60, 0x00, 0xF0, 0x29]);
    run(&mut c8, 2);
    assert_eq!(c8.chip8_cpu.index, 0x50);
    assert_eq!(&c8.chip8_memory.data[0x50..0x55], &[0xF0, 0x90, 0x90, 0x90, 0xF0]);
}

#[test]
fn seventeen_nested_calls_overflow_the_stack() {
    // 2200 at 0x200 calls itself forever; the seventeenth call must fail.
    let mut c8 = machine_with(&[0x22, 0x00]);
    for _ in 0..16 {
        c8.update().unwrap();
    }
    assert_eq!(c8.chip8_cpu.sp, 16);
    assert_eq!(c8.update(), Err(Chip8Error::StackError));
    // The fatal cycle stops after the fetch: nothing was pushed or jumped.
    assert_eq!(c8.chip8_cpu.sp, 16);
    assert_eq!(c8.chip8_cpu.pc, 0x202);
}

#[test]
fn return_with_empty_stack_is_fatal() {
    let mut c8 = machine_with(&[0x00, 0xEE]);
    assert_eq!(c8.update(), Err(Chip8Error::StackError));
}

#[test]
fn fetch_past_memory_is_fatal() {
    let mut c8 = machine_with(&[0x1F, 0xFF]);
    c8.update().unwrap();
    assert_eq!(c8.chip8_cpu.pc, 0xFFF);
    assert_eq!(c8.update(), Err(Chip8Error::BoundsError));
}

#[test]
fn bcd_past_memory_is_fatal() {
    let mut c8 = machine_with(&[0xAF, 0xFF, 0xFA, 0x33]);
    c8.update().unwrap();
    assert_eq!(c8.update(), Err(Chip8Error::BoundsError));
}

#[test]
fn unknown_sub_opcode_is_a_no_op() {
    let mut c8 = machine_with(&[0x01, 0x23, 0x8A, 0xBF]);
    run(&mut c8, 2);
    assert_eq!(c8.chip8_cpu.pc, 0x204);
    for v in 0..16 {
        assert_eq!(c8.chip8_cpu.index_registers[v], 0);
    }
}

#[test]
fn random_masked_with_zero_is_zero() {
    let mut c8 = machine_with(&[0x6A, 0xFF, 0xCA, 0x00]);
    run(&mut c8, 2);
    assert_eq!(c8.chip8_cpu.index_registers[0xA], 0);
}

#[test]
fn random_masked_to_low_nibble() {
    let mut c8 = machine_with(&[0xCA, 0x0F]);
    run(&mut c8, 1);
    assert!(c8.chip8_cpu.index_registers[0xA] <= 0x0F);
}

#[test]
fn jumps_and_skips() {
    let mut c8 = machine_with(&[0x12, 0x34]);
    c8.update().unwrap();
    assert_eq!(c8.chip8_cpu.pc, 0x234);

    // 4xnn skips when unequal.
    let mut c8 = machine_with(&[0x4A, 0x01]);
    c8.update().unwrap();
    assert_eq!(c8.chip8_cpu.pc, 0x204);

    // 5xy0 skips when equal, 9xy0 when unequal.
    let mut c8 = machine_with(&[0x5A, 0xB0, 0x9A, 0xB0]);
    run(&mut c8, 2);
    assert_eq!(c8.chip8_cpu.pc, 0x206);

    // Bnnn jumps to nnn + V0.
    let mut c8 = machine_with(&[0x60, 0x10, 0xB3, 0x00]);
    run(&mut c8, 2);
    assert_eq!(c8.chip8_cpu.pc, 0x310);
}

#[test]
fn register_moves_and_bitwise_ops() {
    let mut c8 = machine_with(&[0x6A, 0x0C, 0x6B, 0x0A, 0x8C, 0xA0, 0x8C, 0xB1]);
    run(&mut c8, 4);
    assert_eq!(c8.chip8_cpu.index_registers[0xC], 0x0C | 0x0A);

    let mut c8 = machine_with(&[0x6A, 0x0C, 0x6B, 0x0A, 0x8A, 0xB2]);
    run(&mut c8, 3);
    assert_eq!(c8.chip8_cpu.index_registers[0xA], 0x0C & 0x0A);

    let mut c8 = machine_with(&[0x6A, 0x0C, 0x6B, 0x0A, 0x8A, 0xB3]);
    run(&mut c8, 3);
    assert_eq!(c8.chip8_cpu.index_registers[0xA], 0x0C ^ 0x0A);
}

#[test]
fn shifts_move_edge_bits_into_vf() {
    let mut c8 = machine_with(&[0x6A, 0x05, 0x8A, 0x06]);
    run(&mut c8, 2);
    assert_eq!(c8.chip8_cpu.index_registers[0xA], 0x02);
    assert_eq!(c8.chip8_cpu.index_registers[0xF], 1);

    let mut c8 = machine_with(&[0x6A, 0x81, 0x8A, 0x0E]);
    run(&mut c8, 2);
    assert_eq!(c8.chip8_cpu.index_registers[0xA], 0x02);
    assert_eq!(c8.chip8_cpu.index_registers[0xF], 1);
}

#[test]
fn reverse_sub_sets_no_borrow_flag() {
    let mut c8 = machine_with(&[0x6A, 0x01, 0x6B, 0x05, 0x8A, 0xB7]);
    run(&mut c8, 3);
    assert_eq!(c8.chip8_cpu.index_registers[0xA], 4);
    assert_eq!(c8.chip8_cpu.index_registers[0xF], 1);
}

#[test]
fn index_register_ops() {
    let mut c8 = machine_with(&[0xA1, 0x23]);
    c8.update().unwrap();
    assert_eq!(c8.chip8_cpu.index, 0x123);

    let mut c8 = machine_with(&[0xA0, 0x10, 0x6A, 0x05, 0xFA, 0x1E]);
    run(&mut c8, 3);
    assert_eq!(c8.chip8_cpu.index, 0x15);
}

#[test]
fn timers_count_down_each_cycle() {
    // Fx15 sets the delay timer to 5; the same cycle already ticks it to 4.
    let mut c8 = machine_with(&[0x6A, 0x05, 0xFA, 0x15, 0xFB, 0x07]);
    run(&mut c8, 2);
    assert_eq!(c8.chip8_cpu.delay_timer, 4);
    c8.update().unwrap();
    assert_eq!(c8.chip8_cpu.index_registers[0xB], 4);
    assert_eq!(c8.chip8_cpu.delay_timer, 3);
}

#[test]
fn sound_timer_is_set_and_decays() {
    let mut c8 = machine_with(&[0x6A, 0x02, 0xFA, 0x18]);
    run(&mut c8, 2);
    assert_eq!(c8.chip8_cpu.sound_timer, 1);
}

#[test]
fn await_key_stalls_until_a_press() {
    let mut c8 = machine_with(&[0xF5, 0x0A]);
    c8.update().unwrap();
    assert_eq!(c8.chip8_cpu.pc, 0x200);
    c8.update().unwrap();
    assert_eq!(c8.chip8_cpu.pc, 0x200);
    c8.chip8_input.set_key(7, true);
    c8.update().unwrap();
    assert_eq!(c8.chip8_cpu.pc, 0x202);
    assert_eq!(c8.chip8_cpu.index_registers[5], 7);
}

#[test]
fn skip_if_key_pressed() {
    let mut c8 = machine_with(&[0x6A, 0x03, 0xEA, 0x9E, 0x6A, 0x03, 0xEA, 0x9E]);
    run(&mut c8, 2);
    assert_eq!(c8.chip8_cpu.pc, 0x204);
    c8.chip8_input.set_key(3, true);
    run(&mut c8, 2);
    assert_eq!(c8.chip8_cpu.pc, 0x20A);
}

#[test]
fn skip_if_key_not_pressed() {
    let mut c8 = machine_with(&[0x6A, 0x03, 0xEA, 0xA1]);
    run(&mut c8, 2);
    assert_eq!(c8.chip8_cpu.pc, 0x206);
}

#[test]
fn key_number_past_keypad_is_fatal() {
    let mut c8 = machine_with(&[0x6A, 0x10, 0xEA, 0x9E]);
    c8.update().unwrap();
    assert_eq!(c8.update(), Err(Chip8Error::BoundsError));
}

#[test]
fn clear_display_opcode() {
    let mut c8 = machine_with(&[0xA3, 0x00, 0xDA, 0xB1, 0x00, 0xE0]);
    c8.chip8_memory.data[0x300] = 0xFF;
    run(&mut c8, 2);
    assert!(c8.chip8_display.get_pixel(0, 0));
    c8.update().unwrap();
    for x in 0..64u8 {
        assert!(!c8.chip8_display.get_pixel(x, 0));
    }
}

#[test]
fn delay_timer_read_when_zero() {
    let mut c8 = machine_with(&[0x6A, 0x09, 0xFA, 0x07]);
    run(&mut c8, 2);
    assert_eq!(c8.chip8_cpu.index_registers[0xA], 0);
}
