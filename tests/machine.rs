use miko_chip8emulator::chip8::{Chip8, Fault};

fn machine(rom: &[u8]) -> Chip8 {
    let mut c = Chip8::new();
    c.load_rom(rom.to_vec());
    c
}

fn run(c: &mut Chip8, cycles: usize) {
    for _ in 0..cycles {
        assert_eq!(c.step(0), Ok(()));
    }
}

#[test]
fn it_works() {
    assert!(true);
}

#[test]
fn new_machine_holds_font_and_start_address() {
    let c = Chip8::new();
    assert_eq!(c.program_counter(), 0x200);
    assert_eq!(c.memory_at(0), 0xF0);
    assert_eq!(c.memory_at(5), 0x20);
    assert_eq!(c.memory_at(79), 0x80);
    assert_eq!(c.memory_at(80), 0);
    assert!(c.get_screen().iter().all(|&p| p == 0));
    assert_eq!(c.get_screen().len(), 64 * 32);
    assert!(!c.is_sound_playing());
}

#[test]
fn load_rom_places_bytes_at_program_start() {
    let rom = vec![1u8, 2, 3, 0xFF];
    let c = machine(&rom);
    for (k, b) in rom.iter().enumerate() {
        assert_eq!(c.memory_at(0x200 + k), *b);
    }
    for a in 0x204..4096 {
        assert_eq!(c.memory_at(a), 0);
    }
}

#[test]
fn load_rom_accepts_largest_image() {
    let rom = vec![0xAAu8; 4096 - 0x200];
    let c = machine(&rom);
    assert_eq!(c.memory_at(0x200), 0xAA);
    assert_eq!(c.memory_at(4095), 0xAA);
}

#[test]
fn clear_screen_blanks_display() {
    // I = 0x20A, draw the 1-row sprite 0xFF at (0, 0), then clear
    let mut c = machine(&[0xA2, 0x0A, 0x60, 0x00, 0xD0, 0x01, 0x00, 0xE0, 0x00, 0x00, 0xFF]);
    run(&mut c, 3);
    assert_eq!(c.get_screen()[0], 1);
    run(&mut c, 1);
    assert!(c.get_screen().iter().all(|&p| p == 0));
}

#[test]
fn add_immediate_wraps_without_flag() {
    let mut c = machine(&[0x6F, 0x07, 0x60, 0xFF, 0x70, 0x02]);
    run(&mut c, 3);
    assert_eq!(c.register(0), 0x01);
    assert_eq!(c.register(0xF), 0x07);
}

#[test]
fn add_registers_sets_carry() {
    let mut c = machine(&[0x60, 0xFF, 0x61, 0x01, 0x80, 0x14]);
    run(&mut c, 3);
    assert_eq!(c.register(0), 0x00);
    assert_eq!(c.register(0xF), 1);
    let mut c = machine(&[0x60, 0x01, 0x61, 0x01, 0x80, 0x14]);
    run(&mut c, 3);
    assert_eq!(c.register(0), 0x02);
    assert_eq!(c.register(0xF), 0);
}

#[test]
fn subtract_registers_sets_no_borrow() {
    let mut c = machine(&[0x60, 0x05, 0x61, 0x01, 0x80, 0x15]);
    run(&mut c, 3);
    assert_eq!(c.register(0), 0x04);
    assert_eq!(c.register(0xF), 1);
    let mut c = machine(&[0x60, 0x01, 0x61, 0x05, 0x80, 0x15]);
    run(&mut c, 3);
    assert_eq!(c.register(0), 0xFC);
    assert_eq!(c.register(0xF), 0);
}

#[test]
fn reverse_subtract_sets_no_borrow() {
    let mut c = machine(&[0x60, 0x01, 0x61, 0x05, 0x80, 0x17]);
    run(&mut c, 3);
    assert_eq!(c.register(0), 0x04);
    assert_eq!(c.register(0xF), 1);
}

#[test]
fn shifts_move_bit_into_flag() {
    let mut c = machine(&[0x60, 0x03, 0x80, 0x06]);
    run(&mut c, 2);
    assert_eq!(c.register(0xF), 1);
    assert_eq!(c.register(0), 0x01);
    let mut c = machine(&[0x60, 0x81, 0x80, 0x0E]);
    run(&mut c, 2);
    assert_eq!(c.register(0xF), 1);
    assert_eq!(c.register(0), 0x02);
}

#[test]
fn bitwise_register_ops() {
    let mut c = machine(&[0x60, 0x0C, 0x61, 0x0A, 0x80, 0x11, 0x62, 0x0C, 0x82, 0x12, 0x63, 0x0C, 0x83, 0x13]);
    run(&mut c, 7);
    assert_eq!(c.register(0), 0x0E);
    assert_eq!(c.register(2), 0x08);
    assert_eq!(c.register(3), 0x06);
}

#[test]
fn nested_calls_until_stack_is_full() {
    // each call targets the next instruction, which is again a call
    let mut rom = Vec::new();
    for k in 0..17u16 {
        let target = 0x200 + 2 * (k + 1);
        rom.push(0x20 | (target >> 8) as u8);
        rom.push((target & 0xFF) as u8);
    }
    let mut c = machine(&rom);
    run(&mut c, 16);
    assert_eq!(c.stack_pointer(), 16);
    let pc = c.program_counter();
    assert_eq!(c.step(0), Err(Fault::StackOverflow));
    assert_eq!(c.program_counter(), pc);
}

#[test]
fn call_then_return() {
    // 0x200: call 0x206; 0x202: V1 = 1; 0x206: return
    let mut c = machine(&[0x22, 0x06, 0x61, 0x01, 0x00, 0x00, 0x00, 0xEE]);
    run(&mut c, 1);
    assert_eq!(c.program_counter(), 0x206);
    assert_eq!(c.stack_pointer(), 1);
    run(&mut c, 2);
    assert_eq!(c.register(1), 1);
    assert_eq!(c.stack_pointer(), 0);
}

#[test]
fn return_on_empty_stack_is_fatal() {
    let mut c = machine(&[0x00, 0xEE]);
    assert_eq!(c.step(0), Err(Fault::StackUnderflow));
    assert_eq!(c.program_counter(), 0x200);
}

#[test]
fn drawing_twice_toggles_and_flags_collision() {
    let mut c = machine(&[0xA2, 0x0A, 0x60, 0x00, 0x61, 0x00, 0xD0, 0x11, 0xD0, 0x11, 0x80]);
    run(&mut c, 4);
    assert_eq!(c.get_screen()[0], 1);
    assert_eq!(c.register(0xF), 0);
    run(&mut c, 1);
    assert_eq!(c.get_screen()[0], 0);
    assert_eq!(c.register(0xF), 1);
}

#[test]
fn sprite_wraps_at_right_edge() {
    let mut c = machine(&[0xA2, 0x08, 0x60, 0x3F, 0xD0, 0x11, 0x00, 0x00, 0xFF]);
    run(&mut c, 3);
    let s = c.get_screen();
    assert_eq!(s[63], 1);
    for x in 0..7 {
        assert_eq!(s[x], 1);
    }
    assert_eq!(s[7], 0);
    assert_eq!(s[62], 0);
}

#[test]
fn key_wait_replays_until_key_pressed() {
    let mut c = machine(&[0xF3, 0x0A]);
    run(&mut c, 1);
    assert_eq!(c.program_counter(), 0x200);
    run(&mut c, 1);
    assert_eq!(c.program_counter(), 0x200);
    c.set_key(9, true);
    c.set_key(5, true);
    assert!(c.key_pressed(5));
    run(&mut c, 1);
    assert_eq!(c.register(3), 5);
    assert_eq!(c.program_counter(), 0x202);
}

#[test]
fn skip_on_key_state() {
    let mut c = machine(&[0x60, 0x04, 0xE0, 0x9E, 0x00, 0x00, 0xE0, 0xA1]);
    c.set_key(4, true);
    run(&mut c, 2);
    assert_eq!(c.program_counter(), 0x206);
    run(&mut c, 1);
    assert_eq!(c.program_counter(), 0x208);
}

#[test]
fn key_above_range_is_fatal() {
    let mut c = machine(&[0x60, 0x20, 0xE0, 0x9E]);
    run(&mut c, 1);
    assert_eq!(c.step(0), Err(Fault::KeyOutOfRange));
}

#[test]
fn skips_on_register_comparisons() {
    // V0 = 7; skip if V0 == 7; (skipped); skip if V0 != 7 (no skip); skip if V0 == V1 (V1 = 0: no)
    let mut c = machine(&[0x60, 0x07, 0x30, 0x07, 0x00, 0x00, 0x40, 0x07, 0x50, 0x10, 0x90, 0x10]);
    run(&mut c, 2);
    assert_eq!(c.program_counter(), 0x206);
    run(&mut c, 1);
    assert_eq!(c.program_counter(), 0x208);
    run(&mut c, 1);
    assert_eq!(c.program_counter(), 0x20A);
    run(&mut c, 1);
    assert_eq!(c.program_counter(), 0x20E);
}

#[test]
fn jump_with_offset() {
    let mut c = machine(&[0x60, 0x10, 0xB3, 0x00]);
    run(&mut c, 2);
    assert_eq!(c.program_counter(), 0x310);
    let mut c = machine(&[0x14, 0x56]);
    run(&mut c, 1);
    assert_eq!(c.program_counter(), 0x456);
}

#[test]
fn bcd_of_156() {
    let mut c = machine(&[0x60, 0x9C, 0xA3, 0x00, 0xF0, 0x33]);
    run(&mut c, 3);
    assert_eq!(c.memory_at(0x300), 1);
    assert_eq!(c.memory_at(0x301), 5);
    assert_eq!(c.memory_at(0x302), 6);
}

#[test]
fn bcd_past_memory_end_is_fatal() {
    let mut c = machine(&[0xAF, 0xFE, 0xF0, 0x33]);
    run(&mut c, 1);
    assert_eq!(c.step(0), Err(Fault::AddressOutOfRange));
    assert_eq!(c.index(), 0xFFE);
}

#[test]
fn store_and_load_registers() {
    let mut c = machine(&[0x60, 0x0A, 0x61, 0x0B, 0x62, 0x0C, 0xA3, 0x00, 0xF2, 0x55, 0xA3, 0x00, 0x63, 0x00, 0xF3, 0x65]);
    run(&mut c, 5);
    assert_eq!(c.memory_at(0x300), 0x0A);
    assert_eq!(c.memory_at(0x302), 0x0C);
    assert_eq!(c.index(), 0x303);
    run(&mut c, 3);
    assert_eq!(c.register(0), 0x0A);
    assert_eq!(c.register(2), 0x0C);
    assert_eq!(c.register(3), 0x00);
    assert_eq!(c.index(), 0x304);
}

#[test]
fn font_address_and_index_add() {
    let mut c = machine(&[0x60, 0x0A, 0xF0, 0x29, 0xF0, 0x1E]);
    run(&mut c, 2);
    assert_eq!(c.index(), 50);
    run(&mut c, 1);
    assert_eq!(c.index(), 60);
}

#[test]
fn random_byte_is_masked() {
    let mut c = machine(&[0xC0, 0x0F, 0xC1, 0xF0]);
    assert_eq!(c.step(0xAB), Ok(()));
    assert_eq!(c.register(0), 0x0B);
    assert_eq!(c.next_instruction(), Ok(()));
    assert_eq!(c.register(1) & 0x0F, 0);
}

#[test]
fn timers_count_down_and_hold_at_zero() {
    let mut c = machine(&[0x60, 0x03, 0xF0, 0x15, 0xF0, 0x18, 0xF1, 0x07]);
    run(&mut c, 3);
    assert_eq!(c.delay_timer(), 3);
    assert!(c.is_sound_playing());
    c.timer_tick();
    run(&mut c, 1);
    assert_eq!(c.register(1), 2);
    for _ in 0..5 {
        c.timer_tick();
    }
    assert_eq!(c.delay_timer(), 0);
    assert_eq!(c.sound_timer(), 0);
    assert!(!c.is_sound_playing());
}

#[test]
fn fetch_past_memory_end_is_fatal() {
    let mut c = machine(&[0x1F, 0xFF]);
    run(&mut c, 1);
    assert_eq!(c.step(0), Err(Fault::AddressOutOfRange));
}

#[test]
fn unknown_opcode_is_ignored() {
    let mut c = machine(&[0x50, 0x11, 0xE0, 0x00, 0xF0, 0xFF, 0x80, 0x0F]);
    run(&mut c, 4);
    assert_eq!(c.program_counter(), 0x208);
    assert_eq!(c.ignored_count(), 4);
}

#[test]
fn known_opcodes_are_not_counted_as_ignored() {
    let mut c = machine(&[0x60, 0x01, 0x80, 0x14, 0x00, 0xE0]);
    run(&mut c, 3);
    assert_eq!(c.ignored_count(), 0);
}

#[test]
fn zero_row_draw_with_index_past_memory() {
    // I = 0xFFF, V0 = 0x10, I += V0, VF = 1, draw zero rows
    let mut c = machine(&[0xAF, 0xFF, 0x60, 0x10, 0xF0, 0x1E, 0x6F, 0x01, 0xD0, 0x00]);
    run(&mut c, 4);
    assert_eq!(c.index(), 0x100F);
    assert_eq!(c.step(0), Ok(()));
    assert_eq!(c.program_counter(), 0x20A);
    assert_eq!(c.register(0xF), 0);
    assert!(c.get_screen().iter().all(|&p| p == 0));
}

#[test]
fn draw_past_memory_end_is_fatal() {
    let mut c = machine(&[0xAF, 0xFF, 0xD0, 0x02]);
    run(&mut c, 1);
    assert_eq!(c.step(0), Err(Fault::AddressOutOfRange));
    assert_eq!(c.program_counter(), 0x202);
}

#[test]
fn return_from_deepest_call() {
    // sixteen nested calls, the innermost target returns
    let mut rom = Vec::new();
    for k in 0..16u16 {
        let target = 0x200 + 2 * (k + 1);
        rom.push(0x20 | (target >> 8) as u8);
        rom.push((target & 0xFF) as u8);
    }
    rom.push(0x00);
    rom.push(0xEE);
    let mut c = machine(&rom);
    run(&mut c, 16);
    assert_eq!(c.stack_pointer(), 16);
    run(&mut c, 1);
    assert_eq!(c.stack_pointer(), 15);
    assert_eq!(c.program_counter(), 0x220);
}
