use chip8::{Chip8Error, Instruction, CPU};

fn machine(program: &[u16]) -> CPU {
    let mut rom = Vec::new();
    for word in program {
        rom.push((word >> 8) as u8);
        rom.push((word & 0xFF) as u8);
    }
    let mut cpu = CPU::new();
    cpu.load_rom(&rom).unwrap();
    cpu
}

fn run_all(program: &[u16]) -> CPU {
    let mut cpu = machine(program);
    for _ in program {
        cpu.step_with(0).unwrap();
    }
    cpu
}

#[test]
fn load_immediate_sets_register() {
    let cpu = run_all(&[0x6A42]);
    assert_eq!(cpu.registers()[0xA], 0x42);
    assert_eq!(cpu.pc(), 0x202);
}

#[test]
fn step_returns_the_instruction() {
    let mut cpu = machine(&[0x6A42, 0x0123]);
    assert_eq!(cpu.step_with(0), Ok(Instruction::LoadImm { x: 0xA, nn: 0x42 }));
    assert_eq!(cpu.step_with(0), Ok(Instruction::Unrecognized { word: 0x0123 }));
}

#[test]
fn unrecognized_word_only_advances() {
    let mut cpu = machine(&[0x6105, 0x8128, 0xE1FF, 0xF1FF, 0x5121, 0x0000]);
    cpu.step_with(0).unwrap();
    let mut expected = machine(&[0x6105, 0x8128, 0xE1FF, 0xF1FF, 0x5121, 0x0000]);
    expected.step_with(0).unwrap();
    for k in 0..5u16 {
        assert!(matches!(cpu.step_with(0), Ok(Instruction::Unrecognized { .. })));
        assert_eq!(cpu.pc(), 0x204 + 2 * k);
        assert_eq!(cpu.registers(), expected.registers());
        assert_eq!(cpu.memory(), expected.memory());
        assert_eq!(cpu.framebuffer(), expected.framebuffer());
        assert_eq!(cpu.index(), 0);
        assert_eq!(cpu.stack_pointer(), 0);
    }
}

#[test]
fn add_immediate_wraps_and_leaves_flag() {
    let cpu = run_all(&[0x6FAA, 0x60F0, 0x7020]);
    assert_eq!(cpu.registers()[0], 0x10);
    assert_eq!(cpu.registers()[0xF], 0xAA);
    let cpu = run_all(&[0x6001, 0x7001]);
    assert_eq!(cpu.registers()[0], 2);
    assert_eq!(cpu.registers()[0xF], 0);
    let cpu = run_all(&[0x60FF, 0x7001]);
    assert_eq!(cpu.registers()[0], 0);
    assert_eq!(cpu.registers()[0xF], 0);
}

#[test]
fn move_or_and_xor() {
    let cpu = run_all(&[0x61CC, 0x62AA, 0x8320, 0x8410, 0x8421, 0x8510, 0x8522, 0x8610, 0x8623]);
    assert_eq!(cpu.registers()[3], 0xAA);
    assert_eq!(cpu.registers()[4], 0xEE);
    assert_eq!(cpu.registers()[5], 0x88);
    assert_eq!(cpu.registers()[6], 0x66);
    let cpu = run_all(&[0x61CC, 0x62AA, 0x8121]);
    assert_eq!(cpu.registers()[1], 0xEE);
    assert_eq!(cpu.registers()[0xF], 0);
}

#[test]
fn add_registers_sets_carry() {
    let cpu = run_all(&[0x61F0, 0x6220, 0x8124]);
    assert_eq!(cpu.registers()[1], 0x10);
    assert_eq!(cpu.registers()[0xF], 1);
    let cpu = run_all(&[0x6FFF, 0x6110, 0x6220, 0x8124]);
    assert_eq!(cpu.registers()[1], 0x30);
    assert_eq!(cpu.registers()[0xF], 0);
    let cpu = run_all(&[0x61FF, 0x6200, 0x8124]);
    assert_eq!(cpu.registers()[1], 0xFF);
    assert_eq!(cpu.registers()[0xF], 0);
    let cpu = run_all(&[0x61FF, 0x6201, 0x8124]);
    assert_eq!(cpu.registers()[1], 0x00);
    assert_eq!(cpu.registers()[0xF], 1);
}

#[test]
fn add_registers_into_flag_register_keeps_the_carry() {
    let cpu = run_all(&[0x6FF0, 0x6220, 0x8F24]);
    assert_eq!(cpu.registers()[0xF], 1);
    let cpu = run_all(&[0x6F10, 0x6220, 0x8F24]);
    assert_eq!(cpu.registers()[0xF], 0);
}

#[test]
fn subtract_sets_flag_when_greater() {
    let cpu = run_all(&[0x6150, 0x6220, 0x8125]);
    assert_eq!(cpu.registers()[1], 0x30);
    assert_eq!(cpu.registers()[0xF], 1);
    let cpu = run_all(&[0x6120, 0x6250, 0x8125]);
    assert_eq!(cpu.registers()[1], 0xD0);
    assert_eq!(cpu.registers()[0xF], 0);
    let cpu = run_all(&[0x6FFF, 0x6133, 0x6233, 0x8125]);
    assert_eq!(cpu.registers()[1], 0);
    assert_eq!(cpu.registers()[0xF], 0);
}

#[test]
fn subtract_into_flag_register_keeps_the_difference() {
    let cpu = run_all(&[0x6F50, 0x6220, 0x8F25]);
    assert_eq!(cpu.registers()[0xF], 0x30);
    let cpu = run_all(&[0x6F20, 0x6250, 0x8F27]);
    assert_eq!(cpu.registers()[0xF], 0x30);
    let cpu = run_all(&[0x6F07, 0x8F06]);
    assert_eq!(cpu.registers()[0xF], 0x03);
    let cpu = run_all(&[0x6F81, 0x8F0E]);
    assert_eq!(cpu.registers()[0xF], 0x02);
}

#[test]
fn subtract_from_sets_flag_when_greater() {
    let cpu = run_all(&[0x6120, 0x6250, 0x8127]);
    assert_eq!(cpu.registers()[1], 0x30);
    assert_eq!(cpu.registers()[0xF], 1);
    let cpu = run_all(&[0x6150, 0x6220, 0x8127]);
    assert_eq!(cpu.registers()[1], 0xD0);
    assert_eq!(cpu.registers()[0xF], 0);
    let cpu = run_all(&[0x6FFF, 0x6133, 0x6233, 0x8127]);
    assert_eq!(cpu.registers()[1], 0);
    assert_eq!(cpu.registers()[0xF], 0);
}

#[test]
fn shift_right_moves_low_bit_to_flag() {
    let cpu = run_all(&[0x6105, 0x8126]);
    assert_eq!(cpu.registers()[1], 2);
    assert_eq!(cpu.registers()[0xF], 1);
    let cpu = run_all(&[0x6FFF, 0x61FE, 0x8126]);
    assert_eq!(cpu.registers()[1], 0x7F);
    assert_eq!(cpu.registers()[0xF], 0);
}

#[test]
fn shift_left_moves_high_bit_to_flag() {
    let cpu = run_all(&[0x6181, 0x812E]);
    assert_eq!(cpu.registers()[1], 0x02);
    assert_eq!(cpu.registers()[0xF], 1);
    let cpu = run_all(&[0x6FFF, 0x617F, 0x812E]);
    assert_eq!(cpu.registers()[1], 0xFE);
    assert_eq!(cpu.registers()[0xF], 0);
}

#[test]
fn arithmetic_flags_hold_for_every_pair_of_bytes() {
    for a in 0..=255u16 {
        for b in [0u16, 1, 2, 0x7F, 0x80, 0xFE, 0xFF, a, 255 - a] {
            let cpu = run_all(&[0x6100 | a, 0x6200 | b, 0x8124]);
            assert_eq!(cpu.registers()[1] as u16, (a + b) % 256);
            assert_eq!(cpu.registers()[0xF], (a + b > 255) as u8);
            let cpu = run_all(&[0x6100 | a, 0x6200 | b, 0x8125]);
            assert_eq!(cpu.registers()[1] as u16, (256 + a - b) % 256);
            assert_eq!(cpu.registers()[0xF], (a > b) as u8);
            let cpu = run_all(&[0x6100 | a, 0x6200 | b, 0x8127]);
            assert_eq!(cpu.registers()[1] as u16, (256 + b - a) % 256);
            assert_eq!(cpu.registers()[0xF], (b > a) as u8);
            let cpu = run_all(&[0x6100 | a, 0x7100 | b]);
            assert_eq!(cpu.registers()[1] as u16, (a + b) % 256);
            assert_eq!(cpu.registers()[0xF], 0);
        }
        let cpu = run_all(&[0x6100 | a, 0x8106]);
        assert_eq!(cpu.registers()[1] as u16, a / 2);
        assert_eq!(cpu.registers()[0xF] as u16, a % 2);
        let cpu = run_all(&[0x6100 | a, 0x810E]);
        assert_eq!(cpu.registers()[1] as u16, (a * 2) % 256);
        assert_eq!(cpu.registers()[0xF] as u16, a / 128);
    }
}

#[test]
fn skip_if_equal_immediate() {
    let cpu = run_all(&[0x6005, 0x3005]);
    assert_eq!(cpu.pc(), 0x206);
    let cpu = run_all(&[0x6005, 0x3006]);
    assert_eq!(cpu.pc(), 0x204);
}

#[test]
fn skip_if_not_equal_immediate() {
    let cpu = run_all(&[0x6005, 0x4006]);
    assert_eq!(cpu.pc(), 0x206);
    let cpu = run_all(&[0x6005, 0x4005]);
    assert_eq!(cpu.pc(), 0x204);
}

#[test]
fn skip_on_register_comparison() {
    let cpu = run_all(&[0x6105, 0x6205, 0x5120]);
    assert_eq!(cpu.pc(), 0x208);
    let cpu = run_all(&[0x6105, 0x6206, 0x5120]);
    assert_eq!(cpu.pc(), 0x206);
    let cpu = run_all(&[0x6105, 0x6206, 0x9120]);
    assert_eq!(cpu.pc(), 0x208);
    let cpu = run_all(&[0x6105, 0x6205, 0x9120]);
    assert_eq!(cpu.pc(), 0x206);
}

#[test]
fn jump_sets_program_counter() {
    let cpu = run_all(&[0x1ABC]);
    assert_eq!(cpu.pc(), 0xABC);
    assert_eq!(cpu.stack_pointer(), 0);
}

#[test]
fn jump_with_offset_adds_v0() {
    let cpu = run_all(&[0x6010, 0xB300]);
    assert_eq!(cpu.pc(), 0x310);
    let mut cpu = run_all(&[0x60FF, 0xBFFF]);
    assert_eq!(cpu.pc(), 0x10FE);
    assert_eq!(cpu.step_with(0), Err(Chip8Error::FetchOutOfBounds));
}

#[test]
fn load_index_and_add_index() {
    let cpu = run_all(&[0xA123, 0x6010, 0xF01E]);
    assert_eq!(cpu.index(), 0x133);
}

#[test]
fn add_index_wraps_past_the_address_space() {
    let cpu = run_all(&[0xAFFF, 0x6001, 0xF01E]);
    assert_eq!(cpu.index(), 0x000);
    let cpu = run_all(&[0x6FAA, 0xAFF0, 0x60FF, 0xF01E]);
    assert_eq!(cpu.index(), 0x0EF);
    assert_eq!(cpu.registers()[0xF], 0xAA);
    let cpu = run_all(&[0xAF00, 0x60FF, 0xF01E]);
    assert_eq!(cpu.index(), 0xFFF);
}

#[test]
fn font_glyph_address_is_five_bytes_per_digit() {
    let cpu = run_all(&[0x6000, 0xF029]);
    assert_eq!(cpu.index(), 0);
    let cpu = run_all(&[0x6001, 0xF029]);
    assert_eq!(cpu.index(), 5);
    let cpu = run_all(&[0x600F, 0xF029]);
    assert_eq!(cpu.index(), 75);
    let cpu = run_all(&[0x60A7, 0xF029]);
    assert_eq!(cpu.index(), 35);
}

#[test]
fn timers_are_set_and_read() {
    let cpu = run_all(&[0x6142, 0xF115, 0x6207, 0xF218, 0xF307]);
    assert_eq!(cpu.delay_timer(), 0x42);
    assert_eq!(cpu.sound_timer(), 0x07);
    assert_eq!(cpu.registers()[3], 0x42);
}

#[test]
fn bcd_stores_three_digits() {
    let cpu = run_all(&[0x60FE, 0xA300, 0xF033]);
    assert_eq!(&cpu.memory()[0x300..0x303], &[2, 5, 4]);
    let cpu = run_all(&[0x6007, 0xA300, 0xF033]);
    assert_eq!(&cpu.memory()[0x300..0x303], &[0, 0, 7]);
    let cpu = run_all(&[0x6064, 0xAFFD, 0xF033]);
    assert_eq!(&cpu.memory()[0xFFD..0x1000], &[1, 0, 0]);
}

#[test]
fn store_registers_is_inclusive_of_x() {
    let cpu = run_all(&[0x6011, 0x6122, 0x6233, 0x6344, 0xA400, 0xF255]);
    assert_eq!(&cpu.memory()[0x400..0x404], &[0x11, 0x22, 0x33, 0x00]);
    assert_eq!(cpu.index(), 0x400);
    let cpu = run_all(&[0x6011, 0x6122, 0xA400, 0xF055]);
    assert_eq!(&cpu.memory()[0x400..0x402], &[0x11, 0x00]);
}

#[test]
fn load_registers_is_inclusive_of_x() {
    let mut cpu = machine(&[0xA20A, 0x63EE, 0xF265, 0x0000, 0x0000, 0x1122, 0x3344]);
    for _ in 0..3 {
        cpu.step_with(0).unwrap();
    }
    assert_eq!(&cpu.registers()[0..4], &[0x11, 0x22, 0x33, 0xEE]);
    assert_eq!(cpu.index(), 0x20A);
}

#[test]
fn store_then_load_restores_registers() {
    let mut program = Vec::new();
    for x in 0..16u16 {
        program.push(0x6000 | (x << 8) | (0x10 + x));
    }
    program.push(0xA600);
    program.push(0xFF55);
    for x in 0..16u16 {
        program.push(0x6000 | (x << 8) | 0xFF);
    }
    program.push(0xF765);
    let cpu = run_all(&program);
    for x in 0..8usize {
        assert_eq!(cpu.registers()[x], 0x10 + x as u8);
    }
    for x in 8..16usize {
        assert_eq!(cpu.registers()[x], 0xFF);
    }
}

#[test]
fn random_is_masked_by_the_immediate() {
    let mut cpu = machine(&[0xC10F, 0xC2F0, 0xC300, 0xC4FF]);
    for _ in 0..4 {
        cpu.step_with(0xA5).unwrap();
    }
    assert_eq!(&cpu.registers()[1..5], &[0x05, 0xA0, 0x00, 0xA5]);
}

#[test]
fn random_from_the_generator_is_masked() {
    for _ in 0..200 {
        let mut cpu = machine(&[0x61FF, 0xC10F, 0x62FF, 0xC200]);
        for _ in 0..4 {
            cpu.step().unwrap();
        }
        assert!(cpu.registers()[1] <= 0x0F);
        assert_eq!(cpu.registers()[2], 0);
    }
}

#[test]
fn random_from_the_generator_varies() {
    let mut seen = [false; 256];
    for _ in 0..20000 {
        let mut cpu = machine(&[0xC0FF]);
        cpu.step().unwrap();
        seen[cpu.registers()[0] as usize] = true;
    }
    assert!(seen[0] && seen[255]);
    assert!(seen.iter().filter(|s| **s).count() > 250);
}

#[test]
fn skip_on_key_state() {
    let mut cpu = machine(&[0x6107, 0xE19E, 0x0000, 0xE1A1]);
    cpu.set_key(7, true).unwrap();
    cpu.step_with(0).unwrap();
    cpu.step_with(0).unwrap();
    assert_eq!(cpu.pc(), 0x206);
    cpu.step_with(0).unwrap();
    assert_eq!(cpu.pc(), 0x208);

    let mut cpu = machine(&[0x6107, 0xE19E, 0xE1A1]);
    cpu.step_with(0).unwrap();
    cpu.step_with(0).unwrap();
    assert_eq!(cpu.pc(), 0x204);
    cpu.step_with(0).unwrap();
    assert_eq!(cpu.pc(), 0x208);
}

#[test]
fn key_index_uses_the_low_four_bits() {
    let mut cpu = machine(&[0x61F3, 0xE19E]);
    cpu.set_key(3, true).unwrap();
    cpu.step_with(0).unwrap();
    cpu.step_with(0).unwrap();
    assert_eq!(cpu.pc(), 0x206);
}

#[test]
fn call_and_return_restore_counter_and_stack() {
    let mut cpu = machine(&[0x2206, 0x0000, 0x0000, 0x00EE]);
    assert_eq!(cpu.step_with(0), Ok(Instruction::Call { addr: 0x206 }));
    assert_eq!(cpu.pc(), 0x206);
    assert_eq!(cpu.stack_pointer(), 1);
    assert_eq!(cpu.step_with(0), Ok(Instruction::Return));
    assert_eq!(cpu.pc(), 0x202);
    assert_eq!(cpu.stack_pointer(), 0);
}

#[test]
fn nested_calls_return_in_order() {
    let mut cpu = machine(&[0x2204, 0x1FFF, 0x2208, 0x00EE, 0x00EE]);
    cpu.step_with(0).unwrap();
    cpu.step_with(0).unwrap();
    assert_eq!((cpu.pc(), cpu.stack_pointer()), (0x208, 2));
    cpu.step_with(0).unwrap();
    assert_eq!((cpu.pc(), cpu.stack_pointer()), (0x206, 1));
    cpu.step_with(0).unwrap();
    assert_eq!((cpu.pc(), cpu.stack_pointer()), (0x202, 0));
}

#[test]
fn clear_screen_darkens_every_pixel() {
    let mut cpu = machine(&[0xA206, 0xD005, 0x00E0, 0xFFFF, 0xFFFF, 0xFFFF]);
    cpu.step_with(0).unwrap();
    cpu.step_with(0).unwrap();
    assert_eq!(cpu.framebuffer().iter().filter(|c| **c == 1).count(), 40);
    assert!(cpu.framebuffer().iter().any(|c| *c == 1));
    assert_eq!(cpu.step_with(0), Ok(Instruction::ClearScreen));
    assert!(cpu.framebuffer().iter().all(|c| *c == 0));
}
