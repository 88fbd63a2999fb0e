use chip8::{Chip8Error, Instruction, CPU};

const FONT: [u8; 80] = [
    0xF0, 0x90, 0x90, 0x90, 0xF0, 0x20, 0x60, 0x20, 0x20, 0x70, 0xF0, 0x10, 0xF0, 0x80, 0xF0, 0xF0,
    0x10, 0xF0, 0x10, 0xF0, 0x90, 0x90, 0xF0, 0x10, 0x10, 0xF0, 0x80, 0xF0, 0x10, 0xF0, 0xF0, 0x80,
    0xF0, 0x90, 0xF0, 0xF0, 0x10, 0x20, 0x40, 0x40, 0xF0, 0x90, 0xF0, 0x90, 0xF0, 0xF0, 0x90, 0xF0,
    0x10, 0xF0, 0xF0, 0x90, 0xF0, 0x90, 0x90, 0xE0, 0x90, 0xE0, 0x90, 0xE0, 0xF0, 0x80, 0x80, 0x80,
    0xF0, 0xE0, 0x90, 0x90, 0x90, 0xE0, 0xF0, 0x80, 0xF0, 0x80, 0xF0, 0xF0, 0x80, 0xF0, 0x80, 0x80,
];

fn bytes(program: &[u16]) -> Vec<u8> {
    let mut rom = Vec::new();
    for word in program {
        rom.push((word >> 8) as u8);
        rom.push((word & 0xFF) as u8);
    }
    rom
}

fn loaded(program: &[u16]) -> CPU {
    let mut cpu = CPU::new();
    cpu.load_rom(&bytes(program)).unwrap();
    cpu.load_font(&FONT);
    cpu
}

fn lit(cpu: &CPU) -> Vec<(usize, usize)> {
    let mut cells = Vec::new();
    for (k, cell) in cpu.framebuffer().iter().enumerate() {
        assert!(*cell <= 1);
        if *cell == 1 {
            cells.push((k % 64, k / 64));
        }
    }
    cells
}

fn glyph_cells(digit: usize, x: usize, y: usize) -> Vec<(usize, usize)> {
    let mut cells = Vec::new();
    for row in 0..5 {
        for bit in 0..8 {
            if FONT[5 * digit + row] & (0x80 >> bit) != 0 {
                cells.push((x + bit, y + row));
            }
        }
    }
    cells
}

#[test]
fn clear_and_draw_shows_the_zero_glyph() {
    let mut cpu = loaded(&[0x00E0, 0x6000, 0x6100, 0xA000, 0xD015, 0x1FFF]);
    for _ in 0..5 {
        cpu.step_with(0).unwrap();
    }
    assert_eq!(lit(&cpu), glyph_cells(0, 0, 0));
    assert_eq!(
        lit(&cpu),
        vec![
            (0, 0), (1, 0), (2, 0), (3, 0),
            (0, 1), (3, 1),
            (0, 2), (3, 2),
            (0, 3), (3, 3),
            (0, 4), (1, 4), (2, 4), (3, 4),
        ]
    );
    assert_eq!(cpu.registers()[0xF], 0);
    assert_eq!(cpu.step_with(0), Ok(Instruction::Jump { addr: 0xFFF }));
    assert_eq!(cpu.pc(), 0xFFF);
    assert_eq!(cpu.step_with(0), Err(Chip8Error::FetchOutOfBounds));
}

#[test]
fn draw_with_the_glyph_address_from_the_font_instruction() {
    let mut cpu = loaded(&[0x6A07, 0xFA29, 0x600A, 0x6114, 0xD015]);
    for _ in 0..5 {
        cpu.step_with(0).unwrap();
    }
    assert_eq!(cpu.index(), 35);
    assert_eq!(lit(&cpu), glyph_cells(7, 10, 20));
    assert_eq!(cpu.registers()[0xF], 0);
}

#[test]
fn drawing_twice_erases_and_reports_the_collision() {
    let mut cpu = loaded(&[0x6F00, 0xA000, 0xD005, 0xD005]);
    for _ in 0..3 {
        cpu.step_with(0).unwrap();
    }
    assert_eq!(cpu.registers()[0xF], 0);
    assert_eq!(lit(&cpu).len(), 14);
    cpu.step_with(0).unwrap();
    assert_eq!(cpu.registers()[0xF], 1);
    assert!(lit(&cpu).is_empty());
}

#[test]
fn draw_resets_the_flag_when_nothing_collides() {
    let mut cpu = loaded(&[0x6F01, 0xA000, 0x6008, 0xD105, 0xD015]);
    for _ in 0..4 {
        cpu.step_with(0).unwrap();
    }
    assert_eq!(cpu.registers()[0xF], 0);
    cpu.step_with(0).unwrap();
    assert_eq!(cpu.registers()[0xF], 0);
    let mut expected = glyph_cells(0, 8, 0);
    expected.extend(glyph_cells(0, 0, 8));
    assert_eq!(lit(&cpu), expected);
}

#[test]
fn overlapping_sprites_toggle_pixels() {
    let mut cpu = loaded(&[0xA000, 0x6002, 0xD115, 0xD015]);
    for _ in 0..4 {
        cpu.step_with(0).unwrap();
    }
    assert_eq!(cpu.registers()[0xF], 1);
    let first = glyph_cells(0, 0, 0);
    let second = glyph_cells(0, 2, 0);
    let mut expected: Vec<(usize, usize)> = first
        .iter()
        .filter(|c| !second.contains(c))
        .chain(second.iter().filter(|c| !first.contains(c)))
        .cloned()
        .collect();
    expected.sort_by_key(|(x, y)| (*y, *x));
    assert_eq!(lit(&cpu), expected);
}

#[test]
fn draw_clips_at_the_right_edge() {
    let mut cpu = loaded(&[0x603E, 0x6100, 0xA000, 0xD015]);
    for _ in 0..4 {
        cpu.step_with(0).unwrap();
    }
    assert_eq!(
        lit(&cpu),
        vec![(62, 0), (63, 0), (62, 1), (62, 2), (62, 3), (62, 4), (63, 4)]
    );
    assert_eq!(cpu.registers()[0xF], 0);
}

#[test]
fn draw_clips_at_the_bottom_edge() {
    let mut cpu = loaded(&[0x6000, 0x611E, 0xA000, 0xD015]);
    for _ in 0..4 {
        cpu.step_with(0).unwrap();
    }
    assert_eq!(lit(&cpu), vec![(0, 30), (1, 30), (2, 30), (3, 30), (0, 31), (3, 31)]);
    assert_eq!(cpu.registers()[0xF], 0);
}

#[test]
fn draw_outside_the_display_draws_nothing() {
    for (vx, vy) in [(64u16, 0u16), (0, 32), (255, 255), (200, 10), (10, 200)] {
        let mut cpu = loaded(&[0x6000 | vx, 0x6100 | vy, 0x6F01, 0xA000, 0xD015]);
        for _ in 0..5 {
            cpu.step_with(0).unwrap();
        }
        assert!(lit(&cpu).is_empty());
        assert_eq!(cpu.registers()[0xF], 0);
    }
}

#[test]
fn draw_of_zero_rows_only_resets_the_flag() {
    let mut cpu = loaded(&[0x6F01, 0xAFFF, 0xD000]);
    for _ in 0..3 {
        cpu.step_with(0).unwrap();
    }
    assert!(lit(&cpu).is_empty());
    assert_eq!(cpu.registers()[0xF], 0);
    assert_eq!(cpu.pc(), 0x206);
}

#[test]
fn draw_reads_coordinates_before_it_resets_the_flag() {
    let mut cpu = loaded(&[0x6F03, 0x6100, 0xA000, 0xDF11]);
    for _ in 0..4 {
        cpu.step_with(0).unwrap();
    }
    assert_eq!(lit(&cpu), vec![(3, 0), (4, 0), (5, 0), (6, 0)]);
    assert_eq!(cpu.registers()[0xF], 0);
}

#[test]
fn draw_of_fifteen_rows_uses_every_bit() {
    let mut program = vec![0xA208, 0x6005, 0x6103, 0xD01F];
    program.extend([0xFFFFu16; 8]);
    let mut cpu = loaded(&program);
    for _ in 0..4 {
        cpu.step_with(0).unwrap();
    }
    let mut expected = Vec::new();
    for y in 3..18 {
        for x in 5..13 {
            expected.push((x, y));
        }
    }
    assert_eq!(lit(&cpu), expected);
}

#[test]
fn skip_advances_by_four() {
    let mut cpu = loaded(&[0x6005, 0x3005]);
    cpu.step_with(0).unwrap();
    let before = cpu.pc();
    assert_eq!(cpu.step_with(0), Ok(Instruction::SkipEqImm { x: 0, nn: 5 }));
    assert_eq!(cpu.pc(), before + 4);
}

#[test]
fn key_wait_blocks_until_a_key_is_down() {
    let mut cpu = loaded(&[0xF30A, 0x6455]);
    for _ in 0..10 {
        assert_eq!(cpu.step_with(0), Ok(Instruction::WaitKey { x: 3 }));
        assert_eq!(cpu.pc(), 0x200);
        assert!(cpu.is_waiting());
        assert_eq!(cpu.registers(), &[0u8; 16]);
    }
    cpu.set_key(7, true).unwrap();
    assert_eq!(cpu.step_with(0), Ok(Instruction::WaitKey { x: 3 }));
    assert_eq!(cpu.registers()[3], 7);
    assert!(!cpu.is_waiting());
    assert_eq!(cpu.pc(), 0x200);
    assert_eq!(cpu.step_with(0), Ok(Instruction::WaitKey { x: 3 }));
    assert_eq!(cpu.pc(), 0x202);
    assert!(!cpu.is_waiting());
    assert_eq!(cpu.step_with(0), Ok(Instruction::LoadImm { x: 4, nn: 0x55 }));
    assert_eq!(cpu.pc(), 0x204);
    assert_eq!(cpu.registers()[4], 0x55);
}

#[test]
fn key_wait_with_a_key_already_down_does_not_block() {
    let mut cpu = loaded(&[0xF30A]);
    cpu.set_key(0xB, true).unwrap();
    cpu.step_with(0).unwrap();
    assert_eq!(cpu.registers()[3], 0xB);
    assert!(!cpu.is_waiting());
    assert_eq!(cpu.pc(), 0x202);
}

#[test]
fn key_wait_takes_the_lowest_key_that_is_down() {
    let mut cpu = loaded(&[0xF30A]);
    cpu.step_with(0).unwrap();
    cpu.set_key(0xC, true).unwrap();
    cpu.set_key(0x4, true).unwrap();
    cpu.set_key(0x9, true).unwrap();
    cpu.step_with(0).unwrap();
    assert_eq!(cpu.registers()[3], 0x4);
}

#[test]
fn key_wait_blocks_again_when_the_key_is_released() {
    let mut cpu = loaded(&[0xF30A]);
    cpu.step_with(0).unwrap();
    cpu.set_key(0x0, true).unwrap();
    cpu.step_with(0).unwrap();
    assert!(!cpu.is_waiting());
    cpu.set_key(0x0, false).unwrap();
    cpu.step_with(0).unwrap();
    assert!(cpu.is_waiting());
    assert_eq!(cpu.pc(), 0x200);
}

#[test]
fn reset_and_reload_runs_like_a_new_machine() {
    let rom = bytes(&[
        0xC0FF, 0xC1FF, 0xA300, 0xF155, 0x8014, 0x6205, 0xF229, 0xD015, 0x2214, 0x1200, 0xF033,
        0xF115, 0x00EE,
    ]);
    let randoms: Vec<u8> = (0..200u32).map(|k| (k * 37 + 11) as u8).collect();

    let mut fresh = CPU::new();
    fresh.load_rom(&rom).unwrap();
    assert_eq!(fresh.run_with(&randoms), Ok(()));

    let mut reused = CPU::new();
    reused.load_rom(&bytes(&[0x60FF, 0xA400, 0xF055, 0xF00A])).unwrap();
    reused.load_font(&FONT);
    reused.set_key(5, true).unwrap();
    assert_eq!(reused.run_with(&[1, 2, 3, 4, 5, 6]), Ok(()));
    reused.reset();
    reused.load_rom(&rom).unwrap();
    assert_eq!(reused.run_with(&randoms), Ok(()));
    assert_eq!(reused, fresh);

    reused.reset();
    reused.load_rom(&rom).unwrap();
    assert_eq!(reused.run_with(&randoms[..50]), Ok(()));
    assert_eq!(reused.run_with(&randoms[50..]), Ok(()));
    assert_eq!(reused, fresh);
    assert_ne!(fresh.registers()[0], 0);
}

#[test]
fn cells_are_always_zero_or_one() {
    let rom = bytes(&[0xA200, 0xC03F, 0xC11F, 0xD01F, 0x1202]);
    let mut cpu = CPU::new();
    cpu.load_rom(&rom).unwrap();
    let mut seed: u32 = 12345;
    for k in 0..3000u32 {
        seed = seed.wrapping_mul(1103515245).wrapping_add(12345);
        cpu.step_with((seed >> 16) as u8).unwrap();
        assert!(cpu.framebuffer().iter().all(|c| *c <= 1));
        if k == 3 {
            assert!(cpu.framebuffer().iter().any(|c| *c == 1));
        }
    }
}
