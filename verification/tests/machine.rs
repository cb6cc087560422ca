//! Tests of the machine as a whole: reset and the font table, the timer,
//! sprite drawing with wraparound and collision, the keypad skips, and the
//! explicit policies for the conditions the instruction table leaves open.

use chip8::cpu::Cpu;
use chip8::display::Display;

#[test]
fn test_new_is_zeroed() {
    let cpu = Cpu::new();
    assert_eq!(cpu.pc(), 0);
    assert_eq!(cpu.i(), 0);
    assert_eq!(cpu.sp(), 0);
    assert_eq!(cpu.dt(), 0);
    for k in 0..16 {
        assert_eq!(cpu.reg(k), 0);
        assert_eq!(cpu.stack_at(k), 0);
        assert!(!cpu.key(k));
    }
    for addr in 0..4096 {
        assert_eq!(cpu.memory_at(addr), 0);
    }
    for x in 0..64 {
        for y in 0..32 {
            assert!(!cpu.pixel(x, y));
        }
    }
}

#[test]
fn test_reset_loads_font_and_keeps_keys() {
    let mut cpu = Cpu::new();
    cpu.set_mem(0x300, 0xAB);
    cpu.set_dt(17);
    cpu.set_pixel();
    cpu.key_down(2);
    cpu.reset();
    assert_eq!(cpu.pc(), 0x200);
    assert_eq!(cpu.i(), 0);
    assert_eq!(cpu.sp(), 0);
    assert_eq!(cpu.dt(), 0);
    // The first glyph (0) and the last glyph (F).
    assert_eq!(cpu.memory_at(0), 0xF0);
    assert_eq!(cpu.memory_at(1), 0x90);
    assert_eq!(cpu.memory_at(4), 0xF0);
    assert_eq!(cpu.memory_at(75), 0xF0);
    assert_eq!(cpu.memory_at(79), 0x80);
    // Memory beyond the font region is zeroed again.
    assert_eq!(cpu.memory_at(80), 0);
    assert_eq!(cpu.memory_at(0x300), 0);
    // The screen is cleared; the keypad is not.
    assert!(!cpu.pixel(0, 0));
    assert!(cpu.key(2));
    assert!(!cpu.key(3));
}

#[test]
fn test_set_index_advances_pc() {
    let mut cpu = Cpu::new();
    cpu.set_mem(0, 0xA5);
    cpu.set_mem(1, 0x44);
    cpu.set_pc(0);
    cpu.process_opcode();
    assert_eq!(cpu.i(), 0x544);
    assert_eq!(cpu.pc(), 2);
}

#[test]
fn test_clear_screen() {
    let mut cpu = Cpu::new();
    cpu.set_pixel();
    assert!(cpu.pixel(0, 0));
    cpu.set_mem(0, 0x00);
    cpu.set_mem(1, 0xE0);
    cpu.set_pc(0);
    cpu.process_opcode();
    assert!(!cpu.pixel(0, 0));
    assert_eq!(cpu.pc(), 2);
}

#[test]
fn test_timer_clamps_at_zero() {
    let mut cpu = Cpu::new();
    cpu.set_dt(5);
    for _ in 0..5 {
        cpu.decrement_timers();
    }
    assert_eq!(cpu.dt(), 0);
    cpu.decrement_timers();
    assert_eq!(cpu.dt(), 0);
}

#[test]
fn test_wait_key_is_noop() {
    let mut cpu = Cpu::new();
    cpu.set_mem(0, 0xF3);
    cpu.set_mem(1, 0x0A);
    cpu.set_pc(0);
    cpu.set_reg(3, 0x42);
    cpu.set_dt(9);
    cpu.set_i(0x123);
    cpu.process_opcode();
    assert_eq!(cpu.pc(), 2);
    assert_eq!(cpu.reg(3), 0x42);
    assert_eq!(cpu.dt(), 9);
    assert_eq!(cpu.i(), 0x123);
    assert_eq!(cpu.sp(), 0);
}

#[test]
fn test_sound_timer_is_noop() {
    let mut cpu = Cpu::new();
    cpu.set_mem(0, 0xF5);
    cpu.set_mem(1, 0x18);
    cpu.set_pc(0);
    cpu.set_reg(5, 0x99);
    cpu.set_dt(3);
    cpu.process_opcode();
    assert_eq!(cpu.pc(), 2);
    assert_eq!(cpu.reg(5), 0x99);
    assert_eq!(cpu.dt(), 3);
}

#[test]
fn test_unknown_opcode_is_noop() {
    // 5xy1 matches no defined pattern, so it is silently ignored even
    // where Vx equals Vy.
    let mut cpu = Cpu::new();
    cpu.set_mem(0, 0x50);
    cpu.set_mem(1, 0x11);
    cpu.set_pc(0);
    cpu.set_reg(0, 7);
    cpu.set_reg(1, 7);
    cpu.process_opcode();
    assert_eq!(cpu.pc(), 2);
}

#[test]
fn test_return_with_empty_stack_is_ignored() {
    let mut cpu = Cpu::new();
    cpu.set_mem(0, 0x00);
    cpu.set_mem(1, 0xEE);
    cpu.set_pc(0);
    cpu.set_sp(0);
    cpu.process_opcode();
    assert_eq!(cpu.sp(), 0);
    assert_eq!(cpu.pc(), 2);
}

#[test]
fn test_call_with_full_stack_is_ignored() {
    let mut cpu = Cpu::new();
    cpu.set_mem(0, 0x26);
    cpu.set_mem(1, 0x55);
    cpu.set_pc(0);
    cpu.set_sp(16);
    cpu.process_opcode();
    assert_eq!(cpu.sp(), 16);
    assert_eq!(cpu.pc(), 2);
}

#[test]
fn test_add_to_i_wraps() {
    let mut cpu = Cpu::new();
    cpu.set_mem(0, 0xF0);
    cpu.set_mem(1, 0x1E);
    cpu.set_pc(0);
    cpu.set_i(0xFFFF);
    cpu.set_reg(0, 2);
    cpu.process_opcode();
    assert_eq!(cpu.i(), 1);
}

#[test]
fn test_random_masked_by_zero() {
    let mut cpu = Cpu::new();
    cpu.set_mem(0, 0xC0);
    cpu.set_mem(1, 0x00);
    cpu.set_pc(0);
    cpu.set_reg(0, 0xAA);
    cpu.process_opcode();
    assert_eq!(cpu.reg(0), 0);
    assert_eq!(cpu.pc(), 2);
}

#[test]
fn test_random_masked_to_low_bit() {
    let mut cpu = Cpu::new();
    cpu.set_mem(0, 0xC7);
    cpu.set_mem(1, 0x01);
    cpu.set_pc(0);
    cpu.process_opcode();
    assert!(cpu.reg(7) <= 1);
}

#[test]
fn test_skip_if_key_down() {
    let mut cpu = Cpu::new();
    cpu.set_mem(0, 0xE4);
    cpu.set_mem(1, 0x9E);
    cpu.set_mem(2, 0xE4);
    cpu.set_mem(3, 0x9E);
    cpu.set_pc(0);
    cpu.set_reg(4, 7);
    cpu.process_opcode();
    assert_eq!(cpu.pc(), 2);
    cpu.key_down(7);
    cpu.process_opcode();
    assert_eq!(cpu.pc(), 6);
}

#[test]
fn test_skip_if_key_up() {
    let mut cpu = Cpu::new();
    cpu.set_mem(0, 0xE4);
    cpu.set_mem(1, 0xA1);
    cpu.set_mem(2, 0xE4);
    cpu.set_mem(3, 0xA1);
    cpu.set_pc(0);
    cpu.set_reg(4, 7);
    cpu.process_opcode();
    assert_eq!(cpu.pc(), 4);
    cpu.key_down(7);
    cpu.process_opcode();
    assert_eq!(cpu.pc(), 6);
}

#[test]
fn test_key_index_masked_to_nibble() {
    let mut cpu = Cpu::new();
    cpu.set_mem(0, 0xE0);
    cpu.set_mem(1, 0x9E);
    cpu.set_pc(0);
    cpu.set_reg(0, 0x17);
    cpu.key_down(7);
    cpu.process_opcode();
    assert_eq!(cpu.pc(), 4);
}

#[test]
fn test_draw_wraps_around_right_edge() {
    let mut cpu = Cpu::new();
    cpu.set_i(0x300);
    cpu.set_mem(0x300, 0xFF);
    cpu.set_reg(0, 60);
    cpu.set_reg(1, 5);
    cpu.set_mem(0, 0xD0);
    cpu.set_mem(1, 0x11);
    cpu.set_pc(0);
    cpu.process_opcode();
    for x in [60, 61, 62, 63, 0, 1, 2, 3] {
        assert!(cpu.pixel(x, 5));
    }
    for x in [4, 30, 59] {
        assert!(!cpu.pixel(x, 5));
    }
    assert!(!cpu.pixel(60, 4));
    assert!(!cpu.pixel(60, 6));
    assert_eq!(cpu.reg(0xF), 0);
}

#[test]
fn test_draw_twice_restores_and_collides() {
    let mut cpu = Cpu::new();
    cpu.set_i(0x300);
    cpu.set_mem(0x300, 0x3C);
    cpu.set_mem(0x301, 0xC3);
    cpu.set_reg(0, 10);
    cpu.set_reg(1, 30);
    cpu.set_mem(0, 0xD0);
    cpu.set_mem(1, 0x12);
    cpu.set_mem(2, 0xD0);
    cpu.set_mem(3, 0x12);
    cpu.set_pc(0);
    cpu.process_opcode();
    assert_eq!(cpu.reg(0xF), 0);
    assert!(cpu.pixel(12, 30));
    assert!(cpu.pixel(10, 31));
    cpu.process_opcode();
    assert_eq!(cpu.reg(0xF), 1);
    for x in 0..64 {
        for y in 0..32 {
            assert!(!cpu.pixel(x, y));
        }
    }
}

#[test]
fn test_draw_wraps_around_bottom_edge() {
    let mut cpu = Cpu::new();
    cpu.set_i(0x300);
    cpu.set_mem(0x300, 0x80);
    cpu.set_mem(0x301, 0x80);
    cpu.set_reg(0, 0);
    cpu.set_reg(1, 31);
    cpu.set_mem(0, 0xD0);
    cpu.set_mem(1, 0x12);
    cpu.set_pc(0);
    cpu.process_opcode();
    assert!(cpu.pixel(0, 31));
    assert!(cpu.pixel(0, 0));
    assert!(!cpu.pixel(0, 1));
}

#[test]
fn test_draw_sprite_clipped_at_memory_end() {
    let mut cpu = Cpu::new();
    cpu.set_i(4095);
    cpu.set_mem(4095, 0x80);
    cpu.set_reg(0, 3);
    cpu.set_reg(1, 4);
    cpu.set_mem(0, 0xD0);
    cpu.set_mem(1, 0x13);
    cpu.set_pc(0);
    cpu.process_opcode();
    assert!(cpu.pixel(3, 4));
    assert!(!cpu.pixel(3, 5));
    assert!(!cpu.pixel(3, 6));
    assert_eq!(cpu.reg(0xF), 0);
}

#[test]
fn test_display_draw_reports_collision_per_draw() {
    let mut d = Display::new();
    let sprite: Vec<u8> = vec![0xFF];
    let col1 = d.draw(60, 5, &sprite);
    assert!(!col1);
    assert!(d.get_pixel(60, 5));
    assert!(d.get_pixel(3, 5));
    let col2 = d.draw(60, 5, &sprite);
    assert!(col2);
    for x in 0..64 {
        for y in 0..32 {
            assert!(!d.get_pixel(x, y));
        }
    }
}

#[test]
fn test_display_set_and_get_pixel() {
    let mut d = Display::new();
    assert!(!d.get_pixel(7, 9));
    d.set_pixel(7, 9, true);
    assert!(d.get_pixel(7, 9));
    assert!(!d.get_pixel(9, 7));
    d.set_pixel(7, 9, false);
    assert!(!d.get_pixel(7, 9));
}

#[test]
fn test_display_cls() {
    let mut d = Display::new();
    d.set_pixel(0, 0, true);
    d.set_pixel(63, 31, true);
    d.cls();
    for x in 0..64 {
        for y in 0..32 {
            assert!(!d.get_pixel(x, y));
        }
    }
}

#[test]
fn test_keypad_latches() {
    let mut kp = chip8::keypad::Keypad::new();
    for k in 0..16 {
        assert!(!kp.is_key_down(k));
    }
    kp.key_down(0xA);
    assert!(kp.is_key_down(0xA));
    assert!(!kp.is_key_down(0xB));
    kp.key_down(0xA);
    assert!(kp.is_key_down(0xA));
    kp.key_up(0xA);
    assert!(!kp.is_key_down(0xA));
}
