use chip8::Chip8;

fn run_program(program: &[u8], ticks: usize) -> Chip8 {
    let mut c = Chip8::new();
    c.load_program(program).unwrap();
    for _ in 0..ticks {
        c.tick(0).unwrap();
    }
    c
}

// One all-ones sprite row drawn at (V0, V1), with the row byte stored right
// after the instructions at 0x20A.
const DRAW_ONE_ROW: [u8; 12] = [
    0x60, 0x3F, // V0 = 63
    0x61, 0x00, // V1 = 0
    0xA2, 0x0A, // I = 0x20A
    0xD0, 0x11, // draw one row at (V0, V1)
    0xD0, 0x11, // draw it again (only reached by the collision test)
    0xFF, 0x00, // sprite data: one all-ones row
];

#[test]
fn draw_wraps_around_the_right_edge() {
    // Drawn at x = 63, the leftmost sprite bit lands at 63 and the other
    // seven wrap to x = 0..=6.
    let c = run_program(&DRAW_ONE_ROW, 4);
    assert_eq!(c.get_pixel(63, 0), 1);
    for x in 0..7 {
        assert_eq!(c.get_pixel(x, 0), 1);
    }
    for x in 7..63 {
        assert_eq!(c.get_pixel(x, 0), 0);
    }
    for y in 1..32 {
        for x in 0..64 {
            assert_eq!(c.get_pixel(x, y), 0);
        }
    }
    assert_eq!(c.get_register(15), 0);
}

#[test]
fn drawing_the_same_sprite_twice_clears_it_and_collides() {
    let c = run_program(&DRAW_ONE_ROW, 5);
    for y in 0..32 {
        for x in 0..64 {
            assert_eq!(c.get_pixel(x, y), 0);
        }
    }
    assert_eq!(c.get_register(15), 1);
}

#[test]
fn draw_wraps_around_the_bottom_edge() {
    let program = [
        0x60, 0x00, // V0 = 0
        0x61, 0x1F, // V1 = 31
        0xA2, 0x08, // I = 0x208
        0xD0, 0x12, // draw two rows at (0, 31)
        0x80, 0x80, // sprite data: 0x80 0x80, one pixel per row
    ];
    let c = run_program(&program, 4);
    assert_eq!(c.get_pixel(0, 31), 1);
    assert_eq!(c.get_pixel(0, 0), 1);
    assert_eq!(c.get_pixel(0, 1), 0);
    assert_eq!(c.get_register(15), 0);
}

#[test]
fn draw_clears_a_stale_flag_when_nothing_collides() {
    let program = [
        0x60, 0xFF, // V0 = 0xFF
        0x80, 0x04, // V0 += V0: sets the flag to 1 (carry)
        0x60, 0x00, // V0 = 0
        0x61, 0x00, // V1 = 0
        0xA2, 0x0C, // I = 0x20C
        0xD0, 0x11, // draw one row: no collision, so the flag must drop to 0
        0xFF, 0x00, // sprite data
    ];
    let mut c = Chip8::new();
    c.load_program(&program).unwrap();
    c.tick(0).unwrap();
    c.tick(0).unwrap();
    assert_eq!(c.get_register(15), 1);
    for _ in 0..4 {
        c.tick(0).unwrap();
    }
    assert_eq!(c.get_register(15), 0);
    assert_eq!(c.get_pixel(0, 0), 1);
}

#[test]
fn draw_xors_overlapping_sprites() {
    let program = [
        0x60, 0x00, // V0 = 0
        0x61, 0x00, // V1 = 0
        0xA2, 0x0C, // I = 0x20C: 0xFF row
        0xD0, 0x11, // draw 11111111 at (0, 0)
        0xA2, 0x0D, // I = 0x20D: 0x0F row
        0xD0, 0x11, // draw 00001111 on top
        0xFF, 0x0F, // sprite data
    ];
    let c = run_program(&program, 6);
    for x in 0..4 {
        assert_eq!(c.get_pixel(x, 0), 1);
    }
    for x in 4..8 {
        assert_eq!(c.get_pixel(x, 0), 0);
    }
    assert_eq!(c.get_register(15), 1);
}

#[test]
fn clear_display_turns_every_pixel_off() {
    let program = [
        0x60, 0x00, // V0 = 0
        0x61, 0x00, // V1 = 0
        0xA2, 0x0A, // I = 0x20A
        0xD0, 0x11, // draw one row
        0x00, 0xE0, // clear
        0xFF, 0x00, // sprite data
    ];
    let mut c = Chip8::new();
    c.load_program(&program).unwrap();
    for _ in 0..4 {
        c.tick(0).unwrap();
    }
    assert_eq!(c.get_pixel(0, 0), 1);
    c.tick(0).unwrap();
    for y in 0..32 {
        for x in 0..64 {
            assert_eq!(c.get_pixel(x, y), 0);
        }
    }
}

#[test]
fn draw_of_zero_rows_touches_nothing_but_the_flag() {
    // A stale flag from a carry is still cleared by a zero-height draw.
    let program = [
        0x60, 0xFF, // V0 = 0xFF
        0x80, 0x04, // V0 += V0: flag = 1
        0xA2, 0x08, // I = 0x208
        0xD0, 0x10, // draw zero rows
    ];
    let c = run_program(&program, 4);
    assert_eq!(c.get_register(15), 0);
    for y in 0..32 {
        for x in 0..64 {
            assert_eq!(c.get_pixel(x, y), 0);
        }
    }
}

#[test]
fn draw_reads_the_builtin_font() {
    // Point I at the glyph for 0 and draw its five rows: 0xF0 0x90 0x90 0x90 0xF0.
    let program = [
        0x60, 0x00, // V0 = 0 (digit and origin)
        0x61, 0x00, // V1 = 0
        0xF0, 0x29, // I = glyph address for digit V0
        0xD0, 0x15, // draw five rows at (0, 0)
    ];
    let c = run_program(&program, 4);
    // Top row of the 0 glyph: 11110000.
    for x in 0..4 {
        assert_eq!(c.get_pixel(x, 0), 1);
    }
    for x in 4..8 {
        assert_eq!(c.get_pixel(x, 0), 0);
    }
    // Middle row: 10010000.
    assert_eq!(c.get_pixel(0, 1), 1);
    assert_eq!(c.get_pixel(1, 1), 0);
    assert_eq!(c.get_pixel(2, 1), 0);
    assert_eq!(c.get_pixel(3, 1), 1);
}
