use neoxide::ansi::{ANSICode, ColorValue};
use neoxide::frame::RenderBuffer;

#[test]
fn test_power2() {
    let val: u32 = 0b010000;
    assert_eq!(RenderBuffer::find_nearest_smaller_pow2(val), 16);
}

#[test]
fn test_power2_sanity_check() {
    let val: u32 = 0b000001;
    assert_eq!(RenderBuffer::find_nearest_smaller_pow2(val), 1);
}

#[test]
fn test_power2_multiple() {
    let val: u32 = 0b010001;
    let res = RenderBuffer::find_nearest_smaller_pow2(val);
    assert!(res == 16 || res == 1);
}

#[test]
fn test_power2_empty() {
    let val: u32 = 0;
    assert_eq!(RenderBuffer::find_nearest_smaller_pow2(val), 0);
}

#[test]
fn first_writer_wins_per_cell() {
    let mut rb = RenderBuffer::new(4, 1);
    rb.write(0, 0, 4, 'A');
    rb.write(0, 0, 4, 'B');
    rb.write_str(0, 0, 4, "xyz");
    let out = rb.flush();
    // The first write claimed cell 0, so neither 'B' nor 'x' lands there;
    // the later run still fills the free cells.
    assert_eq!(out, "Ayz@");
}

#[test]
fn flush_gap_fills_every_unclaimed_cell() {
    let mut rb = RenderBuffer::new(3, 1);
    let out = rb.flush();
    assert_eq!(out, "@@@");
}

#[test]
fn clear_leaves_no_stale_cells() {
    let mut rb = RenderBuffer::new(3, 1);
    rb.write(0, 0, 3, 'X');
    let first = rb.flush();
    assert_eq!(first, "X@@");
    rb.clear();
    let second = rb.flush();
    // Nothing of the previous frame survives a clear.
    assert_eq!(second, "@@@");
}

#[test]
fn positional_codes_emit_in_ascending_index_order() {
    let mut rb = RenderBuffer::new(4, 1);
    // Insert the reset (at the range end) before the color (at the start):
    // the flushed stream still orders them by cell index.
    rb.add_ctrl_code(ANSICode::Reset, 2, 0, 4);
    rb.add_ctrl_code(ANSICode::fcustom(1, 2, 3), 0, 0, 4);
    let out = rb.flush();
    assert_eq!(out, "\u{1b}[38;2;1;2;3m@@\u{1b}[0m@@");
    let color_at = out.find("38;2;1;2;3").unwrap();
    let reset_at = out.find("[0m").unwrap();
    assert!(color_at < reset_at);
}

#[test]
fn positional_code_on_claimed_cell_is_dropped() {
    let mut rb = RenderBuffer::new(2, 1);
    rb.write(0, 0, 2, 'A');
    rb.add_ctrl_code(ANSICode::Reset, 0, 0, 2);
    let out = rb.flush();
    assert_eq!(out, "A@");
}

#[test]
fn init_and_last_codes_wrap_the_grid() {
    let mut rb = RenderBuffer::new(2, 1);
    rb.add_init_ctrl_code(ANSICode::Reset);
    rb.add_last_ctrl_code(ANSICode::SetCursor(1, 2));
    let out = rb.flush();
    assert_eq!(out, "\u{1b}[0m@@\u{1b}[3;2H");
}

#[test]
fn conv_matches_the_escape_vocabulary() {
    assert_eq!(ANSICode::Reset.conv(), "\u{1b}[0m");
    // Cursor placement emits row+1 before column+1.
    assert_eq!(ANSICode::SetCursor(2, 5).conv(), "\u{1b}[6;3H");
    assert_eq!(
        ANSICode::Color(true, ColorValue::Red).conv(),
        "\u{1b}[38;2;255;0;0m"
    );
    assert_eq!(
        ANSICode::Color(false, ColorValue::Custom(12, 0, 200)).conv(),
        "\u{1b}[48;2;12;0;200m"
    );
    assert_eq!(ANSICode::fcustom(0, 255, 0).conv(), "\u{1b}[38;2;0;255;0m");
    assert_eq!(ANSICode::color(true, (7, 8, 9)).conv(), "\u{1b}[38;2;7;8;9m");
    assert_eq!(ANSICode::reset().conv(), "\u{1b}[0m");
}
