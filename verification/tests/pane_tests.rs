use neoxide::border::BufferBorder;
use neoxide::editor::{Buffer as MotionBuffer, CursorPosition};
use neoxide::frame::RenderBuffer;
use neoxide::logmsg::{LogLevel, Message};
use neoxide::pane::Buffer;

#[test]
fn render_paints_the_bordered_rows() {
    // The border-exactness example: content "H", width 3, height 3, no
    // padding, all borders shown.
    let mut pane = Buffer::new(0, 0, 3, 3);
    pane.set_border(Some(BufferBorder::blank()));
    pane.set_content(vec!["H".to_string()]);
    let mut rb = RenderBuffer::new(3, 3);
    pane.render(3, &mut rb);
    let out = rb.flush();
    assert_eq!(out, "+-+|H|+-+");
}

#[test]
fn render_without_border_writes_lines_verbatim() {
    let mut pane = Buffer::new(1, 0, 3, 2);
    pane.set_border(None);
    pane.set_content(vec!["ab".to_string(), "cd".to_string()]);
    let mut rb = RenderBuffer::new(4, 2);
    pane.render(4, &mut rb);
    let out = rb.flush();
    assert_eq!(out, "@ab@@cd@");
}

#[test]
fn overlapping_panes_keep_the_first_writer() {
    let mut first = Buffer::new(0, 0, 2, 1);
    first.set_border(None);
    first.set_content(vec!["ab".to_string()]);
    let mut second = Buffer::new(1, 0, 2, 1);
    second.set_border(None);
    second.set_content(vec!["XY".to_string()]);
    let mut rb = RenderBuffer::new(4, 1);
    first.render(4, &mut rb);
    second.render(4, &mut rb);
    assert_eq!(rb.flush(), "abY@");
}

#[test]
fn auto_width_is_the_longest_line() {
    let mut pane = Buffer::default();
    pane.set_content(vec!["Hello".to_string(), "foo".to_string()]);
    assert_eq!(pane.get_auto_width(), 5);
}

#[test]
fn auto_size_fits_content_padding_and_borders() {
    let mut pane = Buffer::default();
    pane.set_content(vec!["Hello".to_string(), "foo".to_string()]);
    pane.auto_size();
    assert_eq!(pane.size(), (5 + 2 + 1 + 1, 2 + 1 + 1 + 2));
}

#[test]
fn start_of_text_skips_border_and_padding() {
    let pane = Buffer::new(4, 3, 10, 5);
    assert_eq!(pane.get_start_of_text(), (4 + 1 + 1, 3 + 1 + 1));
    let mut bare = Buffer::new(4, 3, 10, 5);
    bare.set_border(None);
    assert_eq!(bare.get_start_of_text(), (4, 3));
}

#[test]
fn cursor_moves_only_the_cursor() {
    let mut pane = Buffer::default();
    pane.set_cursor_pos(CursorPosition { x: 2, y: 1 });
    assert_eq!(pane.cursor_position(), CursorPosition { x: 2, y: 1 });
    assert_eq!(pane.size(), (20, 20));
}

#[test]
fn motion_buffer_keeps_its_parts() {
    let mb = MotionBuffer::new(vec!["x".to_string()], CursorPosition { x: 1, y: 0 });
    assert_eq!(mb.content, vec!["x".to_string()]);
    assert_eq!(mb.cursor_position, CursorPosition { x: 1, y: 0 });
}

#[test]
fn log_messages_format_as_tagged_lines() {
    assert_eq!(Message::new(LogLevel::Error, "boom").format(), "[ERR] boom\n");
    assert_eq!(Message::new(LogLevel::Normal, "hi").format(), "[LOG] hi\n");
    assert_eq!(LogLevel::Debug.to_string(), "DEBUG");
    assert_eq!(LogLevel::Warning.to_string(), "WARN");
    assert_eq!(LogLevel::FatalError.to_string(), "FATAL");
    assert_eq!(LogLevel::Bug.to_string(), "BUG");
}
