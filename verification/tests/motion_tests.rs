use neoxide::border::BufferBorder;
use neoxide::editor::CursorPosition;
use neoxide::motions::{LeftRightMotion, Motion, MotionDirection, UntilWithMotion, UntilWithoutMotion, UpDownMotion};
use neoxide::pane::Buffer;

fn get_content() -> Buffer {
    let mut pane = Buffer::new(0, 0, 20, 4);
    pane.set_border(Some(BufferBorder::blank()));
    pane.set_content(vec![
        "This is a line1".to_string(),
        "This is also a line".to_string(),
        "Another line".to_string(),
        "Guess what another line".to_string(),
    ]);
    pane
}

#[test]
fn normal_foward() {
    let content = get_content();
    let motion = LeftRightMotion;
    let cursor_position = CursorPosition { x: 4, y: 2 };
    assert_eq!(
        motion.get_new_cursor_position(content, &cursor_position, MotionDirection::Foward),
        CursorPosition { x: 5, y: 2 }
    );
}

#[test]
fn normal_backward() {
    let content = get_content();
    let motion = LeftRightMotion;
    let cursor_position = CursorPosition { x: 4, y: 2 };
    assert_eq!(
        motion.get_new_cursor_position(content, &cursor_position, MotionDirection::Backward),
        CursorPosition { x: 3, y: 2 }
    );
}

#[test]
fn left_end() {
    let content = get_content();
    let motion = LeftRightMotion;
    let cursor_position = CursorPosition { x: 0, y: 2 };
    assert_eq!(
        motion.get_new_cursor_position(content, &cursor_position, MotionDirection::Backward),
        CursorPosition { x: 0, y: 2 }
    );
}

#[test]
fn right_end() {
    let content = get_content();
    let motion = LeftRightMotion;
    let line_len = content.lines().get(2).unwrap().len() as u32;
    let cursor_position = CursorPosition {
        x: line_len - 1,
        y: 2,
    };
    assert_eq!(
        motion.get_new_cursor_position(content, &cursor_position, MotionDirection::Foward),
        CursorPosition {
            x: line_len - 1,
            y: 2
        }
    );
}

#[test]
fn with_foward_normal() {
    let content = get_content();
    let motion = UntilWithMotion('l');
    let cursor_position = CursorPosition { x: 3, y: 0 };
    assert_eq!(
        motion.get_new_cursor_position(content, &cursor_position, MotionDirection::Foward),
        CursorPosition { x: 10, y: 0 }
    )
}

#[test]
fn with_backward_normal() {
    let content = get_content();
    let motion = UntilWithMotion('i');
    let cursor_position = CursorPosition { x: 10, y: 0 };
    assert_eq!(
        motion.get_new_cursor_position(content, &cursor_position, MotionDirection::Backward),
        CursorPosition { x: 5, y: 0 }
    )
}

#[test]
fn until_without_lands_short_of_the_hit() {
    let content = get_content();
    let motion = UntilWithoutMotion('l');
    let cursor_position = CursorPosition { x: 3, y: 0 };
    assert_eq!(
        motion.get_new_cursor_position(content, &cursor_position, MotionDirection::Foward),
        CursorPosition { x: 9, y: 0 }
    )
}

#[test]
fn up_down_clamps_to_the_new_line() {
    let content = get_content();
    let motion = UpDownMotion;
    // From the end of line 1 (19 chars) down to line 2 (12 chars): the
    // column clamps to the last character of the shorter line.
    let cursor_position = CursorPosition { x: 18, y: 1 };
    assert_eq!(
        motion.get_new_cursor_position(content, &cursor_position, MotionDirection::Foward),
        CursorPosition { x: 11, y: 2 }
    );
}
