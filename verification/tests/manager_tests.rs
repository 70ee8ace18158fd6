use neoxide::ansi::{ANSICode, ColorValue};
use neoxide::editor::CursorPosition;
use neoxide::layout::{Layout, MasterLayout};
use neoxide::manager::{update_cursor_pos, BufferManager, ClientBuffer};
use neoxide::pane::Buffer;

#[test]
fn rerender_walks_layers_from_the_top_down() {
    // Two overlapping borderless layers on a 4 by 1 terminal: the topmost
    // layer's pane must win the overlapped cells under first-writer-wins.
    let mut man = BufferManager::new(4, 1);
    let mut base = Buffer::new(0, 0, 4, 1);
    base.set_border(None);
    base.set_content(vec!["aaaa".to_string()]);
    man.add_buf(0, 0, base).unwrap();

    let mut top_layer = MasterLayout::new(4);
    let mut over = Buffer::new(0, 0, 2, 1);
    over.set_border(None);
    over.set_content(vec!["bb".to_string()]);
    top_layer.add_buf(0, over, 2, 1).unwrap();
    man.add_tiled_layer(Layout::Master(top_layer));

    let frame = man.rerender();
    assert_eq!(frame, "bbaa");
}

#[test]
fn build_places_a_pane_on_the_first_tiled_layer() {
    let mut man = BufferManager::new(40, 12);
    let cb = ClientBuffer::build(&mut man, 7, true).unwrap();
    assert_eq!(cb.bufman_ref.layer, 0);
    assert_eq!(cb.bufman_ref.id, 0);
    assert_eq!(cb.cursor_position(), &CursorPosition { x: 0, y: 0 });
    let again = ClientBuffer::build_on_tiled(&mut man, 7).unwrap();
    assert_eq!(again.bufman_ref.id, 1);
}

#[test]
fn build_fails_without_candidate_layers() {
    let mut man = BufferManager::new(40, 12);
    let err = match ClientBuffer::build_on_free(&mut man, 0) {
        Err(e) => e,
        Ok(_) => panic!("a manager without free layers accepted a pane"),
    };
    assert_eq!(err, "all layers full!");
}

#[test]
fn set_content_rerenders_the_frame() {
    let mut man = BufferManager::new(8, 5);
    let cb = ClientBuffer::build(&mut man, 0, true).unwrap();
    let frame = cb.set_content(&mut man, "Test").unwrap();
    // The single pane becomes the master and spans the whole terminal.
    assert!(frame.contains("| Test |"));
    let content = cb.get_content(&man).unwrap();
    assert_eq!(content, &vec!["Test".to_string()]);
}

#[test]
fn set_content_splits_on_newlines() {
    let mut man = BufferManager::new(20, 10);
    let cb = ClientBuffer::build(&mut man, 0, true).unwrap();
    cb.set_content(&mut man, "one\ntwo").unwrap();
    let content = cb.get_content(&man).unwrap();
    assert_eq!(content, &vec!["one".to_string(), "two".to_string()]);
}

#[test]
fn focus_queues_the_cursor_for_the_end_of_frame() {
    let mut man = BufferManager::new(20, 10);
    let cb = ClientBuffer::build(&mut man, 0, true).unwrap();
    let (x, y) = cb.focus(&mut man).unwrap();
    // Default pane: offset 0, one cell of padding, border shown on both
    // leading edges.
    assert_eq!((x, y), (2, 2));
    assert_eq!(man.focused, Some(cb.bufman_ref));
    let frame = man.rerender();
    // The cursor-placement code comes after the whole grid.
    assert!(frame.ends_with("\u{1b}[3;3H"));
}

#[test]
fn set_color_annotates_the_pane() {
    let mut man = BufferManager::new(20, 10);
    let cb = ClientBuffer::build(&mut man, 0, true).unwrap();
    cb.set_color(&mut man, 1, 3, ANSICode::fcustom(9, 8, 7));
    let pane = man.get_buf(0, 0).unwrap();
    let codes = pane.ctrl_codes();
    assert_eq!(codes.len(), 2);
    assert_eq!(
        codes[0],
        (ANSICode::Color(true, ColorValue::Custom(9, 8, 7)), 1)
    );
    assert_eq!(codes[1], (ANSICode::Reset, 3));
}

#[test]
fn removing_the_focused_master_moves_focus_to_the_promoted_pane() {
    let mut man = BufferManager::new(40, 12);
    let master = ClientBuffer::build(&mut man, 0, true).unwrap();
    let stack = ClientBuffer::build(&mut man, 0, true).unwrap();
    master.focus(&mut man).unwrap();
    man.rem_buf(0, master.bufman_ref.id).unwrap();
    assert_eq!(man.focused, Some(stack.bufman_ref));
}

#[test]
fn update_cursor_pos_moves_the_focused_cursor() {
    let mut man = BufferManager::new(40, 12);
    let cb = ClientBuffer::build(&mut man, 0, true).unwrap();
    cb.focus(&mut man).unwrap();
    update_cursor_pos(&mut man, CursorPosition { x: 3, y: 1 });
    let pane = man.get_focused().unwrap();
    assert_eq!(pane.cursor_position(), CursorPosition { x: 3, y: 1 });
}

#[test]
fn resize_recreates_the_frame_for_the_new_size() {
    let mut man = BufferManager::new(4, 1);
    let frame = man.rerender();
    assert_eq!(frame.len(), 4);
    let frame2 = man.resize(2, 1);
    assert_eq!(frame2, "@@");
    assert_eq!(man.term_size, (2, 1));
}

#[test]
fn orphaned_references_are_reported() {
    let man = BufferManager::new(20, 10);
    assert_eq!(man.get_buf(0, 5).unwrap_err(), "not found");
    assert_eq!(man.get_buf(9, 0).unwrap_err(), "not found");
    assert_eq!(man.get_focused().unwrap_err(), "no focused buffer");
}

#[test]
fn move_to_layer_reassigns_the_handle() {
    let mut man = BufferManager::new(40, 12);
    let mut cb = ClientBuffer::build(&mut man, 0, true).unwrap();
    cb.set_content(&mut man, "carried").unwrap();
    man.add_tiled_layer(Layout::Master(MasterLayout::new(40)));
    cb.move_to_layer(&mut man, 1).unwrap();
    assert_eq!(cb.bufman_ref.layer, 1);
    let content = cb.get_content(&man).unwrap();
    assert_eq!(content, &vec!["carried".to_string()]);
    // The pane left layer 0 entirely.
    assert_eq!(man.get_buf(0, 0).unwrap_err(), "not found");
}
