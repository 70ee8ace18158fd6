use neoxide::layout::MasterLayout;
use neoxide::pane::Buffer;

#[test]
fn master_stack_reorder() {
    // An 80 by 24 terminal with the split at 40: the master keeps the full
    // height on the left, two stack panes split the height on the right,
    // and only the first stack pane keeps its top border.
    let mut ml = MasterLayout::new(80);
    assert_eq!(ml.split_width, 40);
    let m = ml.add_buf(0, Buffer::default(), 80, 24).unwrap();
    let s1 = ml.add_buf(0, Buffer::default(), 80, 24).unwrap();
    let s2 = ml.add_buf(0, Buffer::default(), 80, 24).unwrap();
    assert_eq!((m, s1, s2), (0, 1, 2));

    let master = ml.get_buf(m).unwrap();
    assert_eq!(master.offsets(), (0, 0));
    assert_eq!(master.size(), (40, 24));
    let mb = master.border().unwrap().get_borders_shown();
    assert_eq!(mb, [true, true, true, true]);

    let p1 = ml.get_buf(s1).unwrap();
    assert_eq!(p1.offsets(), (40, 0));
    assert_eq!(p1.size(), (40, 12));
    let b1 = p1.border().unwrap().get_borders_shown();
    assert_eq!(b1[0], false); // left suppressed
    assert_eq!(b1[1], true); // first pane keeps its top border

    let p2 = ml.get_buf(s2).unwrap();
    assert_eq!(p2.offsets(), (40, 12));
    assert_eq!(p2.size(), (40, 12));
    let b2 = p2.border().unwrap().get_borders_shown();
    assert_eq!(b2[0], false);
    assert_eq!(b2[1], false);
}

#[test]
fn remainder_absorption() {
    // Three stack panes below a master: the division remainder of the
    // terminal height goes to the bottom pane.
    let mut ml = MasterLayout::new(80);
    ml.add_buf(0, Buffer::default(), 80, 24).unwrap();
    let s1 = ml.add_buf(0, Buffer::default(), 80, 24).unwrap();
    let s2 = ml.add_buf(0, Buffer::default(), 80, 24).unwrap();
    let s3 = ml.add_buf(0, Buffer::default(), 80, 24).unwrap();
    assert_eq!(ml.get_buf(s1).unwrap().size().1, 8);
    assert_eq!(ml.get_buf(s2).unwrap().size().1, 8);
    assert_eq!(ml.get_buf(s3).unwrap().size().1, 24 - 8 * 2);

    let mut ml25 = MasterLayout::new(80);
    ml25.add_buf(0, Buffer::default(), 80, 25).unwrap();
    ml25.add_buf(0, Buffer::default(), 80, 25).unwrap();
    ml25.add_buf(0, Buffer::default(), 80, 25).unwrap();
    let last = ml25.add_buf(0, Buffer::default(), 80, 25).unwrap();
    assert_eq!(ml25.get_buf(last).unwrap().size().1, 25 - 8 * 2);
    assert_eq!(ml25.get_buf(last).unwrap().offsets(), (40, 16));
}

#[test]
fn master_promotion() {
    // Removing the master while one stack pane remains promotes that pane
    // to master: the layer keeps no stack panes and the new master spans
    // the full width again.
    let mut ml = MasterLayout::new(80);
    let m = ml.add_buf(0, Buffer::default(), 80, 24).unwrap();
    let s = ml.add_buf(0, Buffer::default(), 80, 24).unwrap();
    let removed = ml.rem_buf(m, 80, 24).unwrap();
    assert_eq!(removed.size().1, 24);
    assert_eq!(ml.buffers.len(), 0);
    assert!(ml.master.is_some());
    assert_eq!(ml.master_id, s);
    let promoted = ml.get_buf(s).unwrap();
    assert_eq!(promoted.offsets(), (0, 0));
    assert_eq!(promoted.size(), (80, 24));
}

#[test]
fn removing_a_stack_pane_retiles_the_rest() {
    let mut ml = MasterLayout::new(80);
    ml.add_buf(0, Buffer::default(), 80, 24).unwrap();
    let s1 = ml.add_buf(0, Buffer::default(), 80, 24).unwrap();
    let s2 = ml.add_buf(0, Buffer::default(), 80, 24).unwrap();
    ml.rem_buf(s1, 80, 24).unwrap();
    let p2 = ml.get_buf(s2).unwrap();
    assert_eq!(p2.offsets(), (40, 0));
    assert_eq!(p2.size(), (40, 24));
}

#[test]
fn removing_the_last_pane_empties_the_layer() {
    let mut ml = MasterLayout::new(80);
    let m = ml.add_buf(0, Buffer::default(), 80, 24).unwrap();
    ml.rem_buf(m, 80, 24).unwrap();
    assert!(ml.master.is_none());
    assert_eq!(ml.buffers.len(), 0);
    assert_eq!(ml.rem_buf(9, 80, 24).unwrap_err(), "not found");
}

#[test]
fn removing_an_unknown_id_is_reported() {
    let mut ml = MasterLayout::new(80);
    ml.add_buf(0, Buffer::default(), 80, 24).unwrap();
    assert_eq!(ml.rem_buf(42, 80, 24).unwrap_err(), "not found");
    assert_eq!(ml.get_buf(42).unwrap_err(), "not found");
}

#[test]
fn change_master_swaps_with_a_stack_pane() {
    let mut ml = MasterLayout::new(80);
    let m = ml.add_buf(0, Buffer::default(), 80, 24).unwrap();
    let s = ml.add_buf(0, Buffer::default(), 80, 24).unwrap();
    ml.change_master(s).unwrap();
    assert_eq!(ml.master_id, s);
    assert_eq!(ml.buffers.len(), 1);
    assert_eq!(ml.buffers[0].0, m);
    assert_eq!(ml.change_master(77).unwrap_err(), "New master not found!");
}

#[test]
fn ids_are_monotonic_and_never_reused() {
    let mut ml = MasterLayout::new(80);
    let a = ml.add_buf(0, Buffer::default(), 80, 24).unwrap();
    let b = ml.add_buf(0, Buffer::default(), 80, 24).unwrap();
    ml.rem_buf(b, 80, 24).unwrap();
    let c = ml.add_buf(0, Buffer::default(), 80, 24).unwrap();
    assert_eq!((a, b, c), (0, 1, 2));
    assert!(!ml.is_full());
    assert_eq!(ml.get_next_focused(), Some(a));
}

#[test]
fn centering_twice_is_idempotent() {
    let mut pane = Buffer::new(0, 0, 20, 10);
    pane.set_content(vec!["Hi".to_string()]);
    pane.center();
    let b1 = *pane.border().unwrap();
    pane.center();
    let b2 = *pane.border().unwrap();
    assert_eq!(b1.lpad, b2.lpad);
    assert_eq!(b1.tpad, b2.tpad);
    assert_eq!(b1.lpad, (20 - 2) / 2);
    assert_eq!(b1.tpad, (10 - 1 - 1) / 2);
}
