use neoxide::border::{BufferBorder, CORNER, HBORDER, VBORDER};
use neoxide::rows::{
    get_auto_size, to_string_border, to_string_border_full, to_string_border_full_with_struct,
    to_string_border_ipad,
};

#[test]
fn hello_world_no_padding() {
    let config = BufferBorder::blank();
    assert_eq!(
        "+-----+\n|Hello|\n+-----+\n",
        to_string_border_full_with_struct("Hello", 7, 3, Some(&config)),
    )
}

#[test]
fn hello_world_no_padding_mean_newlines() {
    let config = BufferBorder::blank();
    assert_eq!(
        "+-----+\n|Hello|\n|World|\n+-----+\n",
        to_string_border_full_with_struct("Hello\nWorld", 7, 4, Some(&config))
    )
}

#[test]
fn hpaddings_eq() {
    let mut config = BufferBorder::blank();
    config.lpad = 1;
    config.rpad = 1;
    assert_eq!(
        "+---+\n| H |\n+---+\n",
        to_string_border_full_with_struct("H", 5, 3, Some(&config))
    );
}

#[test]
fn hpaddings_neq() {
    let mut config = BufferBorder::blank();
    config.lpad = 1;
    assert_eq!(
        "+--+\n| H|\n+--+\n",
        to_string_border_full_with_struct("H", 4, 3, Some(&config))
    );
}

#[test]
fn vpaddings_eq() {
    let mut config = BufferBorder::blank();
    config.tpad = 1;
    config.dpad = 1;
    assert_eq!(
        "+-+\n| |\n|H|\n| |\n+-+\n",
        to_string_border_full_with_struct("H", 3, 3, Some(&config))
    );
}

#[test]
fn vpaddings_neq() {
    let mut config = BufferBorder::blank();
    config.tpad = 1;
    assert_eq!(
        "+-+\n| |\n|H|\n+-+\n",
        to_string_border_full_with_struct("H", 3, 3, Some(&config))
    );
}

#[test]
fn overflow() {
    // h: 3 w: 7
    let config = BufferBorder::blank();
    assert_eq!(
        "+-----+\n|Hello|\n|World|\n+-----+\n",
        to_string_border_full_with_struct("HelloWorld", 7, 3, Some(&config))
    )
}

#[test]
fn width_detection() {
    assert_eq!(
        "+-----+\n|Hello|\n|foo  |\n+-----+\n",
        to_string_border_ipad(
            "Hello\nfoo",
            (true, true, true, true),
            CORNER,
            HBORDER,
            VBORDER,
            0,
            0,
            0,
            0
        )
    );
}

#[test]
fn width_detection_padding() {
    assert_eq!(
        "+------+\n| Hello|\n| foo  |\n+------+\n",
        to_string_border_ipad(
            "Hello\nfoo",
            (true, true, true, true),
            CORNER,
            HBORDER,
            VBORDER,
            1,
            0,
            0,
            0
        )
    );
}

#[test]
fn default() {
    assert_eq!(
        "+---+\n|   |\n| H |\n|   |\n+---+\n",
        to_string_border("H", Some(BufferBorder::default()).as_ref())
    );
}

#[test]
fn border_full_from_parts() {
    assert_eq!(
        "+-----+\n|Hello|\n+-----+\n",
        to_string_border_full(
            "Hello",
            3,
            7,
            (true, true, true, true),
            CORNER,
            HBORDER,
            VBORDER,
            0,
            0,
            0,
            0
        )
    );
}

#[test]
fn auto_size_counts_borders_and_padding() {
    assert_eq!((7, 4), get_auto_size("Hello\nfoo", 0, 0, 0, 0));
    assert_eq!((8, 5), get_auto_size("Hello\nfoo", 1, 0, 1, 0));
}

#[test]
fn without_config_content_is_returned_verbatim() {
    assert_eq!("Hello", to_string_border_full_with_struct("Hello", 7, 3, None));
    assert_eq!("Hello", to_string_border("Hello", None));
}

#[test]
fn edge_toggles_flip_exactly_one_edge() {
    let mut b = BufferBorder::blank();
    assert_eq!([true, true, true, true], b.get_borders_shown());
    b.toggle_left();
    assert_eq!([false, true, true, true], b.get_borders_shown());
    b.toggle_top();
    assert_eq!([false, false, true, true], b.get_borders_shown());
    b.toggle_down();
    b.toggle_right();
    assert_eq!([false, false, false, false], b.get_borders_shown());
    b.showt(true);
    assert_eq!([false, true, false, false], b.get_borders_shown());
    b.show_all(true);
    assert_eq!([true, true, true, true], b.get_borders_shown());
    assert_eq!((2, 2), b.get_number_of_borders());
    b.showl(false);
    assert_eq!((1, 2), b.get_number_of_borders());
}
