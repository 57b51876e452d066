use asayake::grid::{calc_grid_child, calc_grid_parent};
use asayake::structs::Rect;

fn make_rect(right_bottom: (u16, u16)) -> Rect {
    Rect { left_top: (0, 0), right_bottom: right_bottom }
}

#[test]
fn test_calc_grid() {
    assert_eq!(
        calc_grid_parent(&vec![
            Rect { left_top: (0, 0), right_bottom: (1, 1) },
            Rect { left_top: (1, 0), right_bottom: (2, 1) },
        ], &make_rect((2, 1))),
        ("grid-template-rows: 1fr;grid-template-columns: 1fr 1fr;".into(), 1, 1)
    );
}

#[test]
fn test_calc_child() {
    assert_eq!(
        calc_grid_child(&(1, 1), &Rect { left_top: (0, 0), right_bottom: (1, 1) }),
        "grid-row: 1 / 1;grid-column: 1 / 1"
    );
    assert_eq!(
        calc_grid_child(&(1, 1), &Rect { left_top: (1, 0), right_bottom: (2, 1) }),
        "grid-row: 1 / 1;grid-column: 2 / 2"
    );
}

#[test]
fn grid_cell_is_the_least_width_and_height() {
    // Widths 960, 960, 480 and heights 540, 270, 270: a cell is 480 x 270.
    let layout = vec![
        Rect { left_top: (0, 0), right_bottom: (960, 540) },
        Rect { left_top: (960, 0), right_bottom: (1920, 270) },
        Rect { left_top: (960, 270), right_bottom: (1440, 540) },
    ];
    let (style, w, h) = calc_grid_parent(&layout, &make_rect((1920, 1080)));
    assert_eq!((w, h), (480, 270));
    assert_eq!(
        style,
        "grid-template-rows: 1fr 1fr 1fr 1fr;grid-template-columns: 1fr 1fr 1fr 1fr;"
    );
}

#[test]
fn grid_cell_does_not_depend_on_order() {
    let a = Rect { left_top: (0, 0), right_bottom: (3, 1) };
    let b = Rect { left_top: (3, 0), right_bottom: (5, 2) };
    let size = make_rect((6, 2));
    let one = calc_grid_parent(&vec![a, b], &size);
    let other = calc_grid_parent(&vec![b, a], &size);
    assert_eq!(one, other);
    assert_eq!(
        one,
        ("grid-template-rows: 1fr 1fr;grid-template-columns: 1fr 1fr 1fr;".into(), 2, 1)
    );
}

#[test]
fn grid_child_spans_several_cells() {
    assert_eq!(
        calc_grid_child(&(960, 270), &Rect { left_top: (0, 0), right_bottom: (960, 540) }),
        "grid-row: 1 / 2;grid-column: 1 / 1"
    );
    assert_eq!(
        calc_grid_child(&(100, 10), &Rect { left_top: (1200, 250), right_bottom: (1500, 300) }),
        "grid-row: 26 / 30;grid-column: 13 / 15"
    );
}
