use todo::layout::{bordered_inner, centered, input_box_inner, input_box_layout, screen_layout};
use todo::tui::Area;

fn area(x: u16, y: u16, width: u16, height: u16) -> Area {
    Area { x, y, width, height }
}

#[test]
fn border_takes_one_cell_on_each_side() {
    assert_eq!(bordered_inner(area(0, 0, 10, 5)), area(1, 1, 8, 3));
    assert_eq!(bordered_inner(area(3, 2, 1, 1)), area(4, 3, 0, 0));
    assert_eq!(bordered_inner(area(0, 0, 0, 0)), area(0, 0, 0, 0));
}

#[test]
fn centered_box_sits_in_the_middle() {
    assert_eq!(centered(area(0, 0, 100, 40), 50, 50), area(25, 10, 50, 20));
}

#[test]
fn screen_rows_give_the_list_the_rest() {
    let rows = screen_layout(area(0, 0, 80, 24));
    assert_eq!(rows, vec![area(0, 0, 80, 1), area(0, 1, 80, 18), area(0, 19, 80, 4), area(0, 23, 80, 1)]);
}

#[test]
fn input_box_parts_fit_together() {
    let screen = area(0, 0, 120, 40);
    let (modal, field, tips) = input_box_layout(screen);
    assert_eq!(modal, centered(screen, 70, 45));
    assert_eq!(tips.height, 1);
    assert_eq!(field.y + field.height, tips.y);
    assert!(field.height >= 3);
    assert_eq!(input_box_inner(screen), bordered_inner(field));
}
