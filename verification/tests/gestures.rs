use vintage::gesture::{wheel, CellPoint, GestureAction, Held, MouseGesture, WheelAction};
use vintage::mouse::{Button, MouseAction};

fn at(column: usize, row: usize) -> CellPoint {
    CellPoint { column, row }
}

#[test]
fn left_drag_selects_without_reports() {
    let mut g = MouseGesture::new();
    assert!(matches!(g.press(true, Some(at(1, 1)), Some(Button::Left), false, false), GestureAction::StartSelection(c) if c == at(1, 1)));
    assert!(matches!(g.moved(Held::Button(Button::Left), Some(at(1, 1)), true, false), GestureAction::Nothing));
    assert!(matches!(g.moved(Held::Button(Button::Left), Some(at(4, 2)), true, false), GestureAction::Select(a, b) if a == at(1, 1) && b == at(4, 2)));
    assert!(matches!(g.released(Some(Button::Left), Some(at(4, 2))), GestureAction::Nothing));
    assert_eq!(g.selecting, None);
}

#[test]
fn shift_selects_even_with_reports_on() {
    let mut g = MouseGesture::new();
    assert!(matches!(g.press(true, Some(at(0, 0)), Some(Button::Left), true, true), GestureAction::StartSelection(_)));
    assert!(matches!(g.press(true, Some(at(0, 0)), Some(Button::Right), true, true), GestureAction::Nothing));
}

#[test]
fn presses_outside_the_pane_are_ignored() {
    let mut g = MouseGesture::new();
    assert!(matches!(g.press(false, Some(at(0, 0)), Some(Button::Left), true, false), GestureAction::Nothing));
    assert!(matches!(g.press(true, None, Some(Button::Left), true, false), GestureAction::Nothing));
    assert_eq!(g.selecting, None);
}

#[test]
fn reported_press_gets_its_release_reported() {
    let mut g = MouseGesture::new();
    let action = g.press(true, Some(at(2, 3)), Some(Button::Middle), true, false);
    assert!(matches!(action, GestureAction::Report(c, MouseAction::Press(Button::Middle)) if c == at(2, 3)));
    g.reported(at(2, 3), MouseAction::Press(Button::Middle), true);
    assert_eq!(g.reported, [false, true, false]);
    assert_eq!(g.last_cell, Some(at(2, 3)));
    assert!(matches!(g.moved(Held::Button(Button::Middle), Some(at(2, 3)), true, false), GestureAction::Nothing));
    assert!(matches!(g.moved(Held::Button(Button::Middle), Some(at(3, 3)), true, true), GestureAction::Nothing));
    assert_eq!(g.last_cell, None);
    assert!(matches!(g.released(Some(Button::Middle), Some(at(3, 3))), GestureAction::Report(c, MouseAction::Release(Button::Middle)) if c == at(3, 3)));
    assert_eq!(g.reported, [false, false, false]);
    assert!(matches!(g.released(Some(Button::Middle), Some(at(3, 3))), GestureAction::Nothing));
}

#[test]
fn undelivered_press_is_not_released() {
    let mut g = MouseGesture::new();
    g.press(true, Some(at(0, 0)), Some(Button::Right), true, false);
    g.reported(at(0, 0), MouseAction::Press(Button::Right), false);
    assert_eq!(g.last_cell, None);
    assert!(matches!(g.released(Some(Button::Right), Some(at(0, 0))), GestureAction::Nothing));
}

#[test]
fn motion_is_reported_once_per_cell() {
    let mut g = MouseGesture::new();
    assert!(matches!(g.moved(Held::Nothing, Some(at(5, 5)), true, false), GestureAction::Report(c, MouseAction::Move(None)) if c == at(5, 5)));
    g.reported(at(5, 5), MouseAction::Move(None), true);
    assert!(matches!(g.moved(Held::Nothing, Some(at(5, 5)), true, false), GestureAction::Nothing));
    assert!(matches!(g.moved(Held::Other, Some(at(6, 5)), true, false), GestureAction::Nothing));
    assert!(matches!(g.moved(Held::Button(Button::Left), Some(at(6, 5)), true, false), GestureAction::Nothing));
}

#[test]
fn focus_loss_and_mode_change_forget_reports() {
    let mut g = MouseGesture::new();
    g.reported(at(1, 1), MouseAction::Press(Button::Left), true);
    g.mode_changed();
    assert_eq!(g.reported, [false, false, false]);
    assert_eq!(g.last_cell, None);
    g.press(true, Some(at(1, 1)), Some(Button::Left), false, false);
    g.focus_lost();
    assert_eq!(g.selecting, None);
}

#[test]
fn wheel_reports_are_capped() {
    assert_eq!(wheel(true, 3, true, false, Some(at(1, 1))), WheelAction::Report { cell: at(1, 1), up: true, count: 3 });
    assert_eq!(wheel(true, -100, true, false, Some(at(1, 1))), WheelAction::Report { cell: at(1, 1), up: false, count: 32 });
    assert_eq!(wheel(true, -5, true, true, Some(at(1, 1))), WheelAction::Scroll(-5));
    assert_eq!(wheel(true, 2, false, false, None), WheelAction::Scroll(2));
    assert_eq!(wheel(true, 0, false, false, None), WheelAction::Nothing);
    assert_eq!(wheel(false, 4, false, false, None), WheelAction::Nothing);
    assert_eq!(wheel(true, 4, true, false, None), WheelAction::Nothing);
}
