use iced_color_map::grid::{cell_position, hit_test_cell, CursorStyle, GridAction, GridInput};
use iced_color_map::{GridInteraction, GridMessage};

fn sel(start: u8, end: u8) -> Option<GridAction> {
    Some(GridAction::Publish(GridMessage::SelectionChanged { start, end }))
}

#[test]
fn press_drag_release() {
    let mut g = GridInteraction::default();
    assert_eq!(g.cursor_style(true), CursorStyle::Pointer);
    assert_eq!(g.cursor_style(false), CursorStyle::Default);
    assert_eq!(g.update(GridInput::LeftPressed(Some(40))), sel(40, 40));
    assert!(g.is_dragging());
    assert_eq!(g.anchor(), Some(40));
    assert_eq!(g.cursor_style(false), CursorStyle::Crosshair);
    assert_eq!(g.update(GridInput::CursorMoved(Some(50))), sel(40, 50));
    assert_eq!(g.update(GridInput::CursorMoved(Some(3))), sel(3, 40));
    assert_eq!(g.update(GridInput::CursorMoved(None)), Some(GridAction::Capture));
    assert_eq!(
        g.update(GridInput::LeftReleased),
        Some(GridAction::Publish(GridMessage::DragEnded))
    );
    assert!(!g.is_dragging());
    assert_eq!(g.update(GridInput::CursorMoved(Some(7))), None);
    assert_eq!(g.update(GridInput::LeftReleased), None);
}

#[test]
fn press_outside_grid_is_ignored() {
    let mut g = GridInteraction::new();
    assert_eq!(g.update(GridInput::LeftPressed(None)), None);
    assert!(!g.is_dragging());
    assert_eq!(g.update(GridInput::Other), None);
}

#[test]
fn hit_test_and_positions() {
    assert_eq!(hit_test_cell(0, 0), Some(0));
    assert_eq!(hit_test_cell(15, 0), Some(15));
    assert_eq!(hit_test_cell(0, 1), Some(16));
    assert_eq!(hit_test_cell(15, 15), Some(255));
    assert_eq!(hit_test_cell(16, 0), None);
    assert_eq!(hit_test_cell(3, 16), None);
    for b in 0..=255u8 {
        let (c, r) = cell_position(b);
        assert_eq!(hit_test_cell(c as usize, r as usize), Some(b));
    }
}
