use iced_color_map::editor::preset_options;
use iced_color_map::{
    ColorMap, ColorMapEditor, ColorPickerState, Event, GridMessage, Message, PickerMessage,
    PresetKind, Rgb,
};

fn gradient() -> [Rgb; 256] {
    let mut t = [Rgb::new(0, 0, 0); 256];
    for i in 0..256usize {
        t[i] = Rgb::new(i as u8, (255 - i) as u8, 7);
    }
    t
}

fn select(e: &mut ColorMapEditor, start: u8, end: u8) {
    assert!(e.update(Message::Grid(GridMessage::SelectionChanged { start, end })).is_none());
}

#[test]
fn new_editor_starts_from_the_map() {
    let map = ColorMap::new(gradient());
    let e = ColorMapEditor::new(&map);
    assert_eq!(e.draft(), &gradient());
    assert_eq!(e.baseline(), &gradient());
    assert_eq!(e.selection(), None);
    assert_eq!(e.picker().to_rgb(), Rgb::new(0, 255, 7));
    assert_eq!(e.active_preset(), None);
}

#[test]
fn selection_loads_picker_with_first_byte() {
    let mut e = ColorMapEditor::new(&ColorMap::new(gradient()));
    select(&mut e, 10, 20);
    assert_eq!(e.selection(), Some((10, 20)));
    assert_eq!(e.picker().to_rgb(), Rgb::new(10, 245, 7));
    assert_eq!(e.draft(), &gradient());
}

#[test]
fn picker_change_paints_only_the_selection() {
    let mut e = ColorMapEditor::new(&ColorMap::new(gradient()));
    select(&mut e, 10, 20);
    assert!(e.update(Message::Picker(PickerMessage::RedChanged(200))).is_none());
    let d = e.draft();
    for i in 0..256usize {
        if (10..=20).contains(&i) {
            assert_eq!(d[i], Rgb::new(200, 245, 7));
        } else {
            assert_eq!(d[i], gradient()[i]);
        }
    }
    assert_eq!(e.picker_hex_string(), "#C8F507");
}

#[test]
fn confirm_repaints_the_selection_with_the_picker_color() {
    let mut e = ColorMapEditor::new(&ColorMap::new(gradient()));
    select(&mut e, 3, 5);
    assert!(e.update(Message::Picker(PickerMessage::Confirm)).is_none());
    assert_eq!(e.draft()[4], Rgb::new(3, 252, 7));
    assert_eq!(e.draft()[5], Rgb::new(3, 252, 7));
    assert_eq!(e.draft()[6], gradient()[6]);
}

#[test]
fn copy_hex_changes_nothing() {
    let mut e = ColorMapEditor::new(&ColorMap::new(gradient()));
    select(&mut e, 3, 5);
    assert!(e.update(Message::Picker(PickerMessage::CopyHex)).is_none());
    assert_eq!(e.draft(), &gradient());
}

#[test]
fn picker_without_selection_keeps_draft() {
    let mut e = ColorMapEditor::new(&ColorMap::new(gradient()));
    assert!(e.update(Message::Picker(PickerMessage::BlueChanged(1))).is_none());
    assert_eq!(e.draft(), &gradient());
    assert_eq!(e.picker().to_rgb(), Rgb::new(0, 255, 1));
}

#[test]
fn reversed_selection_paints_nothing() {
    let mut e = ColorMapEditor::new(&ColorMap::new(gradient()));
    select(&mut e, 9, 2);
    assert!(e.update(Message::Picker(PickerMessage::GreenChanged(0))).is_none());
    assert_eq!(e.draft(), &gradient());
}

#[test]
fn full_range_selection_paints_every_byte() {
    let mut e = ColorMapEditor::new(&ColorMap::new(gradient()));
    select(&mut e, 0, 255);
    assert!(e.update(Message::Picker(PickerMessage::GreenChanged(9))).is_none());
    assert!(e.draft().iter().all(|c| *c == Rgb::new(0, 9, 7)));
}

#[test]
fn preset_replaces_draft_and_clears_selection() {
    let mut e = ColorMapEditor::new(&ColorMap::new(gradient()));
    select(&mut e, 1, 2);
    let preset = [Rgb::new(1, 2, 3); 256];
    assert!(e
        .update(Message::PresetSelected(PresetKind::NibbleGroups, ColorMap::new(preset)))
        .is_none());
    assert_eq!(e.draft(), &preset);
    assert_eq!(e.selection(), None);
    assert_eq!(e.active_preset(), Some(PresetKind::NibbleGroups));
    assert_eq!(e.picker().to_rgb(), Rgb::new(1, 2, 3));
    assert!(e.update(Message::Picker(PickerMessage::RedChanged(50))).is_none());
    assert_eq!(e.active_preset(), None);
    assert_eq!(e.draft(), &preset);
}

#[test]
fn accept_hands_back_the_draft() {
    let mut e = ColorMapEditor::new(&ColorMap::new(gradient()));
    select(&mut e, 0, 0);
    assert!(e.update(Message::Picker(PickerMessage::RedChanged(99))).is_none());
    match e.update(Message::Accept) {
        Some(Event::Accepted(m)) => {
            assert_eq!(m.as_table()[0], Rgb::new(99, 255, 7));
            assert_eq!(m.as_table()[1], gradient()[1]);
        }
        other => panic!("unexpected {:?}", other),
    }
    assert_eq!(e.draft()[0], Rgb::new(99, 255, 7));
}

#[test]
fn cancel_restores_the_baseline() {
    let mut e = ColorMapEditor::new(&ColorMap::new(gradient()));
    select(&mut e, 0, 40);
    assert!(e.update(Message::Picker(PickerMessage::RedChanged(1))).is_none());
    assert!(matches!(e.update(Message::Cancel), Some(Event::Cancelled)));
    assert_eq!(e.draft(), &gradient());
    assert_eq!(e.selection(), Some((0, 40)));
    match e.update(Message::Accept) {
        Some(Event::Accepted(m)) => assert_eq!(m.as_table(), &gradient()),
        other => panic!("unexpected {:?}", other),
    }
}

#[test]
fn drag_ended_changes_nothing() {
    let mut e = ColorMapEditor::new(&ColorMap::new(gradient()));
    select(&mut e, 4, 8);
    assert!(e.update(Message::Grid(GridMessage::DragEnded)).is_none());
    assert_eq!(e.selection(), Some((4, 8)));
}

#[test]
fn preset_labels_and_options() {
    assert_eq!(PresetKind::AsciiClasses.label(), "ASCII classes");
    assert_eq!(PresetKind::NibbleGroups.label(), "Nibble groups");
    assert_eq!(preset_options(), [PresetKind::AsciiClasses, PresetKind::NibbleGroups]);
}

#[test]
fn picker_updates_one_channel() {
    let mut p = ColorPickerState::from_rgb(Rgb::new(1, 2, 3));
    p.update(&PickerMessage::RedChanged(10));
    assert_eq!((p.r, p.g, p.b), (10, 2, 3));
    p.update(&PickerMessage::GreenChanged(20));
    assert_eq!((p.r, p.g, p.b), (10, 20, 3));
    p.update(&PickerMessage::BlueChanged(30));
    assert_eq!((p.r, p.g, p.b), (10, 20, 30));
    p.update(&PickerMessage::Confirm);
    p.update(&PickerMessage::Cancel);
    p.update(&PickerMessage::CopyHex);
    assert_eq!(p.to_rgb(), Rgb::new(10, 20, 30));
}

/// The editor carries colors as bytes where the GUI passes them through
/// `f32` (`byte / 255.0`, then `(x * 255.0 + 0.5) as u8`); that round trip is
/// the identity on every byte.
#[test]
fn float_channel_round_trip_is_identity() {
    for v in 0..=255u8 {
        let f = v as f32 / 255.0;
        assert_eq!((f * 255.0 + 0.5) as u8, v);
    }
}
