//! The color map editor: a draft table edited through the grid selection,
//! the picker and presets, accepted or cancelled against a baseline.
use vstd::prelude::*;
use crate::color::{ColorMap, Rgb, rgb_hex_string, hex_color_text};
use crate::grid::GridMessage;
use crate::picker::{ColorPickerState, PickerMessage, picker_color, picker_step};

verus! {

/// The presets the editor offers.
#[derive(Debug, Clone, Copy, PartialEq, Eq, Structural)]
pub enum PresetKind {
    AsciiClasses,
    NibbleGroups,
}

impl PresetKind {
    /// The name shown for the preset.
    pub fn label(&self) -> (s: &'static str)
        ensures
            s@ == (match *self {
                PresetKind::AsciiClasses => "ASCII classes"@,
                PresetKind::NibbleGroups => "Nibble groups"@,
            }),
    {
        match self {
            PresetKind::AsciiClasses => "ASCII classes",
            PresetKind::NibbleGroups => "Nibble groups",
        }
    }
}

/// The presets, in the order they are offered.
pub fn preset_options() -> (options: [PresetKind; 2])
    ensures
        options@ == seq![PresetKind::AsciiClasses, PresetKind::NibbleGroups],
{
    let options = [PresetKind::AsciiClasses, PresetKind::NibbleGroups];
    assert(options@ =~= seq![PresetKind::AsciiClasses, PresetKind::NibbleGroups]);
    options
}

/// What the editor is told.
#[derive(Debug, Clone)]
pub enum Message {
    Grid(GridMessage),
    Picker(PickerMessage),
    /// A preset was chosen; its table comes with it.
    PresetSelected(PresetKind, ColorMap),
    Accept,
    Cancel,
}

/// What the editor answers when editing ends.
#[derive(Debug, Clone)]
pub enum Event {
    Accepted(ColorMap),
    Cancelled,
}

/// The abstract answer of the editor: the accepted table, or a cancel.
pub ghost enum EventModel {
    Accepted(Seq<Rgb>),
    Cancelled,
}

/// The abstract answer carried by an event.
pub open spec fn event_model(e: Option<Event>) -> Option<EventModel> {
    match e {
        Some(Event::Accepted(m)) => Some(EventModel::Accepted(m@)),
        Some(Event::Cancelled) => Some(EventModel::Cancelled),
        None => None,
    }
}

/// The abstract state of the editor.
pub ghost struct EditorModel {
    /// The table being edited.
    pub draft: Seq<Rgb>,
    /// The table the editor was opened with.
    pub baseline: Seq<Rgb>,
    /// The selected bytes `start..=end`, if any.
    pub selection: Option<(u8, u8)>,
    /// The color in the picker.
    pub picker: Rgb,
    /// The preset last chosen, until the draft is edited otherwise.
    pub active_preset: Option<PresetKind>,
}

/// `draft` with every entry of the selection `start..=end` set to `c`.
pub open spec fn paint(draft: Seq<Rgb>, selection: Option<(u8, u8)>, c: Rgb) -> Seq<Rgb> {
    match selection {
        Some((start, end)) => Seq::new(
            draft.len(),
            |i: int|
                if start <= i <= end {
                    c
                } else {
                    draft[i]
                },
        ),
        None => draft,
    }
}

/// The editor state after `msg`.
pub open spec fn editor_next(m: EditorModel, msg: Message) -> EditorModel {
    match msg {
        Message::Grid(GridMessage::SelectionChanged { start, end }) => EditorModel {
            selection: Some((start, end)),
            picker: m.draft[start as int],
            ..m
        },
        Message::Grid(GridMessage::DragEnded) => m,
        Message::Picker(p) => if p == PickerMessage::CopyHex {
            m
        } else {
            let c = picker_step(m.picker, p);
            EditorModel {
                draft: paint(m.draft, m.selection, c),
                picker: c,
                active_preset: None,
                ..m
            }
        },
        Message::PresetSelected(kind, table) => EditorModel {
            draft: table@,
            selection: None,
            picker: table@[0],
            active_preset: Some(kind),
            ..m
        },
        Message::Accept => m,
        Message::Cancel => EditorModel { draft: m.baseline, active_preset: None, ..m },
    }
}

/// The editor's answer to `msg`: the draft on accept, a cancel on cancel,
/// nothing otherwise.
pub open spec fn editor_output(m: EditorModel, msg: Message) -> Option<EventModel> {
    match msg {
        Message::Accept => Some(EventModel::Accepted(m.draft)),
        Message::Cancel => Some(EventModel::Cancelled),
        _ => None,
    }
}

/// Law: no message changes the baseline.
pub proof fn lemma_baseline_kept(m: EditorModel, msg: Message)
    ensures
        editor_next(m, msg).baseline == m.baseline,
{
}

/// Law: cancelling throws the edits away: the draft is the baseline again,
/// no preset is active any more, the selection and the picker stay, and
/// accepting right after hands back the baseline.
pub proof fn lemma_cancel_restores(m: EditorModel)
    ensures
        editor_next(m, Message::Cancel).draft == m.baseline,
        editor_next(m, Message::Cancel).active_preset == None::<PresetKind>,
        editor_next(m, Message::Cancel).selection == m.selection,
        editor_next(m, Message::Cancel).picker == m.picker,
        editor_output(m, Message::Cancel) == Some(EventModel::Cancelled),
        editor_output(editor_next(m, Message::Cancel), Message::Accept) == Some(
            EventModel::Accepted(m.baseline),
        ),
{
}

/// Law: accepting hands back the draft and leaves the editor as it was, so
/// accepting twice hands back the same table twice.
pub proof fn lemma_accept_keeps_state(m: EditorModel)
    ensures
        editor_next(m, Message::Accept) == m,
        editor_output(m, Message::Accept) == Some(EventModel::Accepted(m.draft)),
{
}

/// Law: a picker message other than a copy sets the picker color (a channel
/// message sets that channel, the others keep it), clears the active preset,
/// and changes only the selected bytes, all to the new picker color; without a
/// selection the draft is unchanged.
pub proof fn lemma_picker_paints_selection(m: EditorModel, p: PickerMessage, i: int)
    requires
        p != PickerMessage::CopyHex,
        0 <= i < m.draft.len(),
    ensures
        editor_next(m, Message::Picker(p)).picker == (match p {
            PickerMessage::RedChanged(v) => Rgb { r: v, g: m.picker.g, b: m.picker.b },
            PickerMessage::GreenChanged(v) => Rgb { r: m.picker.r, g: v, b: m.picker.b },
            PickerMessage::BlueChanged(v) => Rgb { r: m.picker.r, g: m.picker.g, b: v },
            _ => m.picker,
        }),
        editor_next(m, Message::Picker(p)).active_preset == None::<PresetKind>,
        editor_next(m, Message::Picker(p)).selection == m.selection,
        editor_next(m, Message::Picker(p)).draft.len() == m.draft.len(),
        editor_next(m, Message::Picker(p)).draft[i] == (match m.selection {
            Some((start, end)) => if start <= i <= end {
                editor_next(m, Message::Picker(p)).picker
            } else {
                m.draft[i]
            },
            None => m.draft[i],
        }),
{
}

/// Law: selecting bytes leaves the draft as it is and loads the picker with
/// the color of the first selected byte.
pub proof fn lemma_selection_loads_picker(m: EditorModel, start: u8, end: u8)
    ensures
        editor_next(m, Message::Grid(GridMessage::SelectionChanged { start, end })).draft
            == m.draft,
        editor_next(m, Message::Grid(GridMessage::SelectionChanged { start, end })).picker
            == m.draft[start as int],
        editor_next(m, Message::Grid(GridMessage::SelectionChanged { start, end })).selection
            == Some((start, end)),
        editor_next(m, Message::Grid(GridMessage::SelectionChanged { start, end })).active_preset
            == m.active_preset,
{
}

/// Law: the end of a drag changes nothing in the editor and answers nothing;
/// nor does a request to copy the picker color.
pub proof fn lemma_passive_messages(m: EditorModel)
    ensures
        editor_next(m, Message::Grid(GridMessage::DragEnded)) == m,
        editor_output(m, Message::Grid(GridMessage::DragEnded)) == None::<EventModel>,
        editor_next(m, Message::Picker(PickerMessage::CopyHex)) == m,
        editor_output(m, Message::Picker(PickerMessage::CopyHex)) == None::<EventModel>,
{
}

/// Law: choosing a preset puts its table in the draft, loads the picker with
/// the preset's color of byte 0, clears the selection and marks the preset as
/// active; the baseline stays.
pub proof fn lemma_preset_loads_table(m: EditorModel, kind: PresetKind, table: ColorMap)
    ensures
        editor_next(m, Message::PresetSelected(kind, table)).draft == table@,
        editor_next(m, Message::PresetSelected(kind, table)).picker == table@[0],
        editor_next(m, Message::PresetSelected(kind, table)).selection == None::<(u8, u8)>,
        editor_next(m, Message::PresetSelected(kind, table)).active_preset == Some(kind),
        editor_next(m, Message::PresetSelected(kind, table)).baseline == m.baseline,
        editor_output(m, Message::PresetSelected(kind, table)) == None::<EventModel>,
{
}

/// Law: a preset replaces the whole draft and clears the selection, so a
/// following picker change paints nothing until bytes are selected again.
pub proof fn lemma_preset_then_picker(m: EditorModel, kind: PresetKind, table: ColorMap, p: PickerMessage)
    ensures
        editor_next(m, Message::PresetSelected(kind, table)).draft == table@,
        editor_next(editor_next(m, Message::PresetSelected(kind, table)), Message::Picker(p)).draft
            == table@,
{
}

/// Edits a 256-entry color map.
pub struct ColorMapEditor {
    draft: [Rgb; 256],
    baseline: [Rgb; 256],
    selection: Option<(u8, u8)>,
    picker_state: ColorPickerState,
    active_preset: Option<PresetKind>,
}

impl View for ColorMapEditor {
    type V = EditorModel;

    closed spec fn view(&self) -> EditorModel {
        EditorModel {
            draft: self.draft@,
            baseline: self.baseline@,
            selection: self.selection,
            picker: picker_color(self.picker_state),
            active_preset: self.active_preset,
        }
    }
}

/// Sets every entry of the selection `start..=end` of `draft` to the picker color.
fn apply_picker_to_selection(
    draft: &mut [Rgb; 256],
    selection: Option<(u8, u8)>,
    picker: &ColorPickerState,
)
    ensures
        final(draft)@ == paint(old(draft)@, selection, picker_color(*picker)),
{
    if let Some((start, end)) = selection {
        let rgb = picker.to_rgb();
        let mut i: u16 = start as u16;
        while i <= end as u16
            invariant
                start <= i,
                i <= end as u16 + 1 || i == start,
                final(draft)@.len() == 256,
                draft@.len() == 256,
                forall|j: int|
                    0 <= j < 256 ==> #[trigger] draft@[j] == (if start <= j < i {
                        rgb
                    } else {
                        old(draft)@[j]
                    }),
            decreases end as u16 + 1 - i,
        {
            draft[i as usize] = rgb;
            i = i + 1;
        }
        assert(draft@ =~= paint(old(draft)@, selection, picker_color(*picker)));
    }
}

impl ColorMapEditor {
    /// Opens the editor on `initial`: the draft and the baseline are its
    /// table, nothing is selected, and the picker shows the color of byte 0.
    pub fn new(initial: &ColorMap) -> (e: ColorMapEditor)
        ensures
            e@ == (EditorModel {
                draft: initial@,
                baseline: initial@,
                selection: None,
                picker: initial@[0],
                active_preset: None,
            }),
            e@.draft.len() == 256,
    {
        let table = *initial.as_table();
        ColorMapEditor {
            draft: table,
            baseline: table,
            selection: None,
            picker_state: ColorPickerState::from_rgb(table[0]),
            active_preset: None,
        }
    }

    /// The picker color as `#RRGGBB`.
    pub fn picker_hex_string(&self) -> (s: String)
        ensures
            s@ == hex_color_text(self@.picker),
    {
        rgb_hex_string(self.picker_state.to_rgb())
    }

    /// Handles one message; answers on accept and on cancel.
    pub fn update(&mut self, message: Message) -> (event: Option<Event>)
        ensures
            final(self)@ == editor_next(old(self)@, message),
            event_model(event) == editor_output(old(self)@, message),
            final(self)@.draft.len() == 256,
            final(self)@.baseline.len() == 256,
            final(self)@.baseline == old(self)@.baseline,
            match message {
                Message::Grid(GridMessage::SelectionChanged { start, end }) => {
                    &&& final(self)@.selection == Some((start, end))
                    &&& final(self)@.picker == old(self)@.draft[start as int]
                    &&& final(self)@.draft == old(self)@.draft
                    &&& final(self)@.active_preset == old(self)@.active_preset
                    &&& event is None
                },
                Message::Grid(GridMessage::DragEnded) => final(self)@ == old(self)@ && event is None,
                Message::Picker(p) => {
                    &&& event is None
                    &&& p == PickerMessage::CopyHex ==> final(self)@ == old(self)@
                    &&& p != PickerMessage::CopyHex ==> {
                        &&& final(self)@.selection == old(self)@.selection
                        &&& final(self)@.active_preset == None::<PresetKind>
                        &&& final(self)@.picker == match p {
                            PickerMessage::RedChanged(v) => Rgb { r: v, ..old(self)@.picker },
                            PickerMessage::GreenChanged(v) => Rgb { g: v, ..old(self)@.picker },
                            PickerMessage::BlueChanged(v) => Rgb { b: v, ..old(self)@.picker },
                            _ => old(self)@.picker,
                        }
                        &&& forall|i: int|
                            0 <= i < 256 ==> #[trigger] final(self)@.draft[i] == (
                            match old(self)@.selection {
                                Some((start, end)) => if start <= i <= end {
                                    final(self)@.picker
                                } else {
                                    old(self)@.draft[i]
                                },
                                None => old(self)@.draft[i],
                            })
                    }
                },
                Message::PresetSelected(kind, table) => {
                    &&& final(self)@.draft == table@
                    &&& final(self)@.selection == None::<(u8, u8)>
                    &&& final(self)@.picker == table@[0]
                    &&& final(self)@.active_preset == Some(kind)
                    &&& event is None
                },
                Message::Accept => final(self)@ == old(self)@ && event_model(event) == Some(
                    EventModel::Accepted(old(self)@.draft),
                ),
                Message::Cancel => {
                    &&& final(self)@.draft == old(self)@.baseline
                    &&& final(self)@.active_preset == None::<PresetKind>
                    &&& final(self)@.selection == old(self)@.selection
                    &&& final(self)@.picker == old(self)@.picker
                    &&& event_model(event) == Some(EventModel::Cancelled)
                },
            },
    {
        match message {
            Message::Grid(GridMessage::SelectionChanged { start, end }) => {
                self.selection = Some((start, end));
                let c = self.draft[start as usize];
                self.picker_state = ColorPickerState::from_rgb(c);
            },
            Message::Grid(GridMessage::DragEnded) => {},
            Message::Picker(inner) => {
                if let PickerMessage::CopyHex = inner {
                    return None;
                }
                self.picker_state.update(&inner);
                self.active_preset = None;
                apply_picker_to_selection(&mut self.draft, self.selection, &self.picker_state);
            },
            Message::PresetSelected(kind, table) => {
                self.active_preset = Some(kind);
                self.selection = None;
                self.draft = *table.as_table();
                self.picker_state = ColorPickerState::from_rgb(self.draft[0]);
            },
            Message::Accept => {
                return Some(Event::Accepted(ColorMap::new(self.draft)));
            },
            Message::Cancel => {
                self.draft = self.baseline;
                self.active_preset = None;
                return Some(Event::Cancelled);
            },
        }
        None
    }

    /// The table being edited.
    pub fn draft(&self) -> (t: &[Rgb; 256])
        ensures
            t@ == self@.draft,
    {
        &self.draft
    }

    /// The table the editor was opened with.
    pub fn baseline(&self) -> (t: &[Rgb; 256])
        ensures
            t@ == self@.baseline,
    {
        &self.baseline
    }

    /// The selected bytes `start..=end`, if any.
    pub fn selection(&self) -> (s: Option<(u8, u8)>)
        ensures
            s == self@.selection,
    {
        self.selection
    }

    /// The picker.
    pub fn picker(&self) -> (p: &ColorPickerState)
        ensures
            picker_color(*p) == self@.picker,
    {
        &self.picker_state
    }

    /// The preset last chosen, until the draft is edited otherwise.
    pub fn active_preset(&self) -> (p: Option<PresetKind>)
        ensures
            p == self@.active_preset,
    {
        self.active_preset
    }
}

} // verus!
