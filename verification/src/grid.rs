//! The 16x16 byte grid: which cell a point falls in, and the press / drag /
//! release interaction that selects a range of bytes.
use vstd::prelude::*;

verus! {

/// What the grid reports to the editor.
#[derive(Debug, Clone, Copy, PartialEq, Eq, Structural)]
pub enum GridMessage {
    /// The selection is now the bytes `start..=end`.
    SelectionChanged { start: u8, end: u8 },
    /// The drag that made the selection is over.
    DragEnded,
}

/// A pointer event on the grid, with the byte cell under the cursor if the
/// cursor is over a cell.
#[derive(Debug, Clone, Copy, PartialEq, Eq, Structural)]
pub enum GridInput {
    LeftPressed(Option<u8>),
    CursorMoved(Option<u8>),
    LeftReleased,
    Other,
}

/// What the grid does with an event it handles: it always captures the
/// event, and may publish a message.
#[derive(Debug, Clone, Copy, PartialEq, Eq, Structural)]
pub enum GridAction {
    Capture,
    Publish(GridMessage),
}

/// The mouse cursor the grid asks for.
#[derive(Debug, Clone, Copy, PartialEq, Eq, Structural)]
pub enum CursorStyle {
    Crosshair,
    Pointer,
    Default,
}

/// The state of a drag on the grid: the byte where it started, and whether
/// the button is still down.
#[derive(Debug, Clone, Copy)]
pub struct GridInteraction {
    anchor: Option<u8>,
    dragging: bool,
}

/// The abstract state of a drag: the anchor byte, and whether it is going on.
pub ghost struct DragState {
    pub anchor: Option<u8>,
    pub dragging: bool,
}

impl View for GridInteraction {
    type V = DragState;

    closed spec fn view(&self) -> DragState {
        DragState { anchor: self.anchor, dragging: self.dragging }
    }
}

/// The smaller of two bytes.
pub open spec fn min_u8(a: u8, b: u8) -> u8 {
    if a <= b { a } else { b }
}

/// The larger of two bytes.
pub open spec fn max_u8(a: u8, b: u8) -> u8 {
    if a <= b { b } else { a }
}

/// The drag state after `input`.
pub open spec fn drag_next(s: DragState, input: GridInput) -> DragState {
    match input {
        GridInput::LeftPressed(Some(b)) => DragState { anchor: Some(b), dragging: true },
        GridInput::LeftReleased => if s.dragging {
            DragState { dragging: false, ..s }
        } else {
            s
        },
        _ => s,
    }
}

/// What the grid answers to `input` in state `s`: a press on a cell starts a
/// one-byte selection; a move during a drag selects from the anchor to the
/// cell under the cursor, in increasing order; a release ends the drag.
/// Anything else is left to others (`None`).
pub open spec fn drag_action(s: DragState, input: GridInput) -> Option<GridAction> {
    match input {
        GridInput::LeftPressed(Some(b)) => Some(
            GridAction::Publish(GridMessage::SelectionChanged { start: b, end: b }),
        ),
        GridInput::CursorMoved(hit) => if s.dragging {
            match (hit, s.anchor) {
                (Some(b), Some(a)) => Some(
                    GridAction::Publish(
                        GridMessage::SelectionChanged { start: min_u8(a, b), end: max_u8(a, b) },
                    ),
                ),
                _ => Some(GridAction::Capture),
            }
        } else {
            None
        },
        GridInput::LeftReleased => if s.dragging {
            Some(GridAction::Publish(GridMessage::DragEnded))
        } else {
            None
        },
        _ => None,
    }
}

impl GridInteraction {
    /// No drag going on, no anchor.
    pub fn new() -> (s: GridInteraction)
        ensures
            s@ == (DragState { anchor: None, dragging: false }),
    {
        GridInteraction { anchor: None, dragging: false }
    }

    /// The byte where the current or last drag started.
    pub fn anchor(&self) -> (a: Option<u8>)
        ensures
            a == self@.anchor,
    {
        self.anchor
    }

    /// Whether a drag is going on.
    pub fn is_dragging(&self) -> (d: bool)
        ensures
            d == self@.dragging,
    {
        self.dragging
    }

    /// Handles one pointer event.
    pub fn update(&mut self, input: GridInput) -> (action: Option<GridAction>)
        ensures
            final(self)@ == drag_next(old(self)@, input),
            action == drag_action(old(self)@, input),
            match input {
                GridInput::LeftPressed(Some(b)) => {
                    &&& final(self)@.anchor == Some(b)
                    &&& final(self)@.dragging
                    &&& action == Some(
                        GridAction::Publish(GridMessage::SelectionChanged { start: b, end: b }),
                    )
                },
                GridInput::LeftPressed(None) => final(self)@ == old(self)@ && action is None,
                GridInput::CursorMoved(hit) => {
                    &&& final(self)@ == old(self)@
                    &&& if !old(self)@.dragging {
                        action is None
                    } else {
                        match (hit, old(self)@.anchor) {
                            (Some(b), Some(a)) => action == Some(
                                GridAction::Publish(
                                    GridMessage::SelectionChanged {
                                        start: if a <= b {
                                            a
                                        } else {
                                            b
                                        },
                                        end: if a <= b {
                                            b
                                        } else {
                                            a
                                        },
                                    },
                                ),
                            ),
                            _ => action == Some(GridAction::Capture),
                        }
                    }
                },
                GridInput::LeftReleased => {
                    &&& final(self)@.anchor == old(self)@.anchor
                    &&& !final(self)@.dragging
                    &&& action == (if old(self)@.dragging {
                        Some(GridAction::Publish(GridMessage::DragEnded))
                    } else {
                        None
                    })
                },
                GridInput::Other => final(self)@ == old(self)@ && action is None,
            },
    {
        match input {
            GridInput::LeftPressed(hit) => {
                match hit {
                    Some(b) => {
                        self.anchor = Some(b);
                        self.dragging = true;
                        Some(GridAction::Publish(GridMessage::SelectionChanged { start: b, end: b }))
                    },
                    None => None,
                }
            },
            GridInput::CursorMoved(hit) => {
                if self.dragging {
                    match (hit, self.anchor) {
                        (Some(b), Some(a)) => {
                            let start = if a <= b { a } else { b };
                            let end = if a <= b { b } else { a };
                            Some(GridAction::Publish(GridMessage::SelectionChanged { start, end }))
                        },
                        _ => Some(GridAction::Capture),
                    }
                } else {
                    None
                }
            },
            GridInput::LeftReleased => {
                if self.dragging {
                    self.dragging = false;
                    Some(GridAction::Publish(GridMessage::DragEnded))
                } else {
                    None
                }
            },
            GridInput::Other => None,
        }
    }

    /// The cursor to show: a crosshair during a drag, a pointer over the grid,
    /// the default one elsewhere.
    pub fn cursor_style(&self, cursor_over: bool) -> (c: CursorStyle)
        ensures
            c == (if self@.dragging {
                CursorStyle::Crosshair
            } else if cursor_over {
                CursorStyle::Pointer
            } else {
                CursorStyle::Default
            }),
    {
        if self.dragging {
            CursorStyle::Crosshair
        } else if cursor_over {
            CursorStyle::Pointer
        } else {
            CursorStyle::Default
        }
    }
}

impl Default for GridInteraction {
    fn default() -> (s: GridInteraction)
        ensures
            s@ == (DragState { anchor: None, dragging: false }),
    {
        GridInteraction::new()
    }
}

/// The byte of the cell in column `col` and row `row`, if both are inside
/// the 16x16 grid.
pub fn hit_test_cell(col: usize, row: usize) -> (hit: Option<u8>)
    ensures
        hit == (if col < 16 && row < 16 {
            Some((row * 16 + col) as u8)
        } else {
            None
        }),
{
    if col < 16 && row < 16 {
        Some((row * 16 + col) as u8)
    } else {
        None
    }
}

/// The (column, row) of the cell of byte `b`.
pub fn cell_position(b: u8) -> (pos: (u8, u8))
    ensures
        pos == ((b % 16) as u8, (b / 16) as u8),
{
    (b % 16, b / 16)
}

/// Law: the cell of byte `b` is hit at that cell's column and row, and a hit
/// cell lies at the column and row that were tested.
pub proof fn lemma_hit_test_cell_position(b: u8, col: usize, row: usize)
    ensures
        col == b % 16 && row == b / 16 ==> (if col < 16 && row < 16 {
            Some((row * 16 + col) as u8)
        } else {
            None::<u8>
        }) == Some(b),
        col < 16 && row < 16 ==> (((row * 16 + col) as u8) % 16) as usize == col && (((row * 16
            + col) as u8) / 16) as usize == row,
{
}

/// Law: every selection the grid publishes runs upward: `start <= end`.
pub proof fn lemma_published_selection_ordered(s: DragState, input: GridInput)
    ensures
        drag_action(s, input) matches Some(GridAction::Publish(GridMessage::SelectionChanged { start, end })) ==> start <= end,
{
}

/// The drag state after a series of cursor moves, each over the given cell
/// (or over no cell).
pub open spec fn after_moves(s: DragState, moves: Seq<Option<u8>>) -> DragState
    decreases moves.len(),
{
    if moves.len() == 0 {
        s
    } else {
        drag_next(after_moves(s, moves.drop_last()), GridInput::CursorMoved(moves.last()))
    }
}

/// Law: a cursor move never changes the drag state: neither the anchor nor
/// whether a drag is going on.
pub proof fn lemma_move_keeps_drag_state(s: DragState, hit: Option<u8>)
    ensures
        drag_next(s, GridInput::CursorMoved(hit)).anchor == s.anchor,
        drag_next(s, GridInput::CursorMoved(hit)).dragging == s.dragging,
{
}

/// Law: after a press on byte `a`, however the cursor moved since, the anchor
/// is still `a`, and a move over byte `b` selects from the smaller to the
/// larger of `a` and `b`, so both ends are in the selection.
pub proof fn lemma_drag_selects_between(s: DragState, a: u8, moves: Seq<Option<u8>>, b: u8)
    ensures
        ({
            let held = after_moves(drag_next(s, GridInput::LeftPressed(Some(a))), moves);
            &&& held.anchor == Some(a)
            &&& held.dragging
            &&& drag_action(held, GridInput::CursorMoved(Some(b))) == Some(
                GridAction::Publish(
                    GridMessage::SelectionChanged {
                        start: if a <= b {
                            a
                        } else {
                            b
                        },
                        end: if a <= b {
                            b
                        } else {
                            a
                        },
                    },
                ),
            )
        }),
    decreases moves.len(),
{
    if moves.len() > 0 {
        lemma_drag_selects_between(s, a, moves.drop_last(), b);
        let prev = after_moves(drag_next(s, GridInput::LeftPressed(Some(a))), moves.drop_last());
        lemma_move_keeps_drag_state(prev, moves.last());
    }
}

/// Law: a release ends the drag and keeps the anchor; only a press on a cell
/// sets the anchor, to that cell.
pub proof fn lemma_press_and_release(s: DragState, input: GridInput, b: u8)
    ensures
        !drag_next(s, GridInput::LeftReleased).dragging,
        drag_next(s, GridInput::LeftReleased).anchor == s.anchor,
        drag_next(s, GridInput::LeftPressed(Some(b))).anchor == Some(b),
        drag_next(s, GridInput::LeftPressed(Some(b))).dragging,
        !(input matches GridInput::LeftPressed(Some(_))) ==> drag_next(s, input).anchor
            == s.anchor,
{
}

} // verus!
