use vstd::prelude::*;

verus! {

/// Every rebindable command of the drawing surface. The mapping from keys
/// to actions lives with the terminal front end; the engine only names the
/// actions themselves.
#[derive(Clone, Copy, PartialEq, Eq, Structural, Hash, Debug)]
pub enum Action {
    Quit,
    MoveCursorUp,
    MoveCursorDown,
    MoveCursorLeft,
    MoveCursorRight,
    OpenCommandPrompt,
    OpenColorPicker,
    OpenToolPicker,
    PanViewUp,
    PanViewDown,
    PanViewLeft,
    PanViewRight,
    ZoomIn,
    ZoomOut,
    Undo,
    Redo,
    IncreasePenSize,
    DecreasePenSize,
    IncreaseOpacity,
    DecreaseOpacity,
    CycleSymmetry,
    PickColor,
    Fill,
    Draw,
    Erase,
    QuickSelectColorUp,
    QuickSelectColorDown,
    QuickSelectColorLeft,
    QuickSelectColorRight,
    QuickSelectToolLeft,
    QuickSelectToolRight,
    AdjustSymmetryNegative,
    AdjustSymmetryPositive,
    Spray,
    SelectLayerUp,
    SelectLayerDown,
    AddLayer,
    DeleteLayer,
    ToggleLayerVisibility,
    MoveLayerUp,
    MoveLayerDown,
    ToggleOnionSkin,
    IncreaseOnionOpacity,
    DecreaseOnionOpacity,
}

} // verus!
