use vstd::prelude::*;

pub mod compose;
pub mod fill;
pub mod geometry;
pub mod help;
pub mod history;
pub mod keybindings;
pub mod kmeans;
pub mod layer_ops;
pub mod palette;
pub mod pixel;
pub mod session;
pub mod shade;
pub mod stroke;

pub use compose::Layer;
pub use keybindings::Action;
pub use palette::PaletteEntry;
pub use palette::Tool;
pub use pixel::Pixel;
pub use pixel::Rgb;
pub use session::PenShape;
pub use session::Session;
pub use session::SnapToPaletteMode;
pub use session::StatusMsg;
pub use session::SymmetryMode;

verus! {

} // verus!
