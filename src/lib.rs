//! A themed style-description engine: style documents, themes and palettes,
//! colors, and the compiler that lowers documents into stylesheet text.
use vstd::prelude::*;

pub mod text;
pub mod color;
pub mod assoc;
pub mod palette;
pub mod theme;
pub mod sx;
pub mod system_props;
pub mod compile;
pub mod gradient;
pub mod loader;
pub mod baseline;
pub mod style;
pub mod layout;
pub mod logging;
pub mod typography;

verus! {

} // verus!
