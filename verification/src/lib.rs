//! Open Badge baking: image type resolution and the two patchers that embed a
//! verification payload into a PNG or an SVG image, with the settings and the rules
//! of the program around them.

pub mod arguments;
pub mod environment;
pub mod hash;
pub mod objects;
pub mod open_badge;
pub mod patcher;
pub mod process;
pub mod settings;
pub mod signature;
pub mod util;
