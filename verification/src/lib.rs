//! Verified core of the AA editor: project files, MLT collections,
//! item information, layer bookkeeping and path helpers.

pub mod canvas;
pub mod item_info;
pub mod layers;
pub mod loading;
pub mod mlt;
pub mod paths;
pub mod project_file;
pub mod settings;
pub mod state;
pub mod text;
pub mod tree;
