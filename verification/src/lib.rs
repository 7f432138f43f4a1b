//! Marker-pack engine: parsing, merging and runtime activation of
//! community marker packs (categories, POIs and trails), together with
//! the category enable/disable state, the per-map render list and the
//! pack-local texture registry.

pub mod archive;
pub mod attributes;
pub mod category;
pub mod collection;
pub mod geom;
pub mod guid;
pub mod keyboard;
pub mod logfmt;
pub mod mouse;
pub mod pack;
pub mod parser;
pub mod poi;
pub mod render_list;
pub mod settings;
pub mod source;
pub mod text;
pub mod trail;
pub mod texslot;
pub mod texture;
pub mod ui_state;
