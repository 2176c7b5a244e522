//! Records shared by several fragments.
pub mod render_info;
pub mod encoded_filename;
pub mod location;
pub mod render;
