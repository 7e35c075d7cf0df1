//! Verified core of two FFGL source plugins: a text source that lays out
//! multi-line text and can cycle through its lines on the host's bar clock,
//! and a dot grid.  Everything here works on plain integers, characters and
//! byte buffers; drawing, fonts and OpenGL stay with the host adapter.
pub mod align;
pub mod dot_grid;
pub mod fonts;
pub mod text_lines;
pub mod text_render;
pub mod text_source;
