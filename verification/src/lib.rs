pub mod image_buffer;
pub mod codec;
pub mod img;
pub mod our_gl;
pub mod text;
pub mod pattern;
pub mod model;
pub mod render;
