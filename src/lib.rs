//! Red/cyan anaglyph synthesis from stereo pairs, side-by-side images and
//! frame sequences, with every pixel transform stated and proved in Verus.

pub mod anaglyph;
pub mod frame;
pub mod sequence;
pub mod video;
pub mod gif;
