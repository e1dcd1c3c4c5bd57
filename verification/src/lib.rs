//! Renders vector documents as terminal glyphs: a rasterizer behind a
//! narrow trusted boundary, an integer ink model, contrast-aware glyph
//! selection, a rasterization-free content sniffer, and an ordered
//! fallback chain that settles every readable document on something
//! printable. Around it: the file-scan decisions, the shell command
//! grammar, and the small memory stores.

pub mod fit;
pub mod glyphs;
pub mod grid;
pub mod kv;
pub mod launcher;
pub mod memory;
pub mod raster;
pub mod render;
pub mod scanner;
pub mod shell;
pub mod sniff;
pub mod text;
pub mod view;
