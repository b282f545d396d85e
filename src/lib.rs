//! Decoding engine for a bank-switched cartridge image.
//!
//! The core is the bank-addressed reader (`reader`), the fixed-width record
//! tables built on it (`structures`), the compressed sprite codec
//! (`sprites`) and the scanner that walks the location graph and stitches
//! the overworld together (`maps`). The other modules interpret records
//! (creatures, trainers, wild encounters, texts, hidden objects, entities)
//! and compose pictures from tiles.

pub mod addresses;
pub mod entities;
pub mod hiddens;
pub mod image;
pub mod maps;
pub mod pokedex;
pub mod reader;
pub mod sprites;
pub mod structures;
pub mod text;
pub mod tiling;
pub mod trainers;
pub mod wild;
