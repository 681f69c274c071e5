//! Reading and writing the file formats of ZZT 3.2: worlds (.ZZT and .SAV) and standalone
//! boards (.BRD), with CP437 text conversion and a plain-text listing of a world's contents.
//!
//! Text is decoded from CP437 (with symbols in the control range) into `String`s, one
//! character per byte, so that any bytes read can be written back unchanged.

pub mod bytes;
pub mod chars;
pub mod decode;
pub mod elements;
pub mod encode;
pub mod errors;
pub mod listing;
pub mod roundtrip;
pub mod text;
pub mod world;

pub use elements::{element_id_from_name, element_name, resolve_alias, Element};
pub use errors::{DecodeError, EncodeError};
pub use listing::{board_to_text, world_to_text};
pub use text::{decode_multiline, decode_oneline, encode_multiline, encode_oneline};
pub use world::{
    Board, BoardView, Keys, Program, ProgramView, Stat, StatView, Tile, World, WorldView,
};
