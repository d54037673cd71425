//! Reads a plain-text chemical structure (atom records with coordinates and
//! element symbols, followed by connectivity records) into an immutable
//! geometric model: styled atoms, oriented bonds and a framing projection.
//!
//! Coordinates are held exactly as fixed-point integers, so every geometric
//! decision (which bonds are axis-aligned, how large the frame is) is proved
//! over exact arithmetic.

pub mod atoms;
pub mod bonds;
pub mod element;
pub mod geometry;
pub mod laws;
pub mod mol;
pub mod text;

pub use atoms::Atom;
pub use bonds::{Bond, BondColor, BondSettings, ColorPolicy, ParseError};
pub use element::{Color, Element, Style};
pub use geometry::{Orientation, UpAxis, Vector3};
pub use mol::{Mol, Projection};
