//! Clippet: the logic of a clipboard history manager.

pub mod b64;
pub mod bytes;
pub mod capture;
pub mod chrome;
pub mod dib;
pub mod filter;
pub mod fuzzy;
pub mod geometry;
pub mod hash;
pub mod history;
pub mod html;
pub mod icons;
pub mod item;
pub mod list;
pub mod lossy;
pub mod message;
pub mod paste;
pub mod png_io;
pub mod popup;
pub mod preview;
pub mod row;
pub mod rtf;
pub mod session;
pub mod settings;
pub mod storage;
pub mod text;
pub mod thumb;
pub mod wide;
