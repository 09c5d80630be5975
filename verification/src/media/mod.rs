//! Media building: ISO and floppy images from folders, with a
//! content-addressed cache so unchanged folders never rebuild. The caller walks
//! the folders and runs the tools.

pub mod cache;
pub mod floppy;
pub mod hash;
pub mod iso;
