//! Discovery, ordering and assembly logic for downloading a serialized
//! publication chapter by chapter into one document per chapter.

pub mod text;
pub mod order;
pub mod chapters;
pub mod extract;
pub mod headers;
pub mod assembly;
pub mod workflow;
