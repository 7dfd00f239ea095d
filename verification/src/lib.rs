//! An in-memory music library: named playlists holding songs, with
//! verified operations to create playlists, append songs to the first
//! playlist bearing a requested name, and search songs by a contiguous
//! fragment of their title.

pub mod library;
pub mod text;
