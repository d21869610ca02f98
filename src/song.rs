use vstd::prelude::*;

verus! {

/// Number of fixed-point units in one unit of a real-valued quantity:
/// every real-valued audio attribute and every feature is held as an
/// integer count of ten-thousandths.
pub const SCALE: i32 = 10000;

/// One catalog entry.
///
/// Identifiers and categorical attributes are kept as they are; the
/// real-valued audio attributes are fixed-point numbers in units of
/// `1 / SCALE` (a danceability of 0.5 is `5000`, a tempo of 120 BPM is
/// `1_200_000`).
pub struct Song {
    pub artist_name: String,
    pub track_name: String,
    pub track_id: String,
    pub popularity: u8,
    pub year: u16,
    pub genre: String,
    pub danceability: i32,
    pub energy: i32,
    pub key: u8,
    pub loudness: i32,
    pub mode: u8,
    pub speechiness: i32,
    pub acousticness: i32,
    pub instrumentalness: i32,
    pub liveness: i32,
    pub valence: i32,
    pub tempo: i32,
    pub duration_ms: u32,
    pub time_signature: u8,
}

} // verus!
