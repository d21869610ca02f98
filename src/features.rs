use vstd::prelude::*;

use crate::matrix::{matrix_width, shape_fits, FeatureMatrix};
use crate::song::{Song, SCALE};

verus! {

/// Number of dimensions of a feature vector.
pub const DIMENSIONS: usize = 15;

/// The year from which a song's age is counted.
pub const REFERENCE_YEAR: u16 = 2025;

/// Lowest tempo, in fixed-point BPM, that enters a feature vector.
pub const MIN_TEMPO: i32 = 400000;

/// Highest tempo, in fixed-point BPM, that enters a feature vector.
pub const MAX_TEMPO: i32 = 2000000;

/// Column of the tempo feature.
pub const TEMPO_COLUMN: usize = 12;

/// Column of the cosine of the key angle; the sine follows it.
pub const KEY_COS_COLUMN: usize = 3;

/// `cos(2 * pi * key / 12)` in fixed point, rounded to the nearest unit.
pub open spec fn key_cos(key: u8) -> int {
    let k = key % 12;
    if k == 0 { 10000 }
    else if k == 1 || k == 11 { 8660 }
    else if k == 2 || k == 10 { 5000 }
    else if k == 3 || k == 9 { 0 }
    else if k == 4 || k == 8 { -5000 }
    else if k == 5 || k == 7 { -8660 }
    else { -10000 }
}

/// `sin(2 * pi * key / 12)` in fixed point, rounded to the nearest unit.
pub open spec fn key_sin(key: u8) -> int {
    let k = key % 12;
    if k == 0 || k == 6 { 0 }
    else if k == 1 || k == 5 { 5000 }
    else if k == 2 || k == 4 { 8660 }
    else if k == 3 { 10000 }
    else if k == 7 || k == 11 { -5000 }
    else if k == 8 || k == 10 { -8660 }
    else { -10000 }
}

/// A tempo limited to `[MIN_TEMPO, MAX_TEMPO]`.
pub open spec fn clamp_tempo(tempo: i32) -> i32 {
    if tempo < MIN_TEMPO {
        MIN_TEMPO
    } else if tempo > MAX_TEMPO {
        MAX_TEMPO
    } else {
        tempo
    }
}

/// The feature vector of a song, in column order: age, danceability,
/// energy, key cosine, key sine, loudness, mode, speechiness, acousticness,
/// instrumentalness, liveness, valence, clamped tempo, log duration and time
/// signature. `log_duration` is the natural logarithm of the duration in
/// milliseconds, in fixed point.
pub open spec fn feature_vector(song: Song, reference_year: u16, log_duration: i32) -> Seq<i32> {
    seq![
        ((reference_year - song.year) * SCALE) as i32,
        song.danceability,
        song.energy,
        key_cos(song.key) as i32,
        key_sin(song.key) as i32,
        song.loudness,
        (song.mode * SCALE) as i32,
        song.speechiness,
        song.acousticness,
        song.instrumentalness,
        song.liveness,
        song.valence,
        clamp_tempo(song.tempo),
        log_duration,
        (song.time_signature * SCALE) as i32,
    ]
}

fn key_cos_units(key: u8) -> (r: i32)
    ensures
        r == key_cos(key),
{
    let k = key % 12;
    if k == 0 { 10000 }
    else if k == 1 || k == 11 { 8660 }
    else if k == 2 || k == 10 { 5000 }
    else if k == 3 || k == 9 { 0 }
    else if k == 4 || k == 8 { -5000 }
    else if k == 5 || k == 7 { -8660 }
    else { -10000 }
}

fn key_sin_units(key: u8) -> (r: i32)
    ensures
        r == key_sin(key),
{
    let k = key % 12;
    if k == 0 || k == 6 { 0 }
    else if k == 1 || k == 5 { 5000 }
    else if k == 2 || k == 4 { 8660 }
    else if k == 3 { 10000 }
    else if k == 7 || k == 11 { -5000 }
    else if k == 8 || k == 10 { -8660 }
    else { -10000 }
}

/// Maps a song to its feature vector.
pub fn vectorize(song: &Song, reference_year: u16, log_duration: i32) -> (r: Vec<i32>)
    ensures
        r@ == feature_vector(*song, reference_year, log_duration),
        r@.len() == DIMENSIONS,
{
    let age: i32 = (reference_year as i32 - song.year as i32) * SCALE;
    let tempo: i32 = if song.tempo < MIN_TEMPO {
        MIN_TEMPO
    } else if song.tempo > MAX_TEMPO {
        MAX_TEMPO
    } else {
        song.tempo
    };
    let r = vec![
        age,
        song.danceability,
        song.energy,
        key_cos_units(song.key),
        key_sin_units(song.key),
        song.loudness,
        song.mode as i32 * SCALE,
        song.speechiness,
        song.acousticness,
        song.instrumentalness,
        song.liveness,
        song.valence,
        tempo,
        log_duration,
        song.time_signature as i32 * SCALE,
    ];
    assert(r@ =~= feature_vector(*song, reference_year, log_duration));
    r
}

/// The key angle is encoded so that key 0 lies at `(1, 0)` and key 6, half
/// way round the circle, at `(-1, 0)`.
pub proof fn lemma_key_encoding_poles(song: Song, reference_year: u16, log_duration: i32)
    ensures
        song.key == 0 ==> feature_vector(song, reference_year, log_duration)[KEY_COS_COLUMN as int]
            == SCALE && feature_vector(song, reference_year, log_duration)[KEY_COS_COLUMN + 1] == 0,
        song.key == 6 ==> feature_vector(song, reference_year, log_duration)[KEY_COS_COLUMN as int]
            == -SCALE && feature_vector(song, reference_year, log_duration)[KEY_COS_COLUMN + 1] == 0,
{
}

/// Tempos above the upper bound are encoded as the upper bound, and tempos
/// below the lower bound as the lower bound; nothing else changes.
pub proof fn lemma_tempo_clamped(song: Song, reference_year: u16, log_duration: i32)
    ensures
        song.tempo >= MAX_TEMPO ==> feature_vector(song, reference_year, log_duration)
            == feature_vector(Song { tempo: MAX_TEMPO, ..song }, reference_year, log_duration),
        song.tempo <= MIN_TEMPO ==> feature_vector(song, reference_year, log_duration)
            == feature_vector(Song { tempo: MIN_TEMPO, ..song }, reference_year, log_duration),
{
    let v = feature_vector(song, reference_year, log_duration);
    if song.tempo >= MAX_TEMPO {
        assert(v =~= feature_vector(Song { tempo: MAX_TEMPO, ..song }, reference_year, log_duration));
    }
    if song.tempo <= MIN_TEMPO {
        assert(v =~= feature_vector(Song { tempo: MIN_TEMPO, ..song }, reference_year, log_duration));
    }
}

/// The feature matrix of a catalog: row `i` is the feature vector of song
/// `i`, whose log duration is `log_durations[i]`.
pub fn feature_matrix(songs: &[Song], reference_year: u16, log_durations: &[i32]) -> (r: FeatureMatrix)
    requires
        songs@.len() == log_durations@.len(),
        shape_fits(songs@.len() as int, DIMENSIONS as int),
    ensures
        matrix_width(r) == DIMENSIONS,
        r@.len() == songs@.len(),
        forall|i: int|
            0 <= i < songs@.len() ==> #[trigger] r@[i] == feature_vector(
                songs@[i],
                reference_year,
                log_durations@[i],
            ),
{
    let mut rows: Vec<Vec<i32>> = Vec::new();
    let mut i: usize = 0;
    while i < songs.len()
        invariant
            i <= songs@.len(),
            songs@.len() == log_durations@.len(),
            rows@.len() == i,
            forall|j: int|
                0 <= j < i ==> (#[trigger] rows@[j])@ == feature_vector(
                    songs@[j],
                    reference_year,
                    log_durations@[j],
                ) && rows@[j]@.len() == DIMENSIONS,
        decreases songs@.len() - i,
    {
        let v = vectorize(&songs[i], reference_year, log_durations[i]);
        rows.push(v);
        i = i + 1;
    }
    FeatureMatrix::from_uniform_rows(&rows, DIMENSIONS)
}

} // verus!
