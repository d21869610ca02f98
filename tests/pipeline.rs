use song_recommender::features::{feature_matrix, vectorize, DIMENSIONS, KEY_COS_COLUMN, REFERENCE_YEAR, TEMPO_COLUMN};
use song_recommender::filter::{build_candidates, GenreFilter, Popularity};
use song_recommender::lookup::find_song;
use song_recommender::matrix::FeatureMatrix;
use song_recommender::normalize::calc_z_sc;
use song_recommender::numeric::floor_sqrt;
use song_recommender::rank::{compute_distances, rank, squared_distances};
use song_recommender::recommend::recommend;
use song_recommender::song::Song;

fn song(id: &str, name: &str, popularity: u8, year: u16, genre: &str, key: u8, tempo: i32) -> Song {
    Song {
        track_id: id.into(),
        track_name: name.into(),
        artist_name: "X".into(),
        popularity,
        year,
        genre: genre.into(),
        danceability: 5000,
        energy: 5000,
        key,
        loudness: -50000,
        mode: 1,
        speechiness: 500,
        acousticness: 1000,
        instrumentalness: 0,
        liveness: 1000,
        valence: 5000,
        tempo,
        duration_ms: 200_000,
        time_signature: 4,
    }
}

fn songs() -> Vec<Song> {
    vec![
        Song {
            track_id: "1".into(),
            track_name: "A".into(),
            artist_name: "X".into(),
            popularity: 40,
            year: 2020,
            genre: "rock".into(),
            danceability: 5000,
            energy: 5000,
            key: 5,
            loudness: -50000,
            mode: 1,
            speechiness: 500,
            acousticness: 1000,
            instrumentalness: 0,
            liveness: 1000,
            valence: 5000,
            tempo: 1_200_000,
            duration_ms: 200_000,
            time_signature: 4,
        },
        Song {
            track_id: "2".into(),
            track_name: "B".into(),
            artist_name: "Y".into(),
            popularity: 60,
            year: 2021,
            genre: "pop".into(),
            danceability: 6000,
            energy: 6000,
            key: 6,
            loudness: -40000,
            mode: 1,
            speechiness: 400,
            acousticness: 2000,
            instrumentalness: 0,
            liveness: 2000,
            valence: 6000,
            tempo: 1_300_000,
            duration_ms: 210_000,
            time_signature: 4,
        },
        Song {
            track_id: "3".into(),
            track_name: "C".into(),
            artist_name: "Z".into(),
            popularity: 70,
            year: 2022,
            genre: "rock".into(),
            danceability: 7000,
            energy: 7000,
            key: 7,
            loudness: -30000,
            mode: 1,
            speechiness: 300,
            acousticness: 3000,
            instrumentalness: 0,
            liveness: 3000,
            valence: 7000,
            tempo: 1_400_000,
            duration_ms: 220_000,
            time_signature: 4,
        },
    ]
}

#[test]
fn build_candidates_basic() {
    let s = songs();
    assert_eq!(build_candidates(&s, &None, &None, 0), vec![1, 2]);
    assert_eq!(
        build_candidates(&s, &Some(Popularity::Popular), &None, 0),
        vec![1, 2]
    );
    assert_eq!(
        build_candidates(&s, &None, &Some(GenreFilter::Different), 0),
        vec![1]
    );
}

#[test]
fn compute_distances_basic() {
    let f = FeatureMatrix::from_rows(vec![vec![0, 0], vec![3, 4], vec![6, 8]]).unwrap();
    let d = compute_distances(0, &[1, 2], &f);
    assert!((d[0].0 as f64 - 5.).abs() < 1e-6 && d[0].1 == 1);
    assert!((d[1].0 as f64 - 10.).abs() < 1e-6 && d[1].1 == 2);
}

#[test]
fn build_candidates_underground_and_same_genre() {
    let s = songs();
    assert_eq!(build_candidates(&s, &Some(Popularity::Underground), &None, 1), vec![0]);
    assert_eq!(build_candidates(&s, &None, &Some(GenreFilter::Same), 0), vec![2]);
    assert_eq!(build_candidates(&s, &Some(Popularity::Underground), &Some(GenreFilter::Same), 0), Vec::<usize>::new());
}

#[test]
fn build_candidates_never_holds_query() {
    let s = songs();
    for q in 0..s.len() {
        let c = build_candidates(&s, &None, &None, q);
        assert!(!c.contains(&q));
        assert_eq!(c.len(), s.len() - 1);
    }
    assert_eq!(build_candidates(&s, &None, &None, 1), vec![0, 2]);
}

#[test]
fn popularity_threshold_is_fifty() {
    let s = vec![song("a", "a", 10, 2000, "x", 0, 0), song("b", "b", 50, 2000, "x", 0, 0), song("c", "c", 49, 2000, "x", 0, 0)];
    assert_eq!(build_candidates(&s, &Some(Popularity::Popular), &None, 0), vec![1]);
    assert_eq!(build_candidates(&s, &Some(Popularity::Underground), &None, 0), vec![2]);
}

#[test]
fn vectorize_has_fifteen_dimensions_in_order() {
    let s = songs();
    let v = vectorize(&s[0], REFERENCE_YEAR, 122_061);
    assert_eq!(v.len(), DIMENSIONS);
    assert_eq!(v.len(), 15);
    assert_eq!(v[0], 50_000);
    assert_eq!(v[1], 5000);
    assert_eq!(v[2], 5000);
    assert_eq!(v[3], -8660);
    assert_eq!(v[4], 5000);
    assert_eq!(v[5], -50000);
    assert_eq!(v[6], 10000);
    assert_eq!(v[7], 500);
    assert_eq!(v[8], 1000);
    assert_eq!(v[9], 0);
    assert_eq!(v[10], 1000);
    assert_eq!(v[11], 5000);
    assert_eq!(v[12], 1_200_000);
    assert_eq!(v[13], 122_061);
    assert_eq!(v[14], 40000);
}

#[test]
fn key_encoding_poles() {
    let v0 = vectorize(&song("a", "a", 0, 2000, "x", 0, 1_000_000), REFERENCE_YEAR, 0);
    assert_eq!((v0[KEY_COS_COLUMN], v0[KEY_COS_COLUMN + 1]), (10000, 0));
    let v6 = vectorize(&song("a", "a", 0, 2000, "x", 6, 1_000_000), REFERENCE_YEAR, 0);
    assert_eq!((v6[KEY_COS_COLUMN], v6[KEY_COS_COLUMN + 1]), (-10000, 0));
    let v3 = vectorize(&song("a", "a", 0, 2000, "x", 3, 1_000_000), REFERENCE_YEAR, 0);
    assert_eq!((v3[KEY_COS_COLUMN], v3[KEY_COS_COLUMN + 1]), (0, 10000));
    let v11 = vectorize(&song("a", "a", 0, 2000, "x", 11, 1_000_000), REFERENCE_YEAR, 0);
    assert_eq!((v11[KEY_COS_COLUMN], v11[KEY_COS_COLUMN + 1]), (8660, -5000));
}

#[test]
fn tempo_is_clamped() {
    let fast = vectorize(&song("a", "a", 0, 2000, "x", 0, 3_000_000), REFERENCE_YEAR, 0);
    let top = vectorize(&song("a", "a", 0, 2000, "x", 0, 2_000_000), REFERENCE_YEAR, 0);
    assert_eq!(fast, top);
    assert_eq!(fast[TEMPO_COLUMN], 2_000_000);
    let slow = vectorize(&song("a", "a", 0, 2000, "x", 0, 100_000), REFERENCE_YEAR, 0);
    let bottom = vectorize(&song("a", "a", 0, 2000, "x", 0, 400_000), REFERENCE_YEAR, 0);
    assert_eq!(slow, bottom);
    assert_eq!(slow[TEMPO_COLUMN], 400_000);
}

#[test]
fn feature_matrix_rows_follow_songs() {
    let s = songs();
    let m = feature_matrix(&s, 2025, &[1, 2, 3]);
    assert_eq!(m.num_rows(), 3);
    assert_eq!(m.width(), 15);
    assert_eq!(m.get(1, 0), 40_000);
    assert_eq!(m.get(2, 13), 3);
    assert_eq!(m.row(1), vectorize(&s[1], 2025, 2));
}

#[test]
fn from_rows_rejects_ragged_rows() {
    assert!(FeatureMatrix::from_rows(vec![vec![1, 2], vec![3]]).is_none());
    let empty = FeatureMatrix::from_rows(vec![]).unwrap();
    assert_eq!(empty.width(), 0);
    assert_eq!(empty.num_rows(), 0);
}

#[test]
fn normalizer_centers_and_scales_columns() {
    let mut m = FeatureMatrix::from_rows(vec![vec![10, 5, 7], vec![20, 5, 7], vec![30, 5, 8], vec![40, 5, 8]]).unwrap();
    let constant = calc_z_sc(&mut m);
    // column 0: mean 25, population standard deviation sqrt(125)
    assert_eq!(constant, vec![false, true, false]);
    assert_eq!(m.row(0), vec![-13416, 0, -10000]);
    assert_eq!(m.row(1), vec![-4472, 0, -10000]);
    assert_eq!(m.row(2), vec![4472, 0, 10000]);
    assert_eq!(m.row(3), vec![13416, 0, 10000]);
    let sum: i64 = (0..m.num_rows()).map(|i| m.get(i, 0) as i64).sum();
    assert_eq!(sum, 0);
}

#[test]
fn normalizer_unit_spread() {
    let mut m = FeatureMatrix::from_rows(vec![vec![-30000], vec![30000]]).unwrap();
    let constant = calc_z_sc(&mut m);
    assert_eq!(constant, vec![false]);
    assert_eq!((m.row(0), m.row(1)), (vec![-10000], vec![10000]));
    let col: Vec<f64> = (0..m.num_rows()).map(|i| m.get(i, 0) as f64).collect();
    let mean: f64 = col.iter().sum::<f64>() / 2.0;
    let var: f64 = col.iter().map(|x| (x - mean).powi(2)).sum::<f64>() / 2.0;
    assert!(mean.abs() < 1e-9);
    assert!((var.sqrt() / 10000.0 - 1.0).abs() < 1e-9);
}

#[test]
fn normalizer_uses_exact_mean_on_small_spread() {
    let mut m = FeatureMatrix::from_rows(vec![vec![-1], vec![-2]]).unwrap();
    assert_eq!(calc_z_sc(&mut m), vec![false]);
    assert_eq!((m.row(0), m.row(1)), (vec![10000], vec![-10000]));
    let mut m = FeatureMatrix::from_rows(vec![vec![0], vec![0], vec![0], vec![3]]).unwrap();
    calc_z_sc(&mut m);
    // mean 0.75, standard deviation sqrt(1.6875)
    let col: Vec<i32> = (0..4).map(|i| m.get(i, 0)).collect();
    assert_eq!(col, vec![-5773, -5773, -5773, 17320]);
}

#[test]
fn normalizer_is_scale_invariant_and_stable() {
    let mut a = FeatureMatrix::from_rows(vec![vec![0], vec![1]]).unwrap();
    let mut b = FeatureMatrix::from_rows(vec![vec![0], vec![2]]).unwrap();
    calc_z_sc(&mut a);
    calc_z_sc(&mut b);
    assert_eq!((a.row(0), a.row(1)), (vec![-10000], vec![10000]));
    assert_eq!((b.row(0), b.row(1)), (vec![-10000], vec![10000]));
    let mut m = FeatureMatrix::from_rows(vec![vec![0], vec![0], vec![0], vec![3]]).unwrap();
    calc_z_sc(&mut m);
    let once: Vec<i32> = (0..4).map(|i| m.get(i, 0)).collect();
    calc_z_sc(&mut m);
    let twice: Vec<i32> = (0..4).map(|i| m.get(i, 0)).collect();
    for i in 0..4 {
        assert!((once[i] - twice[i]).abs() <= 1);
    }
}

#[test]
fn normalizer_on_empty_matrix() {
    let mut m = FeatureMatrix::from_uniform_rows(&vec![], 3);
    assert_eq!(calc_z_sc(&mut m), vec![true, true, true]);
    assert_eq!(m.num_rows(), 0);
    assert_eq!(m.width(), 3);
}

#[test]
fn squared_distances_exact() {
    let f = FeatureMatrix::from_rows(vec![vec![0, 0], vec![1, 1], vec![i32::MAX, i32::MIN]]).unwrap();
    assert_eq!(squared_distances(0, &[1, 2], &f), vec![(2, 1), (4611686014132420609 + 4611686018427387904, 2)]);
    assert_eq!(compute_distances(0, &[1], &f), vec![(1, 1)]);
}

#[test]
fn floor_sqrt_values() {
    assert_eq!(floor_sqrt(0), 0);
    assert_eq!(floor_sqrt(24), 4);
    assert_eq!(floor_sqrt(25), 5);
    assert_eq!(floor_sqrt(u128::MAX), u64::MAX);
}

#[test]
fn rank_sorts_truncates_and_keeps_ties_in_order() {
    let f = FeatureMatrix::from_rows(vec![vec![0, 0], vec![6, 8], vec![0, 5], vec![3, 4], vec![5, 0]]).unwrap();
    let r = rank(0, &[1, 2, 3, 4], &f, 3);
    assert_eq!(r, vec![(5, 2), (5, 3), (5, 4)]);
    let r = rank(0, &[4, 1, 3], &f, 2);
    assert_eq!(r, vec![(5, 4), (5, 3)]);
}

#[test]
fn rank_twice_is_identical() {
    let f = FeatureMatrix::from_rows(vec![vec![0, 0], vec![6, 8], vec![0, 5], vec![3, 4]]).unwrap();
    assert_eq!(rank(0, &[1, 2, 3], &f, 2), rank(0, &[1, 2, 3], &f, 2));
}

#[test]
fn rank_with_large_k_returns_all_candidates() {
    let f = FeatureMatrix::from_rows(vec![vec![0, 0], vec![6, 8], vec![3, 4]]).unwrap();
    let r = rank(0, &[1, 2], &f, 20);
    assert_eq!(r, vec![(5, 2), (10, 1)]);
}

#[test]
fn rank_without_candidates_is_empty() {
    let f = FeatureMatrix::from_rows(vec![vec![0, 0], vec![6, 8]]).unwrap();
    assert_eq!(rank(0, &[], &f, 5), Vec::<(u64, usize)>::new());
}

#[test]
fn find_song_by_id_or_name_ignoring_case() {
    let s = songs();
    assert_eq!(find_song(&s, "2"), Some(1));
    assert_eq!(find_song(&s, "c"), Some(2));
    assert_eq!(find_song(&s, "a"), Some(0));
    assert_eq!(find_song(&s, "D"), None);
    assert_eq!(find_song(&s, ""), None);
}

#[test]
fn recommend_filters_then_ranks() {
    let s = songs();
    let mut m = feature_matrix(&s, REFERENCE_YEAR, &[122_061, 122_549, 123_014]);
    calc_z_sc(&mut m);
    let all = recommend(&s, &m, 0, 5, &None, &None);
    assert_eq!(all.iter().map(|p| p.1).collect::<Vec<_>>(), vec![1, 2]);
    assert!(all[0].0 <= all[1].0);
    let other_genre = recommend(&s, &m, 0, 5, &None, &Some(GenreFilter::Different));
    assert_eq!(other_genre.len(), 1);
    assert_eq!(other_genre[0].1, 1);
    let one = recommend(&s, &m, 0, 1, &None, &None);
    assert_eq!(one, vec![all[0]]);
    assert_eq!(recommend(&s, &m, 0, 3, &Some(Popularity::Underground), &None), vec![]);
}
