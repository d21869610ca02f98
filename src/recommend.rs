use vstd::prelude::*;

use crate::filter::{build_candidates, candidates, GenreFilter, Popularity};
use crate::matrix::FeatureMatrix;
use crate::rank::{nearest, rank, rooted};
use crate::song::Song;

verus! {

/// The `k` songs nearest to the query song among those that pass the
/// filters, nearest first, each with its distance rounded down.
pub fn recommend(
    songs: &[Song],
    features: &FeatureMatrix,
    query_idx: usize,
    k: usize,
    pop_filter: &Option<Popularity>,
    genre_filter: &Option<GenreFilter>,
) -> (r: Vec<(u64, usize)>)
    requires
        query_idx < songs@.len(),
        features@.len() == songs@.len(),
    ensures
        rooted(
            r@,
            nearest(
                features@,
                query_idx as int,
                candidates(songs@, *pop_filter, *genre_filter, query_idx as int),
                k as nat,
            ),
        ),
{
    let c = build_candidates(songs, pop_filter, genre_filter, query_idx);
    let catalog_len = songs.len();
    proof {
        assert(catalog_len == songs@.len());
        crate::filter::lemma_candidates_in_range(songs@, *pop_filter, *genre_filter, query_idx as int);
    }
    rank(query_idx, c.as_slice(), features, k)
}

} // verus!
