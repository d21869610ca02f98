use vstd::prelude::*;

use crate::song::Song;

verus! {

/// Popularity at or above this value counts as popular.
pub const POPULAR_THRESHOLD: u8 = 50;

/// Restricts candidates by popularity.
pub enum Popularity {
    /// Songs with a popularity below the threshold.
    Underground,
    /// Songs with a popularity at or above the threshold.
    Popular,
}

/// Restricts candidates by their genre relative to the query's genre.
pub enum GenreFilter {
    /// Songs of the query's genre.
    Same,
    /// Songs of any other genre.
    Different,
}

/// Whether a popularity passes the popularity filter.
pub open spec fn popularity_ok(filter: Option<Popularity>, popularity: u8) -> bool {
    match filter {
        None => true,
        Some(Popularity::Underground) => popularity < POPULAR_THRESHOLD,
        Some(Popularity::Popular) => popularity >= POPULAR_THRESHOLD,
    }
}

/// Whether a genre passes the genre filter, given the query's genre.
pub open spec fn genre_ok(filter: Option<GenreFilter>, genre: Seq<char>, query_genre: Seq<char>) -> bool {
    match filter {
        None => true,
        Some(GenreFilter::Same) => genre == query_genre,
        Some(GenreFilter::Different) => genre != query_genre,
    }
}

/// Whether song `i` is a candidate for the query song `q`.
pub open spec fn is_candidate(
    songs: Seq<Song>,
    pop_filter: Option<Popularity>,
    genre_filter: Option<GenreFilter>,
    q: int,
    i: int,
) -> bool {
    &&& i != q
    &&& popularity_ok(pop_filter, songs[i].popularity)
    &&& genre_ok(genre_filter, songs[i].genre@, songs[q].genre@)
}

/// The candidates among the first `n` songs, in catalog order.
pub open spec fn candidates_in_prefix(
    songs: Seq<Song>,
    pop_filter: Option<Popularity>,
    genre_filter: Option<GenreFilter>,
    q: int,
    n: nat,
) -> Seq<usize>
    decreases n,
{
    if n == 0 {
        Seq::empty()
    } else {
        let before = candidates_in_prefix(songs, pop_filter, genre_filter, q, (n - 1) as nat);
        if is_candidate(songs, pop_filter, genre_filter, q, n - 1) {
            before.push((n - 1) as usize)
        } else {
            before
        }
    }
}

/// All candidates for the query song `q`, in catalog order.
pub open spec fn candidates(
    songs: Seq<Song>,
    pop_filter: Option<Popularity>,
    genre_filter: Option<GenreFilter>,
    q: int,
) -> Seq<usize> {
    candidates_in_prefix(songs, pop_filter, genre_filter, q, songs.len())
}

proof fn lemma_prefix_members(
    songs: Seq<Song>,
    pop_filter: Option<Popularity>,
    genre_filter: Option<GenreFilter>,
    q: int,
    n: nat,
)
    requires
        n <= songs.len() <= usize::MAX,
    ensures
        forall|j: int|
            0 <= j < candidates_in_prefix(songs, pop_filter, genre_filter, q, n).len() ==> {
                let i = #[trigger] candidates_in_prefix(songs, pop_filter, genre_filter, q, n)[j];
                i < n && is_candidate(songs, pop_filter, genre_filter, q, i as int)
            },
    decreases n,
{
    if n > 0 {
        lemma_prefix_members(songs, pop_filter, genre_filter, q, (n - 1) as nat);
        let before = candidates_in_prefix(songs, pop_filter, genre_filter, q, (n - 1) as nat);
        let c = candidates_in_prefix(songs, pop_filter, genre_filter, q, n);
        assert forall|j: int| 0 <= j < c.len() implies c[j] < n && is_candidate(
            songs,
            pop_filter,
            genre_filter,
            q,
            c[j] as int,
        ) by {
            if j < before.len() {
                assert(c[j] == before[j]);
            }
        }
    }
}

/// The query song is never its own candidate, whatever the filters.
pub proof fn lemma_query_never_candidate(
    songs: Seq<Song>,
    pop_filter: Option<Popularity>,
    genre_filter: Option<GenreFilter>,
    q: usize,
)
    requires
        q < songs.len() <= usize::MAX,
    ensures
        !candidates(songs, pop_filter, genre_filter, q as int).contains(q),
{
    let c = candidates(songs, pop_filter, genre_filter, q as int);
    lemma_prefix_members(songs, pop_filter, genre_filter, q as int, songs.len());
    if c.contains(q) {
        let j = choose|j: int| 0 <= j < c.len() && c[j] == q;
        assert(is_candidate(songs, pop_filter, genre_filter, q as int, c[j] as int));
    }
}

/// Every candidate is an index of the catalog.
pub proof fn lemma_candidates_in_range(
    songs: Seq<Song>,
    pop_filter: Option<Popularity>,
    genre_filter: Option<GenreFilter>,
    q: int,
)
    requires
        songs.len() <= usize::MAX,
    ensures
        forall|j: int|
            0 <= j < candidates(songs, pop_filter, genre_filter, q).len() ==> #[trigger] candidates(
                songs,
                pop_filter,
                genre_filter,
                q,
            )[j] < songs.len(),
{
    lemma_prefix_members(songs, pop_filter, genre_filter, q, songs.len());
}

/// The indices other than `q` below `n`, ascending.
pub open spec fn others_below(q: int, n: nat) -> Seq<usize> {
    Seq::new(
        if n <= q { n } else { (n - 1) as nat },
        |j: int| if j < q { j as usize } else { (j + 1) as usize },
    )
}

proof fn lemma_unfiltered_prefix(songs: Seq<Song>, q: int, n: nat)
    requires
        0 <= q < songs.len(),
        n <= songs.len(),
    ensures
        candidates_in_prefix(songs, None, None, q, n) == others_below(q, n),
    decreases n,
{
    if n > 0 {
        lemma_unfiltered_prefix(songs, q, (n - 1) as nat);
        assert(candidates_in_prefix(songs, None, None, q, n) =~= others_below(q, n));
    }
}

/// Without filters, the candidates are every other index, in catalog order.
pub proof fn lemma_unfiltered_candidates(songs: Seq<Song>, q: int)
    requires
        0 <= q < songs.len(),
    ensures
        candidates(songs, None, None, q) == others_below(q, songs.len()),
        candidates(songs, None, None, q).len() == songs.len() - 1,
{
    lemma_unfiltered_prefix(songs, q, songs.len());
}

fn passes_popularity(filter: &Option<Popularity>, popularity: u8) -> (r: bool)
    ensures
        r == popularity_ok(*filter, popularity),
{
    match filter {
        None => true,
        Some(Popularity::Underground) => popularity < POPULAR_THRESHOLD,
        Some(Popularity::Popular) => popularity >= POPULAR_THRESHOLD,
    }
}

fn passes_genre(filter: &Option<GenreFilter>, genre: &String, query_genre: &String) -> (r: bool)
    ensures
        r == genre_ok(*filter, genre@, query_genre@),
{
    match filter {
        None => true,
        Some(GenreFilter::Same) => genre.eq(query_genre),
        Some(GenreFilter::Different) => !genre.eq(query_genre),
    }
}

/// Indices of the songs that pass both filters, excluding the query song,
/// in catalog order.
pub fn build_candidates(
    songs: &[Song],
    pop_filter: &Option<Popularity>,
    genre_filter: &Option<GenreFilter>,
    query_idx: usize,
) -> (r: Vec<usize>)
    requires
        query_idx < songs@.len(),
    ensures
        r@ == candidates(songs@, *pop_filter, *genre_filter, query_idx as int),
{
    let query_genre = &songs[query_idx].genre;
    let mut out: Vec<usize> = Vec::new();
    let mut i: usize = 0;
    while i < songs.len()
        invariant
            i <= songs@.len(),
            query_idx < songs@.len(),
            query_genre == &songs@[query_idx as int].genre,
            out@ == candidates_in_prefix(songs@, *pop_filter, *genre_filter, query_idx as int, i as nat),
        decreases songs@.len() - i,
    {
        let s = &songs[i];
        if i != query_idx && passes_popularity(pop_filter, s.popularity)
            && passes_genre(genre_filter, &s.genre, query_genre)
        {
            out.push(i);
        }
        i = i + 1;
    }
    out
}

} // verus!
