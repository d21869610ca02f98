use vstd::prelude::*;

use crate::song::Song;

verus! {

/// Two characters are equal once ASCII letters are folded to lower case.
pub open spec fn ascii_chars_match(a: char, b: char) -> bool {
    ||| a == b
    ||| ('A' <= a <= 'Z' && b as u32 == a as u32 + 32)
    ||| ('A' <= b <= 'Z' && a as u32 == b as u32 + 32)
}

/// Two strings are equal once ASCII letters are folded to lower case.
pub open spec fn ascii_case_insensitive_eq(a: Seq<char>, b: Seq<char>) -> bool {
    &&& a.len() == b.len()
    &&& forall|i: int| 0 <= i < a.len() ==> #[trigger] ascii_chars_match(a[i], b[i])
}

/// Whether the query names the song, by identifier or by title.
pub open spec fn names_song(song: Song, query: Seq<char>) -> bool {
    ascii_case_insensitive_eq(song.track_id@, query) || ascii_case_insensitive_eq(
        song.track_name@,
        query,
    )
}

/// Relies on `str::eq_ignore_ascii_case`: the strings match once ASCII
/// letters are lower-cased, other characters compared as they are.
#[verifier::external_body]
fn eq_ignore_ascii_case(a: &str, b: &str) -> (r: bool)
    ensures
        r == ascii_case_insensitive_eq(a@, b@),
{
    a.eq_ignore_ascii_case(b)
}

/// The first song whose identifier or title matches the query, ignoring
/// ASCII case.
pub fn find_song(songs: &[Song], query: &str) -> (r: Option<usize>)
    ensures
        match r {
            Some(i) => i < songs@.len() && names_song(songs@[i as int], query@) && forall|j: int|
                0 <= j < i ==> !names_song(#[trigger] songs@[j], query@),
            None => forall|j: int| 0 <= j < songs@.len() ==> !names_song(#[trigger] songs@[j], query@),
        },
{
    let mut i: usize = 0;
    while i < songs.len()
        invariant
            i <= songs@.len(),
            forall|j: int| 0 <= j < i ==> !names_song(#[trigger] songs@[j], query@),
        decreases songs@.len() - i,
    {
        let s = &songs[i];
        if eq_ignore_ascii_case(s.track_id.as_str(), query) || eq_ignore_ascii_case(
            s.track_name.as_str(),
            query,
        ) {
            return Some(i);
        }
        i = i + 1;
    }
    None
}

} // verus!
