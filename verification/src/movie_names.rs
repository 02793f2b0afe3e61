//! Movie titles, looked up by movie identifier.

use std::collections::HashMap;
use vstd::prelude::*;

verus! {

broadcast use vstd::std_specs::hash::group_hash_axioms;

/// The titles that a sequence of `(identifier, title)` records assigns: for an
/// identifier that occurs more than once, the title of its last record.
pub open spec fn titles_of(records: Seq<(u32, String)>) -> Map<u32, Seq<char>>
    decreases records.len(),
{
    if records.len() == 0 {
        Map::empty()
    } else {
        titles_of(records.drop_last()).insert(records.last().0, records.last().1@)
    }
}

/// A table of movie titles.
pub struct MovieDb {
    movies: HashMap<u32, String>,
}

impl View for MovieDb {
    type V = Map<u32, Seq<char>>;

    closed spec fn view(&self) -> Map<u32, Seq<char>> {
        self.movies@.map_values(|title: String| title@)
    }
}

impl MovieDb {
    /// The table that holds the given records.
    pub fn from_records(records: &Vec<(u32, String)>) -> (db: MovieDb)
        ensures
            db@ == titles_of(records@),
    {
        let mut movies: HashMap<u32, String> = HashMap::new();
        let mut i: usize = 0;
        while i < records.len()
            invariant
                i <= records.len(),
                movies@.map_values(|title: String| title@) == titles_of(records@.take(i as int)),
            decreases records.len() - i,
        {
            let title = records[i].1.clone();
            let ghost before = movies@;
            movies.insert(records[i].0, title);
            proof {
                assert(records@.take(i + 1).drop_last() == records@.take(i as int));
                assert(movies@.map_values(|title: String| title@) == before.map_values(
                    |title: String| title@,
                ).insert(records[i as int].0, records[i as int].1@));
            }
            i += 1;
        }
        proof {
            assert(records@.take(records.len() as int) == records@);
        }
        MovieDb { movies }
    }

    /// The title of a movie, or `None` if the table does not hold it.
    pub fn get_title(&self, movie_id: u32) -> (title: Option<&str>)
        ensures
            title.is_some() == self@.contains_key(movie_id),
            title matches Some(t) ==> t@ == self@[movie_id],
    {
        match self.movies.get(&movie_id) {
            Some(title) => Some(title.as_str()),
            None => None,
        }
    }
}

} // verus!
