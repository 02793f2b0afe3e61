//! A k-nearest-neighbour movie recommender over rating tables.
//!
//! The library holds every step of the pipeline that works on exact values:
//! the movie index, the dense rating vectors, neighbour selection, the plan of
//! weighted contributions and the final ranking. Scores are carried by their
//! bit patterns; arithmetic on them is left to the caller.

pub mod contributions;
pub mod error;
pub mod movie_index;
pub mod movie_names;
pub mod neighbors;
pub mod popularity;
pub mod ranker;
pub mod ranking;
pub mod rating;
pub mod rating_vector;
pub mod score;
pub mod sequences;
pub mod top_movies;
pub mod user_vectors;
