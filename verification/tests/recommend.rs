use movie_recommender::contributions::{
    contributions_to, holds_rating, plan_contributions, planned_movies, Contribution,
};
use movie_recommender::error::RecommendError;
use movie_recommender::movie_index::MovieIndex;
use movie_recommender::neighbors::{
    nearest_neighbors, rank_similar_users, Similarity, DEFAULT_NEIGHBORS,
};
use movie_recommender::popularity::{build_popularity_map, popularity_of_movie};
use movie_recommender::ranker::{predictable, rank_predictions, Aggregate, Prediction};
use movie_recommender::ranking::{first_items, rank_items};
use movie_recommender::rating::{ratings_of, Rating};
use movie_recommender::rating_vector::RatingVector;
use movie_recommender::score::Score;
use movie_recommender::user_vectors::build_user_vectors;
use nalgebra::DVector;
use std::collections::HashMap;

fn score(value: f32) -> Score {
    Score::from_bits(value.to_bits()).unwrap()
}

fn value(s: Score) -> f32 {
    f32::from_bits(s.to_bits())
}

fn rating(user_id: u32, movie_id: u32, stars: f32) -> Rating {
    Rating { user_id, movie_id, rating: score(stars), timestamp: 0 }
}

fn similarity(user_id: u32, s: f32) -> Similarity {
    Similarity { user_id, score: score(s) }
}

fn prediction(movie_id: u32, s: f32) -> Prediction {
    Prediction { movie_id, score: score(s) }
}

fn dense(vector: &RatingVector) -> DVector<f32> {
    DVector::from_iterator(vector.len(), vector.scores().into_iter().map(value))
}

fn cosine(a: &DVector<f32>, b: &DVector<f32>) -> f32 {
    let dot = a.dot(b);
    let na = a.norm();
    let nb = b.norm();
    if na == 0.0 || nb == 0.0 {
        0.0
    } else {
        dot / (na * nb)
    }
}

fn aggregate(plan: &[Contribution]) -> Vec<Aggregate> {
    planned_movies(plan)
        .into_iter()
        .map(|movie_id| {
            let mut score_sum = 0.0f32;
            let mut weight_sum = 0.0f32;
            for term in contributions_to(plan, movie_id) {
                score_sum += value(term.similarity) * value(term.rating);
                weight_sum += value(term.similarity);
            }
            Aggregate { movie_id, score_sum: score(score_sum), weight_sum: score(weight_sum) }
        })
        .collect()
}

fn predict(aggregates: &[Aggregate]) -> Vec<Prediction> {
    predictable(aggregates)
        .into_iter()
        .map(|a| Prediction {
            movie_id: a.movie_id,
            score: score(value(a.score_sum) / value(a.weight_sum)),
        })
        .collect()
}

fn recommend(target: u32, ratings: &[Rating], top_n: usize) -> Result<Vec<u32>, RecommendError> {
    let vectors = build_user_vectors(ratings);
    let popularity = build_popularity_map(ratings);
    let others = vectors.other_users(target)?;
    let own = dense(vectors.vector(target).unwrap());
    let similarities: Vec<Similarity> = others
        .iter()
        .map(|&user_id| similarity(user_id, cosine(&own, &dense(vectors.vector(user_id).unwrap()))))
        .collect();
    let neighbors = nearest_neighbors(target, &similarities, DEFAULT_NEIGHBORS);
    let plan = plan_contributions(target, &neighbors, ratings, &vectors)?;
    let predictions = predict(&aggregate(&plan));
    Ok(rank_predictions(&predictions, &popularity, top_n))
}

fn sample() -> Vec<Rating> {
    vec![
        rating(1, 10, 5.0),
        rating(1, 11, 3.0),
        rating(2, 10, 5.0),
        rating(2, 11, 3.0),
        rating(2, 12, 4.0),
        rating(2, 14, 1.0),
        rating(3, 10, 4.0),
        rating(3, 12, 2.0),
        rating(3, 13, 5.0),
        rating(4, 11, 1.0),
        rating(4, 13, 5.0),
        rating(4, 14, 1.0),
    ]
}

#[test]
fn movie_index_is_sorted_and_distinct() {
    let ratings = vec![
        rating(1, 30, 1.0),
        rating(2, 10, 1.0),
        rating(1, 20, 1.0),
        rating(3, 30, 2.0),
        rating(3, 10, 2.0),
    ];
    let index = MovieIndex::build(&ratings);
    assert_eq!(index.len(), 3);
    assert_eq!(index.movie_at(0), Some(10));
    assert_eq!(index.movie_at(1), Some(20));
    assert_eq!(index.movie_at(2), Some(30));
    assert_eq!(index.movie_at(3), None);
    assert_eq!(index.position(10), Some(0));
    assert_eq!(index.position(20), Some(1));
    assert_eq!(index.position(30), Some(2));
    assert_eq!(index.position(15), None);
    assert_eq!(index.position(0), None);
    assert_eq!(index.position(31), None);
}

#[test]
fn movie_index_does_not_depend_on_table_order() {
    let mut ratings = sample();
    let forward = MovieIndex::build(&ratings);
    ratings.reverse();
    let backward = MovieIndex::build(&ratings);
    assert_eq!(forward.len(), backward.len());
    for p in 0..forward.len() {
        assert_eq!(forward.movie_at(p), backward.movie_at(p));
        assert_eq!(forward.position(forward.movie_at(p).unwrap()), Some(p));
    }
}

#[test]
fn user_vectors_are_dense_over_the_index() {
    let vectors = build_user_vectors(&sample());
    assert_eq!(vectors.user_ids(), &vec![1, 2, 3, 4]);
    assert_eq!(vectors.movie_index().len(), 5);
    let row = |user_id: u32| -> Vec<f32> {
        vectors.vector(user_id).unwrap().scores().into_iter().map(value).collect()
    };
    assert_eq!(row(1), vec![5.0, 3.0, 0.0, 0.0, 0.0]);
    assert_eq!(row(2), vec![5.0, 3.0, 4.0, 0.0, 1.0]);
    assert_eq!(row(3), vec![4.0, 0.0, 2.0, 5.0, 0.0]);
    assert_eq!(row(4), vec![0.0, 1.0, 0.0, 5.0, 1.0]);
    assert!(vectors.vector(5).is_none());
    let first = vectors.vector(1).unwrap();
    assert_eq!(first.len(), 5);
    assert_eq!(first.get(1).map(value), Some(3.0));
    assert_eq!(first.get(5), None);
}

#[test]
fn last_rating_of_a_movie_wins() {
    let ratings = vec![rating(1, 10, 2.0), rating(1, 11, 4.0), rating(1, 10, 4.5)];
    let vectors = build_user_vectors(&ratings);
    let row: Vec<f32> = vectors.vector(1).unwrap().scores().into_iter().map(value).collect();
    assert_eq!(row, vec![4.5, 4.0]);
}

#[test]
fn users_come_in_order_of_first_rating() {
    let ratings = vec![rating(7, 1, 1.0), rating(3, 1, 1.0), rating(7, 2, 1.0), rating(5, 1, 1.0)];
    let vectors = build_user_vectors(&ratings);
    assert_eq!(vectors.user_ids(), &vec![7, 3, 5]);
    assert_eq!(vectors.other_users(3), Ok(vec![7, 5]));
    assert_eq!(vectors.other_users(7), Ok(vec![3, 5]));
}

#[test]
fn ratings_of_one_user() {
    let ratings = sample();
    let own: Vec<u32> = ratings_of(3, &ratings).into_iter().map(|r| r.movie_id).collect();
    assert_eq!(own, vec![10, 12, 13]);
    assert!(ratings_of(9, &ratings).is_empty());
}

#[test]
fn popularity_counts_ratings() {
    let popularity = build_popularity_map(&sample());
    assert_eq!(popularity.len(), 5);
    assert_eq!(popularity_of_movie(&popularity, 10), 3);
    assert_eq!(popularity_of_movie(&popularity, 11), 3);
    assert_eq!(popularity_of_movie(&popularity, 12), 2);
    assert_eq!(popularity_of_movie(&popularity, 13), 2);
    assert_eq!(popularity_of_movie(&popularity, 14), 2);
    assert_eq!(popularity_of_movie(&popularity, 15), 0);
    assert_eq!(popularity.get(&15), None);
}

#[test]
fn similar_users_most_similar_first_without_target() {
    let similarities = vec![
        similarity(2, 0.25),
        similarity(1, 1.0),
        similarity(3, 0.75),
        similarity(4, 0.25),
        similarity(5, 0.75),
        similarity(6, 0.0),
    ];
    let ranked: Vec<u32> =
        rank_similar_users(1, &similarities).into_iter().map(|s| s.user_id).collect();
    assert_eq!(ranked, vec![3, 5, 2, 4, 6]);
    let nearest: Vec<u32> =
        nearest_neighbors(1, &similarities, 3).into_iter().map(|s| s.user_id).collect();
    assert_eq!(nearest, vec![3, 5, 2]);
    assert_eq!(nearest_neighbors(1, &similarities, 9).len(), 5);
    assert!(nearest_neighbors(1, &similarities, 0).is_empty());
    assert_eq!(DEFAULT_NEIGHBORS, 5);
}

#[test]
fn ranking_is_stable() {
    let items = vec![
        similarity(10, 0.5),
        similarity(11, 0.5),
        similarity(12, 0.9),
        similarity(13, 0.5),
        similarity(14, -0.0),
        similarity(15, 0.0),
    ];
    let ranked: Vec<u32> = rank_items(&items).into_iter().map(|s| s.user_id).collect();
    assert_eq!(ranked, vec![12, 10, 11, 13, 14, 15]);
    let head: Vec<u32> = first_items(&items, 2).into_iter().map(|s| s.user_id).collect();
    assert_eq!(head, vec![10, 11]);
}

#[test]
fn two_neighbors_predict_one_movie() {
    let ratings = vec![
        rating(1, 10, 5.0),
        rating(1, 11, 3.0),
        rating(2, 12, 4.0),
        rating(3, 12, 2.0),
    ];
    let vectors = build_user_vectors(&ratings);
    let neighbors = vec![similarity(2, 1.0), similarity(3, 0.5)];
    let plan = plan_contributions(1, &neighbors, &ratings, &vectors).unwrap();
    assert_eq!(
        plan,
        vec![
            Contribution { movie_id: 12, similarity: score(1.0), rating: score(4.0) },
            Contribution { movie_id: 12, similarity: score(0.5), rating: score(2.0) },
        ]
    );
    let predictions = predict(&aggregate(&plan));
    assert_eq!(predictions.len(), 1);
    assert_eq!(predictions[0].movie_id, 12);
    let expected = (1.0f32 * 4.0 + 0.5 * 2.0) / (1.0 + 0.5);
    assert_eq!(value(predictions[0].score), expected);
    assert!((value(predictions[0].score) - 3.33).abs() < 0.01);
}

#[test]
fn plan_skips_movies_the_target_has_rated() {
    let ratings = sample();
    let vectors = build_user_vectors(&ratings);
    let neighbors = vec![similarity(2, 0.9), similarity(4, 0.1), similarity(3, 0.0)];
    let plan = plan_contributions(1, &neighbors, &ratings, &vectors).unwrap();
    let movies: Vec<u32> = plan.iter().map(|c| c.movie_id).collect();
    assert_eq!(movies, vec![12, 14, 13, 14, 12, 13]);
    let weights: Vec<f32> = plan.iter().map(|c| value(c.similarity)).collect();
    assert_eq!(weights, vec![0.9, 0.9, 0.1, 0.1, 0.0, 0.0]);
    let index = vectors.movie_index();
    let own = vectors.vector(1).unwrap();
    assert!(holds_rating(index, own, 10));
    assert!(holds_rating(index, own, 11));
    assert!(!holds_rating(index, own, 12));
    assert!(!holds_rating(index, own, 99));
}

#[test]
fn plan_is_grouped_by_movie() {
    let ratings = sample();
    let vectors = build_user_vectors(&ratings);
    let neighbors = vec![similarity(2, 0.9), similarity(4, 0.1), similarity(3, 0.0)];
    let plan = plan_contributions(1, &neighbors, &ratings, &vectors).unwrap();
    assert_eq!(planned_movies(&plan), vec![12, 13, 14]);
    let weights = |movie_id: u32| -> Vec<f32> {
        contributions_to(&plan, movie_id).into_iter().map(|c| value(c.similarity)).collect()
    };
    assert_eq!(weights(12), vec![0.9, 0.0]);
    assert_eq!(weights(13), vec![0.1, 0.0]);
    assert_eq!(weights(14), vec![0.9, 0.1]);
    assert_eq!(weights(10), Vec::<f32>::new());
    assert!(planned_movies(&[]).is_empty());
}

#[test]
fn zero_weight_has_no_prediction() {
    let aggregates = vec![
        Aggregate { movie_id: 1, score_sum: score(3.0), weight_sum: score(1.5) },
        Aggregate { movie_id: 2, score_sum: score(0.0), weight_sum: score(0.0) },
        Aggregate { movie_id: 3, score_sum: score(0.0), weight_sum: score(-0.0) },
        Aggregate { movie_id: 4, score_sum: score(1.0), weight_sum: score(0.25) },
    ];
    let kept: Vec<u32> = predictable(&aggregates).into_iter().map(|a| a.movie_id).collect();
    assert_eq!(kept, vec![1, 4]);
    let predictions = predict(&aggregates);
    assert_eq!(value(predictions[0].score), 2.0);
    assert_eq!(value(predictions[1].score), 4.0);
}

#[test]
fn ranking_breaks_ties_by_popularity_then_identifier() {
    let mut popularity: HashMap<u32, usize> = HashMap::new();
    popularity.insert(1, 5);
    popularity.insert(2, 9);
    popularity.insert(3, 9);
    popularity.insert(4, 1);
    popularity.insert(5, 1);
    let predictions = vec![
        prediction(5, 4.0),
        prediction(6, 4.0),
        prediction(4, 4.5),
        prediction(3, 4.0),
        prediction(1, 4.0),
        prediction(2, 4.0),
    ];
    assert_eq!(rank_predictions(&predictions, &popularity, 10), vec![4, 2, 3, 1, 5, 6]);
    assert_eq!(rank_predictions(&predictions, &popularity, 3), vec![4, 2, 3]);
    assert_eq!(rank_predictions(&predictions, &popularity, 0), Vec::<u32>::new());
    assert_eq!(rank_predictions(&[], &popularity, 3), Vec::<u32>::new());
}

#[test]
fn recommendations_for_sample() {
    let ratings = sample();
    let recommended = recommend(1, &ratings, 5).unwrap();
    assert_eq!(recommended, vec![13, 12, 14]);
    assert_eq!(recommend(1, &ratings, 2).unwrap(), vec![13, 12]);
}

#[test]
fn rated_movies_are_never_recommended() {
    let ratings = sample();
    for user in 1..=4u32 {
        let rated: Vec<u32> = ratings_of(user, &ratings).into_iter().map(|r| r.movie_id).collect();
        for movie_id in recommend(user, &ratings, 10).unwrap() {
            assert!(!rated.contains(&movie_id), "user {} movie {}", user, movie_id);
        }
    }
}

#[test]
fn empty_table_knows_no_user() {
    let vectors = build_user_vectors(&[]);
    assert_eq!(vectors.movie_index().len(), 0);
    assert!(vectors.user_ids().is_empty());
    assert!(vectors.vector(1).is_none());
    assert!(build_popularity_map(&[]).is_empty());
    assert_eq!(vectors.other_users(1), Err(RecommendError::UnknownUser { user_id: 1 }));
    assert_eq!(recommend(1, &[], 5), Err(RecommendError::UnknownUser { user_id: 1 }));
    assert_eq!(recommend(0, &[], 0), Err(RecommendError::UnknownUser { user_id: 0 }));
}

#[test]
fn unknown_user_is_an_error() {
    let ratings = sample();
    let vectors = build_user_vectors(&ratings);
    assert_eq!(recommend(9, &ratings, 5), Err(RecommendError::UnknownUser { user_id: 9 }));
    assert_eq!(
        plan_contributions(9, &[similarity(2, 1.0)], &ratings, &vectors),
        Err(RecommendError::UnknownUser { user_id: 9 })
    );
    assert_eq!(
        RecommendError::UnknownUser { user_id: 9 }.message(),
        String::from("user has no ratings")
    );
}

#[test]
fn single_user_has_nothing_recommended() {
    let ratings = vec![rating(1, 10, 5.0), rating(1, 11, 3.0)];
    assert_eq!(recommend(1, &ratings, 5), Ok(vec![]));
}

#[test]
fn recommending_twice_gives_the_same_list() {
    let ratings = sample();
    for user in 1..=4u32 {
        assert_eq!(recommend(user, &ratings, 3), recommend(user, &ratings, 3));
    }
}

#[test]
fn rating_vector_holds_its_scores() {
    let vector = RatingVector::new(vec![score(1.0), score(0.0), score(2.5)]);
    assert_eq!(vector.len(), 3);
    assert_eq!(vector.get(0).map(value), Some(1.0));
    assert_eq!(vector.get(2).map(value), Some(2.5));
    assert_eq!(vector.get(3), None);
    let scores: Vec<f32> = vector.scores().into_iter().map(value).collect();
    assert_eq!(scores, vec![1.0, 0.0, 2.5]);
    let zeros = RatingVector::zeros(4);
    assert_eq!(zeros.len(), 4);
    assert_eq!(zeros.scores(), vec![Score::zero(); 4]);
    assert_eq!(RatingVector::zeros(0).len(), 0);
    assert_eq!(RatingVector::new(Vec::new()).get(0), None);
}
