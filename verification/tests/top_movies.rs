use movie_recommender::rating::Rating;
use movie_recommender::score::Score;
use movie_recommender::top_movies::top_movies;

fn score(value: f32) -> Score {
    Score::from_bits(value.to_bits()).unwrap()
}

fn rating(user_id: u32, movie_id: u32, value: f32, timestamp: u64) -> Rating {
    Rating { user_id, movie_id, rating: score(value), timestamp }
}

fn plain(top: Vec<(u32, Score)>) -> Vec<(u32, f32)> {
    top.into_iter().map(|(movie_id, s)| (movie_id, f32::from_bits(s.to_bits()))).collect()
}

#[test]
fn test_top_movies_user2_real_data() {
    let ratings = vec![
        rating(2, 318, 3.0, 1445714835),
        rating(2, 333, 4.0, 1445715029),
        rating(2, 1704, 4.5, 1445715228),
        rating(2, 3578, 4.0, 1445714885),
        rating(2, 6874, 4.0, 1445714952),
        rating(2, 8798, 3.5, 1445714960),
        rating(2, 46970, 4.0, 1445715013),
        rating(2, 48516, 4.0, 1445715064),
        rating(2, 58559, 4.5, 1445715141),
        rating(2, 60756, 5.0, 1445714980),
        rating(2, 68157, 4.5, 1445715154),
        rating(2, 71535, 3.0, 1445714974),
        rating(2, 74458, 4.0, 1445714926),
        rating(2, 77455, 3.0, 1445714941),
        rating(2, 79132, 4.0, 1445714841),
        rating(2, 80489, 4.5, 1445715340),
        rating(2, 80906, 5.0, 1445715172),
        rating(2, 86345, 4.0, 1445715166),
        rating(2, 89774, 5.0, 1445715189),
        rating(2, 91529, 3.5, 1445714891),
        rating(2, 91658, 2.5, 1445714938),
        rating(2, 99114, 3.5, 1445714874),
        rating(2, 106782, 5.0, 1445714966),
        rating(2, 109487, 3.0, 1445715145),
        rating(2, 112552, 4.0, 1445714882),
        rating(2, 114060, 2.0, 1445715276),
        rating(2, 115713, 3.5, 1445714854),
        rating(2, 122882, 5.0, 1445715272),
        rating(2, 131724, 5.0, 1445714851),
    ];

    let top = top_movies(2, &ratings, 4);
    assert_eq!(
        plain(top),
        vec![(122882, 5.0), (89774, 5.0), (80906, 5.0), (60756, 5.0)]
    );
}

#[test]
fn top_movies_keeps_only_the_user() {
    let ratings = vec![
        rating(1, 10, 5.0, 100),
        rating(2, 11, 4.0, 100),
        rating(1, 12, 3.0, 100),
        rating(3, 13, 5.0, 100),
    ];
    assert_eq!(plain(top_movies(1, &ratings, 10)), vec![(10, 5.0), (12, 3.0)]);
    assert_eq!(plain(top_movies(2, &ratings, 10)), vec![(11, 4.0)]);
}

#[test]
fn top_movies_of_stranger_is_empty() {
    let ratings = vec![rating(1, 10, 5.0, 100)];
    assert_eq!(plain(top_movies(9, &ratings, 3)), vec![]);
    assert_eq!(plain(top_movies(1, &[], 3)), vec![]);
}

#[test]
fn top_movies_with_zero_limit_is_empty() {
    let ratings = vec![rating(1, 10, 5.0, 100), rating(1, 11, 4.0, 100)];
    assert_eq!(plain(top_movies(1, &ratings, 0)), vec![]);
}

#[test]
fn top_movies_limit_above_count_returns_all() {
    let ratings = vec![rating(1, 10, 2.0, 100), rating(1, 11, 4.0, 100)];
    assert_eq!(plain(top_movies(1, &ratings, 7)), vec![(11, 4.0), (10, 2.0)]);
}

#[test]
fn top_movies_full_ties_keep_table_order() {
    let ratings = vec![
        rating(1, 30, 4.0, 100),
        rating(1, 10, 4.0, 100),
        rating(1, 20, 4.0, 100),
        rating(1, 40, 4.0, 200),
    ];
    assert_eq!(
        plain(top_movies(1, &ratings, 4)),
        vec![(40, 4.0), (30, 4.0), (10, 4.0), (20, 4.0)]
    );
}

#[test]
fn top_movies_orders_negative_and_zero_scores() {
    let ratings = vec![
        rating(1, 1, -1.5, 10),
        rating(1, 2, 0.0, 10),
        rating(1, 3, -0.0, 20),
        rating(1, 4, 0.5, 10),
        rating(1, 5, -3.0, 10),
    ];
    let top: Vec<u32> = top_movies(1, &ratings, 5).into_iter().map(|(m, _)| m).collect();
    assert_eq!(top, vec![4, 3, 2, 1, 5]);
}
