use microblog::like::{Like, LikeDB};
use microblog::tweet::{Tweet, TweetRequest};

#[test]
fn like_row_renders_its_identifier_hyphenated() {
    let row = LikeDB {
        id: 5,
        created_at: 123,
        tweet_id: 9,
    };
    let like = row.to_like();
    assert_eq!(like.id, "00000000-0000-0000-0000-000000000005");
    assert_eq!(like.created_at, 123);
}

#[test]
fn like_row_roundtrips_through_the_wire_form() {
    let row = LikeDB {
        id: 0xa1a2a3a4b1b2c1c2d1d2d3d4d5d6d7d8,
        created_at: 77,
        tweet_id: 9,
    };
    let like = row.to_like();
    assert_eq!(like.id, "a1a2a3a4-b1b2-c1c2-d1d2-d3d4d5d6d7d8");
    let back = like.to_like_db(9);
    assert_eq!(back.id, row.id);
    assert_eq!(back.created_at, row.created_at);
    assert_eq!(back.tweet_id, 9);
}

#[test]
fn fresh_like_has_a_parseable_identifier() {
    let like = Like::new();
    assert!(uuid::Uuid::parse_str(&like.id).is_ok());
}

#[test]
fn fresh_tweet_keeps_its_message() {
    let tweet = Tweet::new(String::from("salut"));
    assert_eq!(tweet.message, "salut");
    assert!(tweet.likes.is_empty());
    assert!(uuid::Uuid::parse_str(&tweet.id).is_ok());
}

#[test]
fn tweet_request_with_message_becomes_a_tweet() {
    let req = TweetRequest {
        message: Some(String::from("hello")),
    };
    let tweet = req.to_tweet().unwrap();
    assert_eq!(tweet.message, "hello");
    assert!(tweet.likes.is_empty());
}

#[test]
fn tweet_request_without_message_is_rejected() {
    let req = TweetRequest { message: None };
    assert!(req.to_tweet().is_none());
}

#[test]
fn add_likes_attaches_the_given_likes() {
    let tweet = Tweet::new(String::from("liked"));
    let likes = vec![Like::new(), Like::new()];
    let first_id = likes[0].id.clone();
    let with_likes = tweet.add_likes(likes);
    assert_eq!(with_likes.message, tweet.message);
    assert_eq!(with_likes.id, tweet.id);
    assert_eq!(with_likes.created_at, tweet.created_at);
    assert_eq!(with_likes.likes.len(), 2);
    assert_eq!(with_likes.likes[0].id, first_id);
}
