use microblog::like::{create_like, delete_like, list_likes, LikeDB};
use microblog::response::StoreError;
use microblog::store::{insert_like_row, insert_tweet_row, Store};
use microblog::tweet::{create_tweet, delete_tweet, find_tweet, list_tweets, Tweet, TweetDB};

fn parse_id(id: &str) -> u128 {
    uuid::Uuid::parse_str(id).unwrap().as_u128()
}

fn uuid_text(n: u128) -> String {
    uuid::Uuid::from_u128(n).to_string()
}

fn tweet_row(id: u128, created_at: i64, message: &str) -> TweetDB {
    TweetDB {
        id,
        created_at,
        message: String::from(message),
    }
}

#[test]
fn create_then_find_returns_message() {
    let mut store = Store::new();
    let created = create_tweet(Tweet::new(String::from("hello")), &mut store).unwrap();
    assert_eq!(created.message, "hello");
    assert!(created.likes.is_empty());
    let id = parse_id(&created.id);
    let found = find_tweet(id, &store).unwrap();
    assert_eq!(found.message, "hello");
    assert_eq!(found.id, created.id);
    assert_eq!(found.created_at, created.created_at);
}

#[test]
fn post_get_delete_roundtrip() {
    let mut store = Store::new();
    let created = create_tweet(Tweet::new(String::from("hello")), &mut store).unwrap();
    let id = parse_id(&created.id);
    let found = find_tweet(id, &store).unwrap();
    assert_eq!(found.message, "hello");
    assert!(delete_tweet(id, &mut store).is_ok());
    let absent = find_tweet(id, &store);
    assert_eq!(absent.unwrap_err(), StoreError::NotFound);
}

#[test]
fn delete_missing_tweet_is_noop() {
    let mut store = Store::new();
    let created = create_tweet(Tweet::new(String::from("kept")), &mut store).unwrap();
    let other = parse_id(&created.id).wrapping_add(1);
    assert!(delete_tweet(other, &mut store).is_ok());
    let listed = list_tweets(10, &store).unwrap();
    assert_eq!(listed.results.len(), 1);
    assert_eq!(listed.results[0].message, "kept");
}

#[test]
fn delete_on_empty_store_is_ok() {
    let mut store = Store::new();
    assert!(delete_tweet(42, &mut store).is_ok());
    assert!(list_tweets(10, &store).unwrap().results.is_empty());
}

#[test]
fn list_tweets_caps_the_count() {
    let mut store = Store::new();
    for k in 1..=5u32 {
        insert_tweet_row(
            &mut store,
            tweet_row(k as u128, 10 * k as i64, &format!("m{}", k)),
        );
    }
    assert_eq!(list_tweets(3, &store).unwrap().results.len(), 3);
    assert_eq!(list_tweets(5, &store).unwrap().results.len(), 5);
    assert_eq!(list_tweets(100, &store).unwrap().results.len(), 5);
    assert!(list_tweets(0, &store).unwrap().results.is_empty());
    assert!(list_tweets(-1, &store).unwrap().results.is_empty());
}

#[test]
fn list_tweets_orders_newest_first() {
    let mut store = Store::new();
    insert_tweet_row(&mut store, tweet_row(1, 20, "middle"));
    insert_tweet_row(&mut store, tweet_row(2, 30, "newest"));
    insert_tweet_row(&mut store, tweet_row(3, 10, "oldest"));
    let listed = list_tweets(10, &store).unwrap();
    let messages: Vec<&str> = listed.results.iter().map(|t| t.message.as_str()).collect();
    assert_eq!(messages, vec!["newest", "middle", "oldest"]);
    assert!(listed
        .results
        .windows(2)
        .all(|w| w[0].created_at >= w[1].created_at));
}

#[test]
fn duplicate_tweet_id_insert_is_swallowed() {
    let mut store = Store::new();
    insert_tweet_row(&mut store, tweet_row(1, 10, "first"));
    insert_tweet_row(&mut store, tweet_row(1, 20, "second"));
    let listed = list_tweets(10, &store).unwrap();
    assert_eq!(listed.results.len(), 1);
    assert_eq!(listed.results[0].message, "first");
}

#[test]
fn new_like_lists_at_the_head() {
    let mut store = Store::new();
    insert_like_row(
        &mut store,
        LikeDB {
            id: 1,
            created_at: 10,
            tweet_id: 7,
        },
    );
    insert_like_row(
        &mut store,
        LikeDB {
            id: 2,
            created_at: 20,
            tweet_id: 7,
        },
    );
    let listed = list_likes(7, &store).unwrap();
    assert_eq!(listed.results.len(), 2);
    assert_eq!(listed.results[0].id, uuid_text(2));
    assert_eq!(listed.results[1].id, uuid_text(1));
}

#[test]
fn created_like_lists_at_the_head() {
    let mut store = Store::new();
    let first = create_like(7, &mut store).unwrap();
    let second = create_like(7, &mut store).unwrap();
    let listed = list_likes(7, &store).unwrap();
    assert_eq!(listed.results.len(), 2);
    assert_eq!(listed.results[0].id, second.id);
    assert_eq!(listed.results[1].id, first.id);
    assert!(list_likes(8, &store).unwrap().results.is_empty());
}

#[test]
fn delete_like_removes_the_newest() {
    let mut store = Store::new();
    for (id, created_at) in [(1u128, 10i64), (2, 20), (3, 30)] {
        insert_like_row(
            &mut store,
            LikeDB {
                id,
                created_at,
                tweet_id: 7,
            },
        );
    }
    insert_like_row(
        &mut store,
        LikeDB {
            id: 4,
            created_at: 40,
            tweet_id: 8,
        },
    );
    assert!(delete_like(7, &mut store).is_ok());
    let listed = list_likes(7, &store).unwrap();
    assert_eq!(listed.results.len(), 2);
    assert_eq!(listed.results[0].id, uuid_text(2));
    assert_eq!(listed.results[1].id, uuid_text(1));
    assert_eq!(list_likes(8, &store).unwrap().results.len(), 1);
}

#[test]
fn delete_like_with_no_likes_is_noop() {
    let mut store = Store::new();
    insert_like_row(
        &mut store,
        LikeDB {
            id: 4,
            created_at: 40,
            tweet_id: 8,
        },
    );
    assert!(delete_like(7, &mut store).is_ok());
    assert_eq!(list_likes(8, &store).unwrap().results.len(), 1);
    assert!(list_likes(7, &store).unwrap().results.is_empty());
}
