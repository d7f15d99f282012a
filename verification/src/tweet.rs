use vstd::prelude::*;

use crate::clock::now_timestamp;
use crate::ids::{fresh_uuid, uuid_parse_of, uuid_str_of, uuid_string};
use crate::like::Like;
use crate::response::{Response, StoreError};
use crate::store::{
    find_tweet_row, has_tweet_id, insert_tweet_row, insert_tweet_row_seq, remove_tweet_rows,
    tweets_except, Store,
};

verus! {

/// The envelope a tweet listing answers with.
pub type Tweets = Response<Tweet>;

/// A tweet as it goes over the wire: a textual identifier, the moment of
/// creation in microseconds since the epoch, the message, and the likes
/// that were joined in (empty unless explicitly populated).
#[derive(Debug)]
pub struct Tweet {
    pub id: String,
    pub created_at: i64,
    pub message: String,
    pub likes: Vec<Like>,
}

/// A tweet as the store keeps it: identifier bits, creation time, message.
#[derive(Debug)]
pub struct TweetDB {
    pub id: u128,
    pub created_at: i64,
    pub message: String,
}

/// `t` is the wire view of the stored row `row`, likes not populated.
pub open spec fn is_tweet_of(t: Tweet, row: TweetDB) -> bool {
    &&& t.id@ == uuid_str_of(row.id)
    &&& uuid_parse_of(t.id@) == Some(row.id)
    &&& t.created_at == row.created_at
    &&& t.message@ == row.message@
    &&& t.likes@ == Seq::<Like>::empty()
}

impl Tweet {
    /// A tweet carrying the given message, stamped with a fresh identifier
    /// and the current time, with no likes joined.
    pub fn new(message: String) -> (t: Tweet)
        ensures
            t.message@ == message@,
            t.likes@ == Seq::<Like>::empty(),
            exists|n: u128| t.id@ == uuid_str_of(n) && uuid_parse_of(t.id@) == Some(n),
    {
        let n: u128 = fresh_uuid();
        let ts: i64 = now_timestamp();
        Tweet { id: uuid_string(n), created_at: ts, message, likes: Vec::new() }
    }

    /// The stored form of this tweet. The store mints its own identifier and
    /// timestamp at this step, so only the message carries over.
    pub fn to_tweet_db(&self) -> (row: TweetDB)
        ensures
            row.message@ == self.message@,
    {
        let n: u128 = fresh_uuid();
        let ts: i64 = now_timestamp();
        TweetDB { id: n, created_at: ts, message: self.message.clone() }
    }

    /// The same tweet with the given likes joined in.
    pub fn add_likes(&self, likes: Vec<Like>) -> (t: Tweet)
        ensures
            t.id@ == self.id@,
            t.created_at == self.created_at,
            t.message@ == self.message@,
            t.likes@ == likes@,
    {
        Tweet {
            id: self.id.clone(),
            created_at: self.created_at,
            message: self.message.clone(),
            likes,
        }
    }
}

impl TweetDB {
    /// The wire view of this row, likes not populated.
    pub fn to_tweet(&self) -> (t: Tweet)
        ensures
            is_tweet_of(t, *self),
    {
        let t = Tweet {
            id: uuid_string(self.id),
            created_at: self.created_at,
            message: self.message.clone(),
            likes: Vec::new(),
        };
        proof {
            assert(t.likes@ =~= Seq::<Like>::empty());
        }
        t
    }
}

/// The body of a tweet creation request; the message is required.
pub struct TweetRequest {
    pub message: Option<String>,
}

impl TweetRequest {
    /// A fresh tweet out of the request, or nothing where the message is
    /// missing.
    pub fn to_tweet(&self) -> (t: Option<Tweet>)
        ensures
            t is Some <==> self.message is Some,
            t is Some ==> {
                &&& t->0.message@ == self.message->0@
                &&& t->0.likes@ == Seq::<Like>::empty()
                &&& uuid_parse_of(t->0.id@) is Some
            },
    {
        match &self.message {
            Some(message) => Some(Tweet::new(message.clone())),
            None => None,
        }
    }
}

/// The newest tweets, newest first, likes not populated, at most
/// `total_tweets` of them. A non-positive cap reads as a failed query, and
/// the failure is swallowed into an empty list.
pub fn list_tweets(total_tweets: i64, store: &Store) -> (r: Result<Tweets, StoreError>)
    requires
        store.wf(),
    ensures
        r is Ok,
        total_tweets <= 0 ==> r->Ok_0.results@.len() == 0,
        total_tweets > 0 && total_tweets as int <= store.tweets@.len() ==> r->Ok_0.results@.len()
            == total_tweets as int,
        total_tweets > 0 && total_tweets as int > store.tweets@.len() ==> r->Ok_0.results@.len()
            == store.tweets@.len(),
        forall|k: int|
            0 <= k < r->Ok_0.results@.len() ==> is_tweet_of(
                #[trigger] r->Ok_0.results@[k],
                store.tweets@[k],
            ),
        forall|i: int, j: int|
            0 <= i < j < r->Ok_0.results@.len() ==> r->Ok_0.results@[i].created_at
                >= r->Ok_0.results@[j].created_at,
{
    let mut results: Vec<Tweet> = Vec::new();
    if total_tweets <= 0 {
        return Ok(Tweets { results });
    }
    let n: usize = store.tweets.len();
    let cap: usize = if n as u64 <= total_tweets as u64 {
        n
    } else {
        total_tweets as usize
    };
    let mut i: usize = 0;
    while i < cap
        invariant
            cap <= n,
            n == store.tweets@.len(),
            i <= cap,
            results@.len() == i,
            forall|k: int|
                0 <= k < i ==> is_tweet_of(#[trigger] results@[k], store.tweets@[k]),
        decreases cap - i,
    {
        let t = store.tweets[i].to_tweet();
        results.push(t);
        i += 1;
    }
    Ok(Tweets { results })
}

/// Exact-match lookup by identifier: the wire view of the first matching
/// row, or NotFound where no row matches.
pub fn find_tweet(id: u128, store: &Store) -> (r: Result<Tweet, StoreError>)
    requires
        store.wf(),
    ensures
        r is Ok <==> find_tweet_row(store.tweets@, id) is Some,
        r is Ok ==> is_tweet_of(r->Ok_0, find_tweet_row(store.tweets@, id)->Some_0),
        r is Err ==> r->Err_0 == StoreError::NotFound,
{
    let ghost s = store.tweets@;
    let n: usize = store.tweets.len();
    let mut i: usize = 0;
    proof {
        assert(s.skip(0) =~= s);
    }
    while i < n
        invariant
            s == store.tweets@,
            n == s.len(),
            i <= n,
            find_tweet_row(s, id) == find_tweet_row(s.skip(i as int), id),
        decreases n - i,
    {
        proof {
            let ski = s.skip(i as int);
            assert(ski.first() == s[i as int]);
            assert(ski.drop_first() =~= s.skip(i as int + 1));
        }
        if store.tweets[i].id == id {
            proof {
                assert(find_tweet_row(s, id) == Some(s[i as int]));
            }
            return Ok(store.tweets[i].to_tweet());
        }
        i += 1;
    }
    proof {
        assert(s.skip(n as int) =~= Seq::<TweetDB>::empty());
    }
    Err(StoreError::NotFound)
}

/// Persist a tweet and return the wire view of exactly what was persisted.
/// The store mints a fresh identifier and timestamp at this step, so only
/// the message carries over from the argument. A clash with a stored
/// identifier makes the insert fail, that failure is swallowed, and the
/// minted row is returned either way, persisted or not.
pub fn create_tweet(tweet: Tweet, store: &mut Store) -> (r: Result<Tweet, StoreError>)
    requires
        old(store).wf(),
    ensures
        r is Ok,
        final(store).wf(),
        final(store).likes@ == old(store).likes@,
        r->Ok_0.message@ == tweet.message@,
        r->Ok_0.likes@ == Seq::<Like>::empty(),
        exists|row: TweetDB|
            {
                &&& #[trigger] is_tweet_of(r->Ok_0, row)
                &&& row.message@ == tweet.message@
                &&& final(store).tweets@ == if has_tweet_id(old(store).tweets@, row.id) {
                    old(store).tweets@
                } else {
                    insert_tweet_row_seq(old(store).tweets@, row)
                }
            },
{
    let row = tweet.to_tweet_db();
    let ghost row0 = row;
    let t = row.to_tweet();
    insert_tweet_row(store, row);
    let r = Ok(t);
    proof {
        assert(is_tweet_of(r->Ok_0, row0));
        if has_tweet_id(old(store).tweets@, row0.id) {
            assert(store.tweets@ == old(store).tweets@);
        } else {
            assert(store.tweets@ == insert_tweet_row_seq(old(store).tweets@, row0));
        }
    }
    r
}

/// Delete by identifier: every row holding it goes, none need exist, a
/// success either way.
pub fn delete_tweet(id: u128, store: &mut Store) -> (r: Result<(), StoreError>)
    requires
        old(store).wf(),
    ensures
        r is Ok,
        final(store).wf(),
        final(store).likes@ == old(store).likes@,
        final(store).tweets@ == tweets_except(old(store).tweets@, id),
{
    remove_tweet_rows(store, id);
    Ok(())
}

} // verus!
