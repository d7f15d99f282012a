use vstd::prelude::*;

use crate::clock::now_timestamp;
use crate::ids::{fresh_uuid, parse_uuid, uuid_parse_of, uuid_str_of, uuid_string};
use crate::response::{Response, StoreError};
use crate::store::{
    has_like_id, insert_like_row, insert_like_row_seq, lemma_likes_of_sorted,
    lemma_remove_newest_like, likes_except, likes_of, remove_like_rows, Store,
};

verus! {

/// The envelope a like listing answers with.
pub type Likes = Response<Like>;

/// A like as it goes over the wire: a textual identifier and the moment,
/// in microseconds since the epoch, at which it was created.
#[derive(Debug)]
pub struct Like {
    pub id: String,
    pub created_at: i64,
}

/// A like as the store keeps it: identifier bits, creation time, and the
/// tweet it belongs to.
#[derive(Clone, Copy, Debug, PartialEq, Eq, Structural)]
pub struct LikeDB {
    pub id: u128,
    pub created_at: i64,
    pub tweet_id: u128,
}

/// `l` is the wire view of the stored row `row`.
pub open spec fn is_like_of(l: Like, row: LikeDB) -> bool {
    &&& l.id@ == uuid_str_of(row.id)
    &&& uuid_parse_of(l.id@) == Some(row.id)
    &&& l.created_at == row.created_at
}

impl Like {
    /// A like stamped with a fresh identifier and the current time.
    pub fn new() -> (l: Like)
        ensures
            exists|n: u128| l.id@ == uuid_str_of(n) && uuid_parse_of(l.id@) == Some(n),
    {
        let n: u128 = fresh_uuid();
        let ts: i64 = now_timestamp();
        Like { id: uuid_string(n), created_at: ts }
    }

    /// The stored form of this like, bound to the given tweet.
    pub fn to_like_db(&self, tweet_id: u128) -> (row: LikeDB)
        requires
            uuid_parse_of(self.id@) is Some,
        ensures
            row.id == uuid_parse_of(self.id@)->Some_0,
            row.created_at == self.created_at,
            row.tweet_id == tweet_id,
    {
        let id: u128 = parse_uuid(self.id.as_str()).unwrap();
        LikeDB { id, created_at: self.created_at, tweet_id }
    }
}

impl LikeDB {
    /// The wire view of this row.
    pub fn to_like(&self) -> (l: Like)
        ensures
            is_like_of(l, *self),
    {
        Like { id: uuid_string(self.id), created_at: self.created_at }
    }
}

/// The likes of one tweet, newest first, as they go over the wire.
/// The in-memory store cannot fail, so the result is always the full list.
pub fn list_likes(tweet_id: u128, store: &Store) -> (r: Result<Likes, StoreError>)
    requires
        store.wf(),
    ensures
        r is Ok,
        r->Ok_0.results@.len() == likes_of(store.likes@, tweet_id).len(),
        forall|k: int|
            0 <= k < r->Ok_0.results@.len() ==> is_like_of(
                #[trigger] r->Ok_0.results@[k],
                likes_of(store.likes@, tweet_id)[k],
            ),
        forall|i: int, j: int|
            0 <= i < j < r->Ok_0.results@.len() ==> r->Ok_0.results@[i].created_at
                >= r->Ok_0.results@[j].created_at,
{
    let ghost s = store.likes@;
    let mut results: Vec<Like> = Vec::new();
    let ghost mut rows: Seq<LikeDB> = Seq::empty();
    let n: usize = store.likes.len();
    let mut i: usize = 0;
    proof {
        assert(s.skip(0) =~= s);
    }
    while i < n
        invariant
            s == store.likes@,
            n == s.len(),
            i <= n,
            likes_of(s, tweet_id) == rows + likes_of(s.skip(i as int), tweet_id),
            results@.len() == rows.len(),
            forall|k: int| 0 <= k < rows.len() ==> is_like_of(#[trigger] results@[k], rows[k]),
        decreases n - i,
    {
        proof {
            let ski = s.skip(i as int);
            assert(ski.first() == s[i as int]);
            assert(ski.drop_first() =~= s.skip(i as int + 1));
        }
        if store.likes[i].tweet_id == tweet_id {
            let l = store.likes[i].to_like();
            results.push(l);
            proof {
                let ski = s.skip(i as int);
                assert(likes_of(ski, tweet_id) == seq![s[i as int]] + likes_of(
                    s.skip(i as int + 1),
                    tweet_id,
                ));
                rows = rows.push(s[i as int]);
                assert(likes_of(s, tweet_id) =~= rows + likes_of(s.skip(i as int + 1), tweet_id));
            }
        } else {
            proof {
                assert(likes_of(s.skip(i as int), tweet_id) == likes_of(
                    s.skip(i as int + 1),
                    tweet_id,
                ));
            }
        }
        i += 1;
    }
    proof {
        assert(s.skip(n as int) =~= Seq::<LikeDB>::empty());
        assert(rows + likes_of(s.skip(n as int), tweet_id) =~= rows);
        lemma_likes_of_sorted(s, tweet_id);
    }
    Ok(Likes { results })
}

/// Create a like for the given tweet: a fresh identifier and the current
/// time, inserted newest first. A clash with a stored identifier makes the
/// insert fail, that failure is swallowed, and the like is returned either
/// way, exactly as persisted or not at all.
pub fn create_like(tweet_id: u128, store: &mut Store) -> (r: Result<Like, StoreError>)
    requires
        old(store).wf(),
    ensures
        r is Ok,
        final(store).wf(),
        final(store).tweets@ == old(store).tweets@,
        exists|row: LikeDB|
            {
                &&& #[trigger] is_like_of(r->Ok_0, row)
                &&& row.tweet_id == tweet_id
                &&& final(store).likes@ == if has_like_id(old(store).likes@, row.id) {
                    old(store).likes@
                } else {
                    insert_like_row_seq(old(store).likes@, row)
                }
            },
{
    let like = Like::new();
    let row = like.to_like_db(tweet_id);
    insert_like_row(store, row);
    let r = Ok(like);
    proof {
        assert(is_like_of(r->Ok_0, row));
        if has_like_id(old(store).likes@, row.id) {
            assert(store.likes@ == old(store).likes@);
        } else {
            assert(store.likes@ == insert_like_row_seq(old(store).likes@, row));
        }
    }
    r
}

/// Remove one like from the given tweet, realized as "remove the newest
/// like": the head of the tweet's newest-first list is deleted by its
/// identifier. A tweet with no likes is left as it is, a success either way.
pub fn delete_like(tweet_id: u128, store: &mut Store) -> (r: Result<(), StoreError>)
    requires
        old(store).wf(),
    ensures
        r is Ok,
        final(store).wf(),
        final(store).tweets@ == old(store).tweets@,
        likes_of(old(store).likes@, tweet_id).len() == 0 ==> final(store).likes@ == old(
            store,
        ).likes@,
        likes_of(old(store).likes@, tweet_id).len() > 0 ==> {
            &&& final(store).likes@ == likes_except(
                old(store).likes@,
                likes_of(old(store).likes@, tweet_id)[0].id,
            )
            &&& likes_of(final(store).likes@, tweet_id) == likes_of(
                old(store).likes@,
                tweet_id,
            ).drop_first()
            &&& forall|t2: u128|
                t2 != tweet_id ==> likes_of(final(store).likes@, t2) == likes_of(
                    old(store).likes@,
                    t2,
                )
        },
{
    let lks = match list_likes(tweet_id, store) {
        Ok(lks) => lks,
        Err(e) => {
            return Err(e);
        },
    };
    if lks.results.len() == 0 {
        return Ok(());
    }
    let ghost q = likes_of(old(store).likes@, tweet_id);
    let first = &lks.results[0];
    let like_id: u128 = parse_uuid(first.id.as_str()).unwrap();
    proof {
        assert(is_like_of(lks.results@[0], q[0]));
        assert(like_id == q[0].id);
        lemma_remove_newest_like(old(store).likes@, tweet_id);
    }
    remove_like_rows(store, like_id);
    Ok(())
}

} // verus!
