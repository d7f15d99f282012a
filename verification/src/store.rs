use vstd::prelude::*;

use crate::like::LikeDB;
use crate::tweet::TweetDB;

verus! {

/// The persisted rows, each table ordered newest first.
pub struct Store {
    pub tweets: Vec<TweetDB>,
    pub likes: Vec<LikeDB>,
}

/// Newest first: creation times never grow along the table.
pub open spec fn tweets_sorted(s: Seq<TweetDB>) -> bool {
    forall|i: int, j: int| 0 <= i < j < s.len() ==> s[i].created_at >= s[j].created_at
}

/// Newest first: creation times never grow along the table.
pub open spec fn likes_sorted(s: Seq<LikeDB>) -> bool {
    forall|i: int, j: int| 0 <= i < j < s.len() ==> s[i].created_at >= s[j].created_at
}

pub open spec fn has_tweet_id(s: Seq<TweetDB>, id: u128) -> bool {
    exists|k: int| 0 <= k < s.len() && s[k].id == id
}

pub open spec fn has_like_id(s: Seq<LikeDB>, id: u128) -> bool {
    exists|k: int| 0 <= k < s.len() && s[k].id == id
}

pub open spec fn tweet_ids_unique(s: Seq<TweetDB>) -> bool {
    forall|i: int, j: int| 0 <= i < j < s.len() ==> s[i].id != s[j].id
}

pub open spec fn like_ids_unique(s: Seq<LikeDB>) -> bool {
    forall|i: int, j: int| 0 <= i < j < s.len() ==> s[i].id != s[j].id
}

impl Store {
    /// Both tables ordered newest first, primary keys unique.
    pub open spec fn wf(self) -> bool {
        &&& tweets_sorted(self.tweets@)
        &&& tweet_ids_unique(self.tweets@)
        &&& likes_sorted(self.likes@)
        &&& like_ids_unique(self.likes@)
    }

    /// An empty store.
    pub fn new() -> (s: Store)
        ensures
            s.wf(),
            s.tweets@ == Seq::<TweetDB>::empty(),
            s.likes@ == Seq::<LikeDB>::empty(),
    {
        Store { tweets: Vec::new(), likes: Vec::new() }
    }
}

/// The likes of one tweet, in stored order.
pub open spec fn likes_of(s: Seq<LikeDB>, tweet_id: u128) -> Seq<LikeDB>
    decreases s.len(),
{
    if s.len() == 0 {
        Seq::empty()
    } else if s.first().tweet_id == tweet_id {
        seq![s.first()] + likes_of(s.drop_first(), tweet_id)
    } else {
        likes_of(s.drop_first(), tweet_id)
    }
}

/// The table with every row of the given tweet identifier removed.
pub open spec fn tweets_except(s: Seq<TweetDB>, id: u128) -> Seq<TweetDB>
    decreases s.len(),
{
    if s.len() == 0 {
        Seq::empty()
    } else if s.first().id == id {
        tweets_except(s.drop_first(), id)
    } else {
        seq![s.first()] + tweets_except(s.drop_first(), id)
    }
}

/// The table with every row of the given like identifier removed.
pub open spec fn likes_except(s: Seq<LikeDB>, id: u128) -> Seq<LikeDB>
    decreases s.len(),
{
    if s.len() == 0 {
        Seq::empty()
    } else if s.first().id == id {
        likes_except(s.drop_first(), id)
    } else {
        seq![s.first()] + likes_except(s.drop_first(), id)
    }
}

/// The first row matching the given tweet identifier, if any.
pub open spec fn find_tweet_row(s: Seq<TweetDB>, id: u128) -> Option<TweetDB>
    decreases s.len(),
{
    if s.len() == 0 {
        None
    } else if s.first().id == id {
        Some(s.first())
    } else {
        find_tweet_row(s.drop_first(), id)
    }
}

/// Where a row created at `ts` goes in a newest-first table: before every
/// strictly newer row, and before every row of the same moment.
pub open spec fn tweet_pos(s: Seq<TweetDB>, ts: i64) -> int
    decreases s.len(),
{
    if s.len() == 0 {
        0
    } else if s.first().created_at <= ts {
        0
    } else {
        1 + tweet_pos(s.drop_first(), ts)
    }
}

/// Where a row created at `ts` goes in a newest-first table: before every
/// strictly newer row, and before every row of the same moment.
pub open spec fn like_pos(s: Seq<LikeDB>, ts: i64) -> int
    decreases s.len(),
{
    if s.len() == 0 {
        0
    } else if s.first().created_at <= ts {
        0
    } else {
        1 + like_pos(s.drop_first(), ts)
    }
}

/// The table after inserting `row` at its newest-first position.
pub open spec fn insert_tweet_row_seq(s: Seq<TweetDB>, row: TweetDB) -> Seq<TweetDB> {
    s.insert(tweet_pos(s, row.created_at), row)
}

/// The table after inserting `row` at its newest-first position.
pub open spec fn insert_like_row_seq(s: Seq<LikeDB>, row: LikeDB) -> Seq<LikeDB> {
    s.insert(like_pos(s, row.created_at), row)
}

proof fn lemma_tweet_pos_is(s: Seq<TweetDB>, ts: i64, i: int)
    requires
        0 <= i <= s.len(),
        forall|k: int| 0 <= k < i ==> s[k].created_at > ts,
        i < s.len() ==> s[i].created_at <= ts,
    ensures
        tweet_pos(s, ts) == i,
    decreases s.len(),
{
    if s.len() == 0 {
    } else if s.first().created_at <= ts {
        assert(i == 0);
    } else {
        let t = s.drop_first();
        assert(forall|k: int| 0 <= k < i - 1 ==> t[k] == s[k + 1]);
        lemma_tweet_pos_is(t, ts, i - 1);
    }
}

proof fn lemma_like_pos_is(s: Seq<LikeDB>, ts: i64, i: int)
    requires
        0 <= i <= s.len(),
        forall|k: int| 0 <= k < i ==> s[k].created_at > ts,
        i < s.len() ==> s[i].created_at <= ts,
    ensures
        like_pos(s, ts) == i,
    decreases s.len(),
{
    if s.len() == 0 {
    } else if s.first().created_at <= ts {
        assert(i == 0);
    } else {
        let t = s.drop_first();
        assert(forall|k: int| 0 <= k < i - 1 ==> t[k] == s[k + 1]);
        lemma_like_pos_is(t, ts, i - 1);
    }
}

/// Insert one row at its newest-first position. A duplicate primary key
/// makes the insert fail, and that failure is swallowed: the table is then
/// left as it was.
pub fn insert_tweet_row(store: &mut Store, row: TweetDB)
    requires
        old(store).wf(),
    ensures
        final(store).wf(),
        final(store).likes@ == old(store).likes@,
        has_tweet_id(old(store).tweets@, row.id) ==> final(store).tweets@ == old(store).tweets@,
        !has_tweet_id(old(store).tweets@, row.id) ==> final(store).tweets@
            == insert_tweet_row_seq(old(store).tweets@, row),
{
    let ghost s = old(store).tweets@;
    let n: usize = store.tweets.len();
    let mut k: usize = 0;
    while k < n
        invariant
            *store == *old(store),
            store.wf(),
            s == store.tweets@,
            n == s.len(),
            k <= n,
            forall|j: int| 0 <= j < k ==> s[j].id != row.id,
        decreases n - k,
    {
        if store.tweets[k].id == row.id {
            assert(has_tweet_id(s, row.id));
            return ;
        }
        k += 1;
    }
    assert(!has_tweet_id(s, row.id));
    let mut p: usize = 0;
    while p < n && store.tweets[p].created_at > row.created_at
        invariant
            *store == *old(store),
            s == store.tweets@,
            n == s.len(),
            p <= n,
            forall|j: int| 0 <= j < p ==> s[j].created_at > row.created_at,
        decreases n - p,
    {
        p += 1;
    }
    proof {
        lemma_tweet_pos_is(s, row.created_at, p as int);
        s.insert_ensures(p as int, row);
    }
    store.tweets.insert(p, row);
    proof {
        let s2 = store.tweets@;
        let p = p as int;
        assert(forall|j: int| p <= j < s.len() ==> s[j].created_at <= row.created_at) by {
            if p < s.len() {
                assert(forall|j: int| p < j < s.len() ==> s[p].created_at >= s[j].created_at);
            }
        }
        assert forall|i: int, j: int| 0 <= i < j < s2.len() implies s2[i].created_at
            >= s2[j].created_at by {
            if i < p && j > p {
                assert(s2[i] == s[i] && s2[j] == s[j - 1]);
            }
        }
        assert forall|i: int, j: int| 0 <= i < j < s2.len() implies s2[i].id != s2[j].id by {
            if i < p && j > p {
                assert(s2[i] == s[i] && s2[j] == s[j - 1]);
            }
            if i == p {
                assert(s2[j] == s[j - 1]);
            }
            if j == p && i < p {
                assert(s2[i] == s[i]);
            }
        }
    }
}

/// Insert one row at its newest-first position. A duplicate primary key
/// makes the insert fail, and that failure is swallowed: the table is then
/// left as it was.
pub fn insert_like_row(store: &mut Store, row: LikeDB)
    requires
        old(store).wf(),
    ensures
        final(store).wf(),
        final(store).tweets@ == old(store).tweets@,
        has_like_id(old(store).likes@, row.id) ==> final(store).likes@ == old(store).likes@,
        !has_like_id(old(store).likes@, row.id) ==> final(store).likes@ == insert_like_row_seq(
            old(store).likes@,
            row,
        ),
{
    let ghost s = old(store).likes@;
    let n: usize = store.likes.len();
    let mut k: usize = 0;
    while k < n
        invariant
            *store == *old(store),
            store.wf(),
            s == store.likes@,
            n == s.len(),
            k <= n,
            forall|j: int| 0 <= j < k ==> s[j].id != row.id,
        decreases n - k,
    {
        if store.likes[k].id == row.id {
            assert(has_like_id(s, row.id));
            return ;
        }
        k += 1;
    }
    assert(!has_like_id(s, row.id));
    let mut p: usize = 0;
    while p < n && store.likes[p].created_at > row.created_at
        invariant
            *store == *old(store),
            s == store.likes@,
            n == s.len(),
            p <= n,
            forall|j: int| 0 <= j < p ==> s[j].created_at > row.created_at,
        decreases n - p,
    {
        p += 1;
    }
    proof {
        lemma_like_pos_is(s, row.created_at, p as int);
        s.insert_ensures(p as int, row);
    }
    store.likes.insert(p, row);
    proof {
        let s2 = store.likes@;
        let p = p as int;
        assert(forall|j: int| p <= j < s.len() ==> s[j].created_at <= row.created_at) by {
            if p < s.len() {
                assert(forall|j: int| p < j < s.len() ==> s[p].created_at >= s[j].created_at);
            }
        }
        assert forall|i: int, j: int| 0 <= i < j < s2.len() implies s2[i].created_at
            >= s2[j].created_at by {
            if i < p && j > p {
                assert(s2[i] == s[i] && s2[j] == s[j - 1]);
            }
        }
        assert forall|i: int, j: int| 0 <= i < j < s2.len() implies s2[i].id != s2[j].id by {
            if i < p && j > p {
                assert(s2[i] == s[i] && s2[j] == s[j - 1]);
            }
            if i == p {
                assert(s2[j] == s[j - 1]);
            }
            if j == p && i < p {
                assert(s2[i] == s[i]);
            }
        }
    }
}

proof fn lemma_tweet_pos_bounds(s: Seq<TweetDB>, ts: i64)
    ensures
        0 <= tweet_pos(s, ts) <= s.len(),
    decreases s.len(),
{
    if s.len() == 0 {
    } else if s.first().created_at <= ts {
    } else {
        lemma_tweet_pos_bounds(s.drop_first(), ts);
    }
}

/// Every listed like of a tweet is a stored row, and belongs to that tweet.
pub proof fn lemma_likes_of_membership(s: Seq<LikeDB>, tweet_id: u128)
    ensures
        forall|k: int|
            0 <= k < likes_of(s, tweet_id).len() ==> s.contains(
                #[trigger] likes_of(s, tweet_id)[k],
            ) && likes_of(s, tweet_id)[k].tweet_id == tweet_id,
    decreases s.len(),
{
    if s.len() == 0 {
    } else {
        let t = s.drop_first();
        let q = likes_of(s, tweet_id);
        lemma_likes_of_membership(t, tweet_id);
        assert forall|k: int|
            0 <= k < q.len() implies s.contains(#[trigger] q[k]) && q[k].tweet_id == tweet_id by {
            if s.first().tweet_id == tweet_id && k == 0 {
                assert(q[0] == s[0]);
            } else {
                let qk = if s.first().tweet_id == tweet_id {
                    likes_of(t, tweet_id)[k - 1]
                } else {
                    likes_of(t, tweet_id)[k]
                };
                assert(q[k] == qk);
                assert(t.contains(qk));
                let j = choose|j: int| 0 <= j < t.len() && t[j] == qk;
                assert(s[j + 1] == qk);
            }
        }
    }
}

/// The likes of one tweet come out newest first when the table is so ordered.
pub proof fn lemma_likes_of_sorted(s: Seq<LikeDB>, tweet_id: u128)
    requires
        likes_sorted(s),
    ensures
        likes_sorted(likes_of(s, tweet_id)),
    decreases s.len(),
{
    if s.len() == 0 {
    } else {
        let t = s.drop_first();
        let q = likes_of(s, tweet_id);
        assert(likes_sorted(t)) by {
            assert(forall|i: int, j: int|
                0 <= i < j < t.len() ==> t[i] == s[i + 1] && t[j] == s[j + 1]);
        }
        lemma_likes_of_sorted(t, tweet_id);
        lemma_likes_of_membership(t, tweet_id);
        assert forall|i: int, j: int| 0 <= i < j < q.len() implies q[i].created_at
            >= q[j].created_at by {
            if s.first().tweet_id == tweet_id {
                if i == 0 {
                    let qj = likes_of(t, tweet_id)[j - 1];
                    assert(q[j] == qj);
                    assert(t.contains(qj));
                    let m = choose|m: int| 0 <= m < t.len() && t[m] == qj;
                    assert(s[m + 1] == qj);
                } else {
                    assert(q[i] == likes_of(t, tweet_id)[i - 1]);
                    assert(q[j] == likes_of(t, tweet_id)[j - 1]);
                }
            } else {
                assert(q[i] == likes_of(t, tweet_id)[i]);
                assert(q[j] == likes_of(t, tweet_id)[j]);
            }
        }
    }
}

/// Removing the newest like of a tweet drops exactly the head of that
/// tweet's list and leaves every other tweet's likes untouched.
pub proof fn lemma_remove_newest_like(s: Seq<LikeDB>, tweet_id: u128)
    requires
        like_ids_unique(s),
        likes_of(s, tweet_id).len() > 0,
    ensures
        likes_of(likes_except(s, likes_of(s, tweet_id)[0].id), tweet_id) == likes_of(
            s,
            tweet_id,
        ).drop_first(),
        forall|t2: u128|
            t2 != tweet_id ==> likes_of(likes_except(s, likes_of(s, tweet_id)[0].id), t2)
                == likes_of(s, t2),
    decreases s.len(),
{
    let q = likes_of(s, tweet_id);
    let lid = q[0].id;
    let h = s.first();
    let t = s.drop_first();
    assert(like_ids_unique(t)) by {
        assert(forall|i: int, j: int| 0 <= i < j < t.len() ==> t[i] == s[i + 1] && t[j] == s[j + 1]);
    }
    if h.tweet_id == tweet_id {
        assert(q == seq![h] + likes_of(t, tweet_id));
        assert(q[0] == h);
        assert(!has_like_id(t, lid)) by {
            if has_like_id(t, lid) {
                let k = choose|k: int| 0 <= k < t.len() && t[k].id == lid;
                assert(s[k + 1].id == s[0].id);
            }
        }
        lemma_likes_except_absent(t, lid);
        assert(likes_except(s, lid) == t);
        assert(likes_of(t, tweet_id) =~= q.drop_first());
        assert forall|t2: u128| t2 != tweet_id implies likes_of(likes_except(s, lid), t2)
            == likes_of(s, t2) by {
            assert(likes_of(s, t2) == likes_of(t, t2));
        }
    } else {
        assert(q == likes_of(t, tweet_id));
        lemma_likes_of_membership(t, tweet_id);
        assert(t.contains(q[0]));
        assert(h.id != lid) by {
            if h.id == lid {
                let j = choose|j: int| 0 <= j < t.len() && t[j] == q[0];
                assert(s[j + 1].id == s[0].id);
            }
        }
        lemma_remove_newest_like(t, tweet_id);
        let x = likes_except(t, lid);
        assert(likes_except(s, lid) == seq![h] + x);
        let n2 = seq![h] + x;
        assert(n2.first() == h);
        assert(n2.drop_first() =~= x);
        assert(likes_of(n2, tweet_id) == likes_of(x, tweet_id));
        assert(likes_of(x, tweet_id) == q.drop_first());
        assert forall|t2: u128| t2 != tweet_id implies likes_of(likes_except(s, lid), t2)
            == likes_of(s, t2) by {
            if h.tweet_id == t2 {
                assert(likes_of(n2, t2) == seq![h] + likes_of(x, t2));
                assert(likes_of(s, t2) == seq![h] + likes_of(t, t2));
                assert(likes_of(x, t2) == likes_of(t, t2));
            } else {
                assert(likes_of(n2, t2) == likes_of(x, t2));
                assert(likes_of(s, t2) == likes_of(t, t2));
                assert(likes_of(x, t2) == likes_of(t, t2));
            }
        }
    }
}

/// Creating a tweet whose identifier no row yet holds and immediately
/// fetching that identifier finds exactly the created row, its message
/// included.
pub proof fn lemma_create_then_find(s: Seq<TweetDB>, row: TweetDB)
    requires
        !has_tweet_id(s, row.id),
    ensures
        find_tweet_row(insert_tweet_row_seq(s, row), row.id) == Some(row),
    decreases s.len(),
{
    let p = tweet_pos(s, row.created_at);
    lemma_tweet_pos_bounds(s, row.created_at);
    s.insert_ensures(p, row);
    let n2 = insert_tweet_row_seq(s, row);
    if p == 0 {
        assert(n2.first() == row);
    } else {
        let t = s.drop_first();
        assert(s[0].id != row.id);
        assert(!has_tweet_id(t, row.id)) by {
            if has_tweet_id(t, row.id) {
                let k = choose|k: int| 0 <= k < t.len() && t[k].id == row.id;
                assert(s[k + 1].id == row.id);
            }
        }
        lemma_create_then_find(t, row);
        lemma_tweet_pos_bounds(t, row.created_at);
        t.insert_ensures(p - 1, row);
        assert(n2.first() == s[0]);
        assert(n2.drop_first() =~= t.insert(p - 1, row)) by {
            t.insert_ensures(p - 1, row);
        }
        assert(find_tweet_row(n2, row.id) == find_tweet_row(t.insert(p - 1, row), row.id));
    }
}

/// A like stamped no earlier than every stored like, with a fresh
/// identifier, goes to the head of the table, lists at the head of its
/// tweet's likes, and leaves every other tweet's likes untouched.
pub proof fn lemma_new_like_listed_first(s: Seq<LikeDB>, row: LikeDB)
    requires
        forall|k: int| 0 <= k < s.len() ==> s[k].created_at <= row.created_at,
    ensures
        insert_like_row_seq(s, row) == seq![row] + s,
        likes_of(insert_like_row_seq(s, row), row.tweet_id) == seq![row] + likes_of(
            s,
            row.tweet_id,
        ),
        forall|t2: u128|
            t2 != row.tweet_id ==> likes_of(insert_like_row_seq(s, row), t2) == likes_of(s, t2),
{
    assert(like_pos(s, row.created_at) == 0);
    s.insert_ensures(0, row);
    assert(insert_like_row_seq(s, row) =~= seq![row] + s);
    let n2 = seq![row] + s;
    assert(n2.first() == row);
    assert(n2.drop_first() =~= s);
}

/// After a delete by identifier, a fetch of that identifier finds nothing.
pub proof fn lemma_find_after_delete(s: Seq<TweetDB>, id: u128)
    ensures
        find_tweet_row(tweets_except(s, id), id) is None,
    decreases s.len(),
{
    if s.len() == 0 {
    } else {
        let h = s.first();
        let t = s.drop_first();
        lemma_find_after_delete(t, id);
        if h.id != id {
            let n2 = seq![h] + tweets_except(t, id);
            assert(n2.first() == h);
            assert(n2.drop_first() =~= tweets_except(t, id));
            assert(find_tweet_row(n2, id) == find_tweet_row(tweets_except(t, id), id));
        }
    }
}

/// Deleting a tweet identifier that no row holds leaves the table as it was:
/// a delete of something absent is a no-op, not an error.
pub proof fn lemma_tweets_except_absent(s: Seq<TweetDB>, id: u128)
    requires
        !has_tweet_id(s, id),
    ensures
        tweets_except(s, id) == s,
    decreases s.len(),
{
    if s.len() == 0 {
        assert(tweets_except(s, id) =~= s);
    } else {
        let t = s.drop_first();
        assert(s[0].id != id);
        assert(!has_tweet_id(t, id)) by {
            if has_tweet_id(t, id) {
                let k = choose|k: int| 0 <= k < t.len() && t[k].id == id;
                assert(s[k + 1].id == id);
            }
        }
        lemma_tweets_except_absent(t, id);
        assert(tweets_except(s, id) =~= s);
    }
}

/// Removing a like identifier that no row holds leaves the table as it was.
pub proof fn lemma_likes_except_absent(s: Seq<LikeDB>, id: u128)
    requires
        !has_like_id(s, id),
    ensures
        likes_except(s, id) == s,
    decreases s.len(),
{
    if s.len() == 0 {
        assert(likes_except(s, id) =~= s);
    } else {
        let t = s.drop_first();
        assert(s[0].id != id);
        assert(!has_like_id(t, id)) by {
            if has_like_id(t, id) {
                let k = choose|k: int| 0 <= k < t.len() && t[k].id == id;
                assert(s[k + 1].id == id);
            }
        }
        lemma_likes_except_absent(t, id);
        assert(likes_except(s, id) =~= s);
    }
}

proof fn lemma_tweets_except_single(s: Seq<TweetDB>, id: u128, g: int)
    requires
        tweet_ids_unique(s),
        0 <= g < s.len(),
        s[g].id == id,
    ensures
        tweets_except(s, id) == s.remove(g),
    decreases s.len(),
{
    let t = s.drop_first();
    s.remove_ensures(g);
    if g == 0 {
        assert(!has_tweet_id(t, id)) by {
            if has_tweet_id(t, id) {
                let k = choose|k: int| 0 <= k < t.len() && t[k].id == id;
                assert(s[k + 1].id == s[0].id);
            }
        }
        lemma_tweets_except_absent(t, id);
        assert(tweets_except(s, id) =~= s.remove(0));
    } else {
        assert(s[0].id != id);
        assert(tweet_ids_unique(t)) by {
            assert(forall|i: int, j: int|
                0 <= i < j < t.len() ==> t[i] == s[i + 1] && t[j] == s[j + 1]);
        }
        assert(t[g - 1] == s[g]);
        lemma_tweets_except_single(t, id, g - 1);
        t.remove_ensures(g - 1);
        assert(tweets_except(s, id) =~= s.remove(g));
    }
}

proof fn lemma_likes_except_single(s: Seq<LikeDB>, id: u128, g: int)
    requires
        like_ids_unique(s),
        0 <= g < s.len(),
        s[g].id == id,
    ensures
        likes_except(s, id) == s.remove(g),
    decreases s.len(),
{
    let t = s.drop_first();
    s.remove_ensures(g);
    if g == 0 {
        assert(!has_like_id(t, id)) by {
            if has_like_id(t, id) {
                let k = choose|k: int| 0 <= k < t.len() && t[k].id == id;
                assert(s[k + 1].id == s[0].id);
            }
        }
        lemma_likes_except_absent(t, id);
        assert(likes_except(s, id) =~= s.remove(0));
    } else {
        assert(s[0].id != id);
        assert(like_ids_unique(t)) by {
            assert(forall|i: int, j: int|
                0 <= i < j < t.len() ==> t[i] == s[i + 1] && t[j] == s[j + 1]);
        }
        assert(t[g - 1] == s[g]);
        lemma_likes_except_single(t, id, g - 1);
        t.remove_ensures(g - 1);
        assert(likes_except(s, id) =~= s.remove(g));
    }
}

/// Delete by primary key: afterwards the table holds exactly the rows whose
/// tweet identifier differs, in their old order.
pub fn remove_tweet_rows(store: &mut Store, id: u128)
    requires
        old(store).wf(),
    ensures
        final(store).wf(),
        final(store).likes@ == old(store).likes@,
        final(store).tweets@ == tweets_except(old(store).tweets@, id),
{
    let ghost s = old(store).tweets@;
    let n: usize = store.tweets.len();
    let mut k: usize = 0;
    while k < n
        invariant
            *store == *old(store),
            store.wf(),
            s == store.tweets@,
            n == s.len(),
            k <= n,
            forall|j: int| 0 <= j < k ==> s[j].id != id,
        decreases n - k,
    {
        if store.tweets[k].id == id {
            proof {
                lemma_tweets_except_single(s, id, k as int);
                s.remove_ensures(k as int);
            }
            store.tweets.remove(k);
            proof {
                let s2 = store.tweets@;
                assert forall|i: int, j: int|
                    0 <= i < j < s2.len() implies s2[i].created_at >= s2[j].created_at && s2[i].id
                    != s2[j].id by {
                    if i < k && j >= k {
                        assert(s2[i] == s[i] && s2[j] == s[j + 1]);
                    }
                }
            }
            return ;
        }
        k += 1;
    }
    proof {
        assert(!has_tweet_id(s, id));
        lemma_tweets_except_absent(s, id);
    }
}

/// Delete by primary key: afterwards the table holds exactly the rows whose
/// like identifier differs, in their old order.
pub fn remove_like_rows(store: &mut Store, id: u128)
    requires
        old(store).wf(),
    ensures
        final(store).wf(),
        final(store).tweets@ == old(store).tweets@,
        final(store).likes@ == likes_except(old(store).likes@, id),
{
    let ghost s = old(store).likes@;
    let n: usize = store.likes.len();
    let mut k: usize = 0;
    while k < n
        invariant
            *store == *old(store),
            store.wf(),
            s == store.likes@,
            n == s.len(),
            k <= n,
            forall|j: int| 0 <= j < k ==> s[j].id != id,
        decreases n - k,
    {
        if store.likes[k].id == id {
            proof {
                lemma_likes_except_single(s, id, k as int);
                s.remove_ensures(k as int);
            }
            store.likes.remove(k);
            proof {
                let s2 = store.likes@;
                assert forall|i: int, j: int|
                    0 <= i < j < s2.len() implies s2[i].created_at >= s2[j].created_at && s2[i].id
                    != s2[j].id by {
                    if i < k && j >= k {
                        assert(s2[i] == s[i] && s2[j] == s[j + 1]);
                    }
                }
            }
            return ;
        }
        k += 1;
    }
    proof {
        assert(!has_like_id(s, id));
        lemma_likes_except_absent(s, id);
    }
}

} // verus!
