use vstd::prelude::*;

use crate::strutil::{
    contains_seq, contains_sub, lemma_lex_le_total, lemma_lex_le_trans, lex_le, str_le,
};
use crate::types::{mview, MessageView, ReceivedMessage};

verus! {

broadcast use vstd::seq_lib::group_to_multiset_ensures;

/// Ascending by timestamp: the oldest first.
pub open spec fn sorted_by_ts(s: Seq<MessageView>) -> bool {
    forall|i: int, j: int| 0 <= i < j < s.len() ==> lex_le(s[i].timestamp, s[j].timestamp)
}

/// Descending by timestamp: the newest first.
pub open spec fn sorted_by_ts_desc(s: Seq<MessageView>) -> bool {
    forall|i: int, j: int| 0 <= i < j < s.len() ==> lex_le(s[j].timestamp, s[i].timestamp)
}

/// The timestamp lies between the bounds, both inclusive.
pub open spec fn in_range(m: MessageView, start: Seq<char>, end: Seq<char>) -> bool {
    lex_le(start, m.timestamp) && lex_le(m.timestamp, end)
}

/// The query occurs in one of the message's text fields.
pub open spec fn matches_query(m: MessageView, q: Seq<char>) -> bool {
    ||| contains_seq(m.from, q)
    ||| contains_seq(m.from_name, q)
    ||| contains_seq(m.message, q)
    ||| contains_seq(m.message_type, q)
    ||| contains_seq(m.timestamp, q)
}

/// How many recent messages the in-memory working set keeps.
pub const WORKING_SET_CAP: usize = 100;

/// One row of the durable log: the message under its assigned id.
pub struct StoredRow {
    pub id: u64,
    pub message: ReceivedMessage,
}

/// The message store: an append-only log in arrival order, never
/// truncated, and a working set holding the most recent messages up to
/// the cap, oldest evicted first. Ids are assigned by a counter that
/// only grows.
pub struct MessageStore {
    pub rows: Vec<StoredRow>,
    pub working: Vec<ReceivedMessage>,
    pub next_id: u64,
}

impl MessageStore {
    /// The whole log, as message values, in arrival order.
    pub open spec fn log_view(self) -> Seq<MessageView> {
        self.rows@.map_values(|r: StoredRow| mview(r.message))
    }

    /// The working set, as message values, in arrival order.
    pub open spec fn working_view(self) -> Seq<MessageView> {
        self.working@.map_values(|m: ReceivedMessage| mview(m))
    }

    /// The working set is exactly the most recent stretch of the log,
    /// at most the cap long; ids are consecutive and end just before
    /// `next_id`.
    pub open spec fn wf(self) -> bool {
        &&& self.working@.len() == if self.rows@.len() < WORKING_SET_CAP as int {
            self.rows@.len() as int
        } else {
            WORKING_SET_CAP as int
        }
        &&& self.working_view() == self.log_view().skip(
            self.rows@.len() - self.working@.len(),
        )
        &&& self.next_id >= self.rows@.len()
        &&& forall|i: int|
            0 <= i < self.rows@.len() ==> (#[trigger] self.rows@[i]).id == self.next_id
                - self.rows@.len() + i
    }

    /// An empty store; ids start at one.
    pub fn new() -> (r: MessageStore)
        ensures
            r.wf(),
            r.log_view().len() == 0,
            r.next_id == 1,
    {
        let r = MessageStore { rows: Vec::new(), working: Vec::new(), next_id: 1 };
        proof {
            assert(r.working_view() =~= r.log_view().skip(0));
        }
        r
    }

    /// The number of messages the log holds.
    pub fn get_message_count(&self) -> (r: usize)
        ensures
            r == self.log_view().len(),
    {
        self.rows.len()
    }

    /// Appends a message: the log grows by it at the end, it enters the
    /// working set, and the oldest working-set entry is evicted when
    /// the cap is exceeded. Returns the id the row was stored under.
    pub fn save_message(&mut self, message: ReceivedMessage) -> (id: u64)
        requires
            old(self).wf(),
            old(self).next_id < u64::MAX,
        ensures
            final(self).wf(),
            id == old(self).next_id,
            final(self).next_id == old(self).next_id + 1,
            final(self).log_view() == old(self).log_view().push(mview(message)),
            old(self).working@.len() < WORKING_SET_CAP ==> final(self).working_view() == old(
                self,
            ).working_view().push(mview(message)),
            old(self).working@.len() >= WORKING_SET_CAP ==> final(self).working_view() == old(
                self,
            ).working_view().skip(1).push(mview(message)),
    {
        let id = self.next_id;
        self.working.push(message.duplicate());
        let ghost pushed_working = self.working@;
        if self.working.len() > WORKING_SET_CAP {
            self.working.remove(0);
            proof {
                assert(self.working@ =~= pushed_working.skip(1));
            }
        }
        self.rows.push(StoredRow { id, message });
        self.next_id = id + 1;
        proof {
            let m = self.rows@.last().message;
            assert(self.log_view() =~= old(self).log_view().push(mview(m)));
            if old(self).working@.len() < WORKING_SET_CAP {
                assert(self.working_view() =~= old(self).working_view().push(mview(m)));
            } else {
                assert(pushed_working.map_values(|x: ReceivedMessage| mview(x)) =~= old(
                    self,
                ).working_view().push(mview(m)));
                assert(self.working_view() =~= old(self).working_view().skip(1).push(mview(m)));
            }
            let d = self.rows@.len() - self.working@.len();
            assert(self.working_view() =~= self.log_view().skip(d)) by {
                let d0 = old(self).rows@.len() - old(self).working@.len();
                assert(old(self).working_view() == old(self).log_view().skip(d0));
                assert forall|k: int| 0 <= k < self.working_view().len() implies
                    self.working_view()[k] == self.log_view().skip(d)[k] by {
                    assert(self.log_view()[d + k] == if d + k < old(self).log_view().len() {
                        old(self).log_view()[d + k]
                    } else {
                        mview(m)
                    });
                    if k < self.working_view().len() - 1 {
                        if old(self).working@.len() < WORKING_SET_CAP {
                            assert(self.working_view()[k] == old(self).working_view()[k]);
                            assert(old(self).working_view()[k] == old(self).log_view().skip(d0)[k]);
                        } else {
                            assert(self.working_view()[k] == old(self).working_view()[k + 1]);
                            assert(old(self).working_view()[k + 1] == old(self).log_view().skip(
                                d0,
                            )[k + 1]);
                        }
                    }
                }
            }
        }
        id
    }

    /// The most recent messages, up to `limit`, in arrival order: the
    /// newest is last.
    pub fn get_recent_messages(&self, limit: usize) -> (r: Vec<ReceivedMessage>)
        ensures
            r@.len() == if limit as int <= self.log_view().len() {
                limit as int
            } else {
                self.log_view().len() as int
            },
            r@.map_values(|m: ReceivedMessage| mview(m)) == self.log_view().skip(
                self.log_view().len() - r@.len(),
            ),
    {
        let n = self.rows.len();
        let take = if limit <= n {
            limit
        } else {
            n
        };
        let start = n - take;
        let mut r: Vec<ReceivedMessage> = Vec::new();
        let mut i: usize = start;
        while i < n
            invariant
                start <= i <= n,
                n == self.rows@.len(),
                start == n - take,
                r@.len() == i - start,
                forall|k: int|
                    0 <= k < r@.len() ==> mview(#[trigger] r@[k]) == self.log_view()[start + k],
            decreases n - i,
        {
            r.push(self.rows[i].message.duplicate());
            i += 1;
        }
        proof {
            assert(r@.map_values(|m: ReceivedMessage| mview(m)) =~= self.log_view().skip(
                start as int,
            ));
        }
        r
    }

    /// Rebuilds a store from the rows of a durable log, in their stored
    /// order: the log holds them all, the working set the most recent
    /// up to the cap.
    pub fn from_log(messages: Vec<ReceivedMessage>) -> (r: MessageStore)
        requires
            messages@.len() < u64::MAX,
        ensures
            r.wf(),
            r.log_view() == messages@.map_values(|m: ReceivedMessage| mview(m)),
            r.next_id == messages@.len() + 1,
    {
        let mut store = MessageStore::new();
        let n = messages.len();
        let mut i: usize = 0;
        proof {
            assert(store.log_view() =~= messages@.map_values(|m: ReceivedMessage| mview(m))
                .subrange(0, 0));
        }
        while i < n
            invariant
                i <= n,
                n == messages@.len(),
                n < u64::MAX,
                store.wf(),
                store.next_id == i + 1,
                store.log_view() == messages@.map_values(|m: ReceivedMessage| mview(m)).subrange(
                    0,
                    i as int,
                ),
            decreases n - i,
        {
            store.save_message(messages[i].duplicate());
            i += 1;
            proof {
                assert(store.log_view() =~= messages@.map_values(|m: ReceivedMessage| mview(m))
                    .subrange(0, i as int));
            }
        }
        proof {
            assert(store.log_view() =~= messages@.map_values(|m: ReceivedMessage| mview(m)));
        }
        store
    }
}

/// The messages of the log whose timestamps lie in the range.
pub open spec fn range_filter(log: Seq<MessageView>, start: Seq<char>, end: Seq<char>) -> Seq<
    MessageView,
> {
    log.filter(|m: MessageView| in_range(m, start, end))
}

/// The messages of the log that the query occurs in.
pub open spec fn query_filter(log: Seq<MessageView>, q: Seq<char>) -> Seq<MessageView> {
    log.filter(|m: MessageView| matches_query(m, q))
}

/// Sorts messages by timestamp, oldest first, keeping exactly the given
/// values.
fn sort_by_timestamp(v: Vec<ReceivedMessage>) -> (r: Vec<ReceivedMessage>)
    ensures
        sorted_by_ts(r@.map_values(|m: ReceivedMessage| mview(m))),
        r@.map_values(|m: ReceivedMessage| mview(m)).to_multiset() == v@.map_values(
            |m: ReceivedMessage| mview(m),
        ).to_multiset(),
{
    let ghost vv = v@.map_values(|m: ReceivedMessage| mview(m));
    let mut src = v;
    let mut out: Vec<ReceivedMessage> = Vec::new();
    proof {
        assert(out@.map_values(|m: ReceivedMessage| mview(m)) =~= Seq::<MessageView>::empty());
        assert(out@.map_values(|m: ReceivedMessage| mview(m)).to_multiset().add(
            src@.map_values(|m: ReceivedMessage| mview(m)).to_multiset(),
        ) =~= vv.to_multiset());
    }
    while src.len() > 0
        invariant
            sorted_by_ts(out@.map_values(|m: ReceivedMessage| mview(m))),
            out@.map_values(|m: ReceivedMessage| mview(m)).to_multiset().add(
                src@.map_values(|m: ReceivedMessage| mview(m)).to_multiset(),
            ) == vv.to_multiset(),
            forall|i: int, j: int|
                0 <= i < out@.len() && 0 <= j < src@.len() ==> lex_le(
                    mview(#[trigger] out@[i]).timestamp,
                    mview(#[trigger] src@[j]).timestamp,
                ),
        decreases src@.len(),
    {
        let mut min: usize = 0;
        let mut k: usize = 1;
        proof {
            lemma_lex_le_total(mview(src@[0]).timestamp, mview(src@[0]).timestamp);
        }
        while k < src.len()
            invariant
                src@.len() > 0,
                (min as int) < k,
                k <= src@.len(),
                forall|j: int|
                    0 <= j < k ==> lex_le(
                        mview(src@[min as int]).timestamp,
                        mview(#[trigger] src@[j]).timestamp,
                    ),
            decreases src@.len() - k,
        {
            if str_le(src[k].timestamp.as_str(), src[min].timestamp.as_str()) {
                proof {
                    lemma_lex_le_total(
                        mview(src@[k as int]).timestamp,
                        mview(src@[k as int]).timestamp,
                    );
                    assert forall|j: int| 0 <= j < k + 1 implies lex_le(
                        mview(src@[k as int]).timestamp,
                        mview(#[trigger] src@[j]).timestamp,
                    ) by {
                        if j < k {
                            lemma_lex_le_trans(
                                mview(src@[k as int]).timestamp,
                                mview(src@[min as int]).timestamp,
                                mview(src@[j]).timestamp,
                            );
                        }
                    }
                }
                min = k;
            } else {
                proof {
                    lemma_lex_le_total(
                        mview(src@[k as int]).timestamp,
                        mview(src@[min as int]).timestamp,
                    );
                }
            }
            k += 1;
        }
        let ghost src_prev = src@;
        let ghost out_prev = out@;
        let m = src.remove(min);
        out.push(m);
        proof {
            let f = |m: ReceivedMessage| mview(m);
            let x = mview(src_prev[min as int]);
            assert(src@.map_values(f) =~= src_prev.map_values(f).remove(min as int));
            assert(out@.map_values(f) =~= out_prev.map_values(f).push(x));
            assert(src_prev.map_values(f)[min as int] == x);
            assert(src_prev.map_values(f).contains(x));
            assert(src_prev.map_values(f).to_multiset().count(x) > 0);
            assert(out@.map_values(f).to_multiset().add(src@.map_values(f).to_multiset())
                =~= out_prev.map_values(f).to_multiset().add(
                src_prev.map_values(f).to_multiset(),
            ));
            let outv_prev = out_prev.map_values(f);
            assert forall|i: int, j: int|
                0 <= i < j < out@.map_values(f).len() implies lex_le(
                out@.map_values(f)[i].timestamp,
                out@.map_values(f)[j].timestamp,
            ) by {
                if j < out_prev.len() {
                    assert(outv_prev[i] == mview(out_prev[i]));
                    assert(outv_prev[j] == mview(out_prev[j]));
                    assert(lex_le(outv_prev[i].timestamp, outv_prev[j].timestamp));
                } else if i < out_prev.len() {
                    assert(lex_le(mview(out_prev[i]).timestamp, mview(src_prev[min as int]).timestamp));
                }
            }
            assert forall|i: int, j: int|
                0 <= i < out@.len() && 0 <= j < src@.len() implies lex_le(
                mview(#[trigger] out@[i]).timestamp,
                mview(#[trigger] src@[j]).timestamp,
            ) by {
                let j0 = if j < min as int {
                    j
                } else {
                    j + 1
                };
                assert(src@[j] == src_prev[j0]);
                if i < out_prev.len() {
                    assert(lex_le(mview(out_prev[i]).timestamp, mview(src_prev[j0]).timestamp));
                } else {
                    assert(lex_le(x.timestamp, mview(src_prev[j0]).timestamp));
                }
            }
        }
    }
    proof {
        assert(src@.map_values(|m: ReceivedMessage| mview(m)) =~= Seq::<MessageView>::empty());
        assert(out@.map_values(|m: ReceivedMessage| mview(m)).to_multiset().add(
            Seq::<MessageView>::empty().to_multiset(),
        ) =~= out@.map_values(|m: ReceivedMessage| mview(m)).to_multiset());
    }
    out
}

/// Reverses the order of the messages.
fn reverse_messages(v: Vec<ReceivedMessage>) -> (r: Vec<ReceivedMessage>)
    ensures
        r@.map_values(|m: ReceivedMessage| mview(m)) == v@.map_values(
            |m: ReceivedMessage| mview(m),
        ).reverse(),
{
    let n = v.len();
    let mut r: Vec<ReceivedMessage> = Vec::new();
    let mut i: usize = 0;
    while i < n
        invariant
            n == v@.len(),
            i <= n,
            r@.len() == i,
            forall|k: int| 0 <= k < i ==> mview(#[trigger] r@[k]) == mview(v@[n - 1 - k]),
        decreases n - i,
    {
        r.push(v[n - 1 - i].duplicate());
        i += 1;
    }
    proof {
        assert(r@.map_values(|m: ReceivedMessage| mview(m)) =~= v@.map_values(
            |m: ReceivedMessage| mview(m),
        ).reverse());
    }
    r
}

/// The first `take` messages, as copies.
fn take_prefix(v: &Vec<ReceivedMessage>, take: usize) -> (r: Vec<ReceivedMessage>)
    requires
        take <= v@.len(),
    ensures
        r@.len() == take,
        r@.map_values(|m: ReceivedMessage| mview(m)) == v@.map_values(
            |m: ReceivedMessage| mview(m),
        ).subrange(0, take as int),
{
    let mut r: Vec<ReceivedMessage> = Vec::new();
    let mut i: usize = 0;
    while i < take
        invariant
            take <= v@.len(),
            i <= take,
            r@.len() == i,
            forall|k: int| 0 <= k < i ==> mview(#[trigger] r@[k]) == mview(v@[k]),
        decreases take - i,
    {
        r.push(v[i].duplicate());
        i += 1;
    }
    proof {
        assert(r@.map_values(|m: ReceivedMessage| mview(m)) =~= v@.map_values(
            |m: ReceivedMessage| mview(m),
        ).subrange(0, take as int));
    }
    r
}

impl MessageStore {
    /// The log's messages whose timestamps lie in the inclusive range,
    /// as copies, in arrival order.
    fn collect_range(&self, start_date: &str, end_date: &str) -> (r: Vec<ReceivedMessage>)
        ensures
            r@.map_values(|m: ReceivedMessage| mview(m)) == range_filter(
                self.log_view(),
                start_date@,
                end_date@,
            ),
    {
        let mut r: Vec<ReceivedMessage> = Vec::new();
        let mut i: usize = 0;
        proof {
            assert(self.log_view().subrange(0, 0) =~= Seq::<MessageView>::empty());
            reveal_with_fuel(Seq::<MessageView>::filter, 1);
            assert(r@.map_values(|m: ReceivedMessage| mview(m)) =~= range_filter(
                self.log_view().subrange(0, 0),
                start_date@,
                end_date@,
            ));
        }
        while i < self.rows.len()
            invariant
                i <= self.rows@.len(),
                r@.map_values(|m: ReceivedMessage| mview(m)) == range_filter(
                    self.log_view().subrange(0, i as int),
                    start_date@,
                    end_date@,
                ),
            decreases self.rows@.len() - i,
        {
            let ghost pre = self.log_view().subrange(0, i as int);
            let ghost post = self.log_view().subrange(0, i + 1);
            let row = &self.rows[i];
            let ok_lo = str_le(start_date, row.message.timestamp.as_str());
            let ok_hi = str_le(row.message.timestamp.as_str(), end_date);
            if ok_lo && ok_hi {
                r.push(row.message.duplicate());
            }
            proof {
                reveal_with_fuel(Seq::<MessageView>::filter, 2);
                assert(post.drop_last() =~= pre);
                assert(post.last() == self.log_view()[i as int]);
                assert(range_filter(post, start_date@, end_date@) == if in_range(
                    post.last(),
                    start_date@,
                    end_date@,
                ) {
                    range_filter(pre, start_date@, end_date@).push(post.last())
                } else {
                    range_filter(pre, start_date@, end_date@)
                });
                assert(r@.map_values(|m: ReceivedMessage| mview(m)) =~= range_filter(
                    post,
                    start_date@,
                    end_date@,
                ));
            }
            i += 1;
        }
        proof {
            assert(self.log_view().subrange(0, self.rows@.len() as int) =~= self.log_view());
        }
        r
    }

    /// The log's messages the query occurs in, as copies, in arrival
    /// order.
    fn collect_matches(&self, query: &str) -> (r: Vec<ReceivedMessage>)
        ensures
            r@.map_values(|m: ReceivedMessage| mview(m)) == query_filter(self.log_view(), query@),
    {
        let mut r: Vec<ReceivedMessage> = Vec::new();
        let mut i: usize = 0;
        proof {
            assert(self.log_view().subrange(0, 0) =~= Seq::<MessageView>::empty());
            reveal_with_fuel(Seq::<MessageView>::filter, 1);
            assert(r@.map_values(|m: ReceivedMessage| mview(m)) =~= query_filter(
                self.log_view().subrange(0, 0),
                query@,
            ));
        }
        while i < self.rows.len()
            invariant
                i <= self.rows@.len(),
                r@.map_values(|m: ReceivedMessage| mview(m)) == query_filter(
                    self.log_view().subrange(0, i as int),
                    query@,
                ),
            decreases self.rows@.len() - i,
        {
            let ghost pre = self.log_view().subrange(0, i as int);
            let ghost post = self.log_view().subrange(0, i + 1);
            let row = &self.rows[i];
            let hit = contains_sub(row.message.from.as_str(), query) || contains_sub(
                row.message.from_name.as_str(),
                query,
            ) || contains_sub(row.message.message.as_str(), query) || contains_sub(
                row.message.message_type.as_str(),
                query,
            ) || contains_sub(row.message.timestamp.as_str(), query);
            if hit {
                r.push(row.message.duplicate());
            }
            proof {
                reveal_with_fuel(Seq::<MessageView>::filter, 2);
                assert(post.drop_last() =~= pre);
                assert(post.last() == self.log_view()[i as int]);
                assert(query_filter(post, query@) == if matches_query(post.last(), query@) {
                    query_filter(pre, query@).push(post.last())
                } else {
                    query_filter(pre, query@)
                });
                assert(r@.map_values(|m: ReceivedMessage| mview(m)) =~= query_filter(
                    post,
                    query@,
                ));
            }
            i += 1;
        }
        proof {
            assert(self.log_view().subrange(0, self.rows@.len() as int) =~= self.log_view());
        }
        r
    }

    /// The messages whose timestamps lie between the bounds, both
    /// inclusive, oldest first, up to `limit` of them: a prefix of the
    /// matching messages in timestamp order.
    pub fn get_messages_by_date_range(
        &self,
        start_date: &str,
        end_date: &str,
        limit: Option<usize>,
    ) -> (r: Vec<ReceivedMessage>)
        ensures
            sorted_by_ts(r@.map_values(|m: ReceivedMessage| mview(m))),
            r@.len() == {
                let full = range_filter(self.log_view(), start_date@, end_date@).len() as int;
                match limit {
                    Some(l) => if l as int <= full {
                        l as int
                    } else {
                        full
                    },
                    None => full,
                }
            },
            exists|full: Seq<MessageView>|
                #![auto]
                sorted_by_ts(full) && full.to_multiset() == range_filter(
                    self.log_view(),
                    start_date@,
                    end_date@,
                ).to_multiset() && r@.map_values(|m: ReceivedMessage| mview(m)) == full.subrange(
                    0,
                    r@.len() as int,
                ),
    {
        let matched = self.collect_range(start_date, end_date);
        let sorted = sort_by_timestamp(matched);
        let ghost full = sorted@.map_values(|m: ReceivedMessage| mview(m));
        proof {
            assert(full.len() == range_filter(self.log_view(), start_date@, end_date@).len()) by {
                assert(full.to_multiset().len() == full.len());
                assert(range_filter(self.log_view(), start_date@, end_date@).to_multiset().len()
                    == range_filter(self.log_view(), start_date@, end_date@).len());
            }
        }
        let r = match limit {
            Some(l) => {
                if l <= sorted.len() {
                    take_prefix(&sorted, l)
                } else {
                    take_prefix(&sorted, sorted.len())
                }
            },
            None => take_prefix(&sorted, sorted.len()),
        };
        proof {
            assert(sorted_by_ts(r@.map_values(|m: ReceivedMessage| mview(m)))) by {
                let rv = r@.map_values(|m: ReceivedMessage| mview(m));
                assert forall|i: int, j: int| 0 <= i < j < rv.len() implies lex_le(
                    rv[i].timestamp,
                    rv[j].timestamp,
                ) by {
                    assert(rv[i] == full[i]);
                    assert(rv[j] == full[j]);
                }
            }
        }
        r
    }

    /// The messages the query occurs in — in the sender, sender name,
    /// body, kind or timestamp — newest first, up to `limit` of them: a
    /// prefix of the matching messages in reverse timestamp order.
    pub fn search_messages(&self, query: &str, limit: Option<usize>) -> (r: Vec<ReceivedMessage>)
        ensures
            sorted_by_ts_desc(r@.map_values(|m: ReceivedMessage| mview(m))),
            r@.len() == {
                let full = query_filter(self.log_view(), query@).len() as int;
                match limit {
                    Some(l) => if l as int <= full {
                        l as int
                    } else {
                        full
                    },
                    None => full,
                }
            },
            exists|full: Seq<MessageView>|
                #![auto]
                sorted_by_ts_desc(full) && full.to_multiset() == query_filter(
                    self.log_view(),
                    query@,
                ).to_multiset() && r@.map_values(|m: ReceivedMessage| mview(m)) == full.subrange(
                    0,
                    r@.len() as int,
                ),
    {
        let matched = self.collect_matches(query);
        let sorted = sort_by_timestamp(matched);
        let newest_first = reverse_messages(sorted);
        let ghost asc = sorted@.map_values(|m: ReceivedMessage| mview(m));
        let ghost full = newest_first@.map_values(|m: ReceivedMessage| mview(m));
        proof {
            assert(full =~= asc.reverse());
            asc.lemma_reverse_to_multiset();
            assert(sorted_by_ts_desc(full)) by {
                assert forall|i: int, j: int| 0 <= i < j < full.len() implies lex_le(
                    full[j].timestamp,
                    full[i].timestamp,
                ) by {
                    assert(full[i] == asc[asc.len() - 1 - i]);
                    assert(full[j] == asc[asc.len() - 1 - j]);
                }
            }
            assert(full.len() == query_filter(self.log_view(), query@).len()) by {
                assert(full.to_multiset().len() == full.len());
                assert(query_filter(self.log_view(), query@).to_multiset().len() == query_filter(
                    self.log_view(),
                    query@,
                ).len());
            }
        }
        let r = match limit {
            Some(l) => {
                if l <= newest_first.len() {
                    take_prefix(&newest_first, l)
                } else {
                    take_prefix(&newest_first, newest_first.len())
                }
            },
            None => take_prefix(&newest_first, newest_first.len()),
        };
        proof {
            assert(sorted_by_ts_desc(r@.map_values(|m: ReceivedMessage| mview(m)))) by {
                let rv = r@.map_values(|m: ReceivedMessage| mview(m));
                assert forall|i: int, j: int| 0 <= i < j < rv.len() implies lex_le(
                    rv[j].timestamp,
                    rv[i].timestamp,
                ) by {
                    assert(rv[i] == full[i]);
                    assert(rv[j] == full[j]);
                }
            }
        }
        r
    }

    /// The working set itself: the in-memory mirror of the most recent
    /// messages, for the paths that fall back to memory when durable
    /// storage is unavailable.
    pub fn working_snapshot(&self) -> (r: Vec<ReceivedMessage>)
        ensures
            r@.map_values(|m: ReceivedMessage| mview(m)) == self.working_view(),
    {
        let mut r: Vec<ReceivedMessage> = Vec::new();
        let mut i: usize = 0;
        while i < self.working.len()
            invariant
                i <= self.working@.len(),
                r@.len() == i,
                forall|k: int|
                    0 <= k < r@.len() ==> mview(#[trigger] r@[k]) == mview(self.working@[k]),
            decreases self.working@.len() - i,
        {
            r.push(self.working[i].duplicate());
            i += 1;
        }
        proof {
            assert(r@.map_values(|m: ReceivedMessage| mview(m)) =~= self.working_view());
        }
        r
    }

    /// Structural soundness of the store: the working set is within its
    /// cap and no larger than the log, and the ids are consecutive,
    /// ending just before the next id to be assigned. A well-formed
    /// store always passes.
    pub fn verify_integrity(&self) -> (r: bool)
        ensures
            self.wf() ==> r,
            r ==> self.working@.len() <= WORKING_SET_CAP && self.working@.len()
                <= self.rows@.len() && self.next_id >= self.rows@.len(),
    {
        if self.working.len() > WORKING_SET_CAP || self.working.len() > self.rows.len() {
            return false;
        }
        if self.next_id < self.rows.len() as u64 {
            proof {
                assert(!self.wf());
            }
            return false;
        }
        let n = self.rows.len();
        let mut i: usize = 0;
        while i < n
            invariant
                n == self.rows@.len(),
                i <= n,
                n <= self.next_id,
                forall|j: int|
                    0 <= j < i ==> (#[trigger] self.rows@[j]).id == self.next_id - n + j,
            decreases n - i,
        {
            let expect = self.next_id - (n as u64) + (i as u64);
            if self.rows[i].id != expect {
                proof {
                    assert(!self.wf());
                }
                return false;
            }
            i += 1;
        }
        true
    }
}

/// Appending a message and then asking for the single most recent one
/// yields exactly the appended message: the log grown by `m` ends in
/// `m`, and the one-element recent slice is that end.
pub proof fn lemma_append_then_recent_one(log: Seq<MessageView>, m: MessageView)
    ensures
        log.push(m).skip(log.push(m).len() - 1) =~= seq![m],
{
}

/// After the hundred-and-first append a well-formed store's working set
/// holds exactly the last hundred messages in arrival order, while the
/// log still holds all hundred and one.
pub proof fn lemma_working_set_cap(s: MessageStore)
    requires
        s.wf(),
        s.log_view().len() == 101,
    ensures
        s.working_view().len() == 100,
        s.working_view() =~= s.log_view().skip(1),
{
}

} // verus!
