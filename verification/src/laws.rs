//! Laws of the dispatcher and engine, stated over the specification-level
//! dispatch functions and proved once for all stores, keys, values and clock
//! readings.

use crate::dispatch::{get_verb, ok_status, px_opt, set_verb, spec_dispatch_reply,
    spec_dispatch_store, upper};
use crate::reply::ReplyModel;
use crate::store::{EntryModel, StoreModel};
use vstd::prelude::*;

verus! {

/// Uppercasing leaves a string without lowercase letters unchanged.
proof fn lemma_upper_fixed(s: Seq<u8>)
    requires
        forall|i: int| 0 <= i < s.len() ==> !(97 <= #[trigger] s[i] <= 122),
    ensures
        upper(s) == s,
{
    assert(upper(s) =~= s);
}

/// A `SET` of `key` to `value` with no expiry option, followed by a `GET` of
/// the same key at any later (or earlier) clock reading, replies with exactly
/// `value` as a bulk string and leaves the store as the `SET` left it.
pub proof fn lemma_set_then_get(m: StoreModel, key: Seq<u8>, value: Seq<u8>, now1: u64, now2: u64)
    ensures
        ({
            let m1 = spec_dispatch_store(seq![set_verb(), key, value], m, now1);
            &&& spec_dispatch_reply(seq![get_verb(), key], m1, now2) == Option::Some(
                ReplyModel::Bulk(value),
            )
            &&& spec_dispatch_store(seq![get_verb(), key], m1, now2) == m1
        }),
{
    lemma_upper_fixed(set_verb());
    lemma_upper_fixed(get_verb());
    let m1 = spec_dispatch_store(seq![set_verb(), key, value], m, now1);
    assert(m1 == m.insert(key, EntryModel { value, expiry: Option::None }));
}

/// Lazy expiry is enforced and idempotent: once an entry's expiry has
/// arrived, a `GET` replies null and removes the entry, and a second `GET`
/// still replies null and changes nothing.
pub proof fn lemma_expired_get_idempotent(m: StoreModel, key: Seq<u8>, t: u64, now: u64)
    requires
        m.dom().contains(key),
        m[key].expiry == Option::<u64>::Some(t),
        t <= now,
    ensures
        ({
            let m1 = spec_dispatch_store(seq![get_verb(), key], m, now);
            &&& spec_dispatch_reply(seq![get_verb(), key], m, now) == Option::Some(ReplyModel::Null)
            &&& m1 == m.remove(key)
            &&& spec_dispatch_reply(seq![get_verb(), key], m1, now) == Option::Some(
                ReplyModel::Null,
            )
            &&& spec_dispatch_store(seq![get_verb(), key], m1, now) == m1
        }),
{
    lemma_upper_fixed(get_verb());
}

/// Overwriting without `PX` clears any prior expiry: after `SET key value1
/// PX ms` and then a plain `SET key value2`, the entry has no expiry, and a
/// `GET` at any clock reading whatsoever replies with `value2`.
pub proof fn lemma_overwrite_clears_expiry(
    m: StoreModel,
    key: Seq<u8>,
    value1: Seq<u8>,
    ms: Seq<u8>,
    value2: Seq<u8>,
    now0: u64,
    now1: u64,
    now2: u64,
)
    ensures
        ({
            let m1 = spec_dispatch_store(seq![set_verb(), key, value1, px_opt(), ms], m, now0);
            let m2 = spec_dispatch_store(seq![set_verb(), key, value2], m1, now1);
            &&& m2.dom().contains(key)
            &&& m2[key] == EntryModel { value: value2, expiry: Option::<u64>::None }
            &&& spec_dispatch_reply(seq![get_verb(), key], m2, now2) == Option::Some(
                ReplyModel::Bulk(value2),
            )
            &&& spec_dispatch_store(seq![get_verb(), key], m2, now2) == m2
        }),
{
    lemma_upper_fixed(set_verb());
    lemma_upper_fixed(get_verb());
}

/// Writes to distinct keys are independent: two `SET`s to different keys
/// commute, and a `GET` of each key afterwards sees exactly the value
/// written to it.  Under serialized dispatch this is what rules out lost
/// updates between concurrent writers of distinct keys.
pub proof fn lemma_independent_writes(
    m: StoreModel,
    key1: Seq<u8>,
    value1: Seq<u8>,
    key2: Seq<u8>,
    value2: Seq<u8>,
    now0: u64,
    now1: u64,
    now2: u64,
)
    requires
        key1 != key2,
    ensures
        ({
            let m2 = spec_dispatch_store(
                seq![set_verb(), key2, value2],
                spec_dispatch_store(seq![set_verb(), key1, value1], m, now0),
                now1,
            );
            let m2r = spec_dispatch_store(
                seq![set_verb(), key1, value1],
                spec_dispatch_store(seq![set_verb(), key2, value2], m, now1),
                now0,
            );
            &&& m2 == m2r
            &&& spec_dispatch_reply(seq![get_verb(), key1], m2, now2) == Option::Some(
                ReplyModel::Bulk(value1),
            )
            &&& spec_dispatch_reply(seq![get_verb(), key2], m2, now2) == Option::Some(
                ReplyModel::Bulk(value2),
            )
        }),
{
    lemma_upper_fixed(set_verb());
    lemma_upper_fixed(get_verb());
    let e1 = EntryModel { value: value1, expiry: Option::<u64>::None };
    let e2 = EntryModel { value: value2, expiry: Option::<u64>::None };
    assert(m.insert(key1, e1).insert(key2, e2) =~= m.insert(key2, e2).insert(key1, e1));
}

/// A `GET` of a key whose entry carries no expiry replies with the stored
/// value and leaves the store untouched.
proof fn lemma_get_live(m: StoreModel, key: Seq<u8>, now: u64)
    requires
        m.dom().contains(key),
        m[key].expiry is None,
    ensures
        spec_dispatch_reply(seq![get_verb(), key], m, now) == Option::Some(
            ReplyModel::Bulk(m[key].value),
        ),
        spec_dispatch_store(seq![get_verb(), key], m, now) == m,
{
    lemma_upper_fixed(get_verb());
}

/// A plain `SET` always replies status `OK`, whatever the store holds.
pub proof fn lemma_set_replies_ok(m: StoreModel, key: Seq<u8>, value: Seq<u8>, now: u64)
    ensures
        spec_dispatch_reply(seq![set_verb(), key, value], m, now) == Option::Some(
            ReplyModel::Status(ok_status()),
        ),
{
    lemma_upper_fixed(set_verb());
}

/// The store after a batch of plain `SET`s (no expiry option) dispatched in
/// order: `writes[j]` is a key-value pair dispatched at clock reading
/// `nows[j]`.
pub open spec fn apply_sets(
    m: StoreModel,
    writes: Seq<(Seq<u8>, Seq<u8>)>,
    nows: Seq<u64>,
) -> StoreModel
    decreases writes.len(),
{
    if writes.len() == 0 {
        m
    } else {
        spec_dispatch_store(
            seq![set_verb(), writes.last().0, writes.last().1],
            apply_sets(m, writes.drop_last(), nows.drop_last()),
            nows.last(),
        )
    }
}

/// Any number of writers to pairwise-distinct keys lose nothing: after a
/// batch of plain `SET`s to distinct keys, every key holds exactly the value
/// written to it, with no expiry, and a `GET` of each key at any later clock
/// reading replies with that value and changes nothing.  Each command's
/// dispatch runs as one atomic critical section, so a concurrent execution
/// of the batch is some serialization of it; with distinct keys all
/// serializations agree (`lemma_independent_writes`), and this law says
/// every serialization observes each written value exactly once.
pub proof fn lemma_distinct_batch_writes(
    m: StoreModel,
    writes: Seq<(Seq<u8>, Seq<u8>)>,
    nows: Seq<u64>,
    i: int,
    now2: u64,
)
    requires
        nows.len() == writes.len(),
        forall|a: int, b: int| 0 <= a < b < writes.len() ==> writes[a].0 != writes[b].0,
        0 <= i < writes.len(),
    ensures
        ({
            let mn = apply_sets(m, writes, nows);
            &&& mn.dom().contains(writes[i].0)
            &&& mn[writes[i].0] == EntryModel { value: writes[i].1, expiry: Option::<u64>::None }
            &&& spec_dispatch_reply(seq![get_verb(), writes[i].0], mn, now2) == Option::Some(
                ReplyModel::Bulk(writes[i].1),
            )
            &&& spec_dispatch_store(seq![get_verb(), writes[i].0], mn, now2) == mn
        }),
    decreases writes.len(),
{
    lemma_upper_fixed(set_verb());
    let mn = apply_sets(m, writes, nows);
    let prev = apply_sets(m, writes.drop_last(), nows.drop_last());
    let last = writes.last();
    assert(mn == prev.insert(last.0, EntryModel { value: last.1, expiry: Option::<u64>::None }));
    if i < writes.len() - 1 {
        assert(forall|a: int, b: int|
            0 <= a < b < writes.drop_last().len() ==> (#[trigger] writes.drop_last()[a]).0 != (
            #[trigger] writes.drop_last()[b]).0);
        lemma_distinct_batch_writes(m, writes.drop_last(), nows.drop_last(), i, now2);
        assert(writes.drop_last()[i] == writes[i]);
        assert(last.0 != writes[i].0);
    }
    lemma_get_live(mn, writes[i].0, now2);
}

} // verus!
