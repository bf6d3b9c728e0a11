//! The expiry-aware key-value engine.
//!
//! The store maps keys to entries, each entry a verbatim byte value with an
//! optional absolute expiry instant (milliseconds).  An entry whose expiry
//! has arrived is logically deleted: a read never returns it, and removes it
//! lazily.  There is deliberately no background sweep, so an expired key that
//! is never read again stays in memory: a documented trade of memory for
//! simplicity.
//!
//! Internally the store is a vector of entries with pairwise-distinct keys;
//! its contract speaks only of the map it denotes.

use vstd::prelude::*;
use vstd::slice::slice_to_vec;

verus! {

/// What one stored entry denotes: a value and an optional expiry instant.
pub ghost struct EntryModel {
    pub value: Seq<u8>,
    pub expiry: Option<u64>,
}

/// What the whole store denotes.
pub type StoreModel = Map<Seq<u8>, EntryModel>;

/// An entry as held: key, verbatim value, optional absolute expiry.
struct Entry {
    key: Vec<u8>,
    value: Vec<u8>,
    expiry: Option<u64>,
}

spec fn entry_model(e: Entry) -> EntryModel {
    EntryModel { value: e.value@, expiry: e.expiry }
}

spec fn entries_map(s: Seq<Entry>) -> StoreModel
    decreases s.len(),
{
    if s.len() == 0 {
        Map::empty()
    } else {
        entries_map(s.drop_last()).insert(s.last().key@, entry_model(s.last()))
    }
}

spec fn unique_keys(s: Seq<Entry>) -> bool {
    forall|i: int, j: int| 0 <= i < j < s.len() ==> s[i].key@ != s[j].key@
}

/// An entry is dead at `now` when it has an expiry that has arrived.
pub open spec fn entry_expired(e: EntryModel, now: u64) -> bool {
    match e.expiry {
        Option::Some(t) => t <= now,
        Option::None => false,
    }
}

/// What a read of `k` at `now` yields: the stored value, unless the key is
/// absent or its entry is dead.
pub open spec fn live_lookup(m: StoreModel, k: Seq<u8>, now: u64) -> Option<Seq<u8>> {
    if m.dom().contains(k) && !entry_expired(m[k], now) {
        Option::Some(m[k].value)
    } else {
        Option::None
    }
}

/// The store after a read of `k` at `now`: unchanged, except that a dead
/// entry found under `k` is removed.
pub open spec fn after_get(m: StoreModel, k: Seq<u8>, now: u64) -> StoreModel {
    if m.dom().contains(k) && entry_expired(m[k], now) {
        m.remove(k)
    } else {
        m
    }
}

/// The single piece of process-wide mutable state: the key-value store.
pub struct Store {
    entries: Vec<Entry>,
}

proof fn lemma_map_absent(s: Seq<Entry>, k: Seq<u8>)
    requires
        forall|i: int| 0 <= i < s.len() ==> (#[trigger] s[i]).key@ != k,
    ensures
        !entries_map(s).dom().contains(k),
    decreases s.len(),
{
    if s.len() > 0 {
        assert(forall|i: int| 0 <= i < s.drop_last().len() ==> #[trigger] s.drop_last()[i] == s[i]);
        lemma_map_absent(s.drop_last(), k);
    }
}

proof fn lemma_map_present(s: Seq<Entry>, i: int)
    requires
        unique_keys(s),
        0 <= i < s.len(),
    ensures
        entries_map(s).dom().contains(s[i].key@),
        entries_map(s)[s[i].key@] == entry_model(s[i]),
    decreases s.len(),
{
    if i < s.len() - 1 {
        assert(forall|a: int| 0 <= a < s.drop_last().len() ==> #[trigger] s.drop_last()[a] == s[a]);
        lemma_map_present(s.drop_last(), i);
        assert(s.last().key@ != s[i].key@);
    }
}

proof fn lemma_map_remove(s: Seq<Entry>, i: int)
    requires
        unique_keys(s),
        0 <= i < s.len(),
    ensures
        entries_map(s.remove(i)) == entries_map(s).remove(s[i].key@),
        unique_keys(s.remove(i)),
        forall|j: int| 0 <= j < s.remove(i).len() ==> (#[trigger] s.remove(i)[j]).key@ != s[i].key@,
    decreases s.len(),
{
    let k = s[i].key@;
    assert(forall|j: int| 0 <= j < s.remove(i).len() ==> #[trigger] s.remove(i)[j] == (if j < i {
        s[j]
    } else {
        s[j + 1]
    }));
    if i == s.len() - 1 {
        assert(s.remove(i) =~= s.drop_last());
        assert(forall|a: int| 0 <= a < s.drop_last().len() ==> #[trigger] s.drop_last()[a] == s[a]);
        lemma_map_absent(s.drop_last(), k);
        assert(entries_map(s.drop_last()).remove(k) =~= entries_map(s.drop_last()));
        assert(entries_map(s).remove(k) =~= entries_map(s.drop_last()).insert(
            k,
            entry_model(s.last()),
        ).remove(k));
        assert(entries_map(s.drop_last()).insert(k, entry_model(s.last())).remove(k)
            =~= entries_map(s.drop_last()).remove(k));
    } else {
        assert(forall|a: int| 0 <= a < s.drop_last().len() ==> #[trigger] s.drop_last()[a] == s[a]);
        lemma_map_remove(s.drop_last(), i);
        assert(s.remove(i).drop_last() =~= s.drop_last().remove(i));
        assert(s.remove(i).last() == s.last());
        let lk = s.last().key@;
        assert(lk != k);
        assert(entries_map(s.remove(i)) == entries_map(s.drop_last().remove(i)).insert(
            lk,
            entry_model(s.last()),
        ));
        assert(entries_map(s.drop_last()).remove(k).insert(lk, entry_model(s.last()))
            =~= entries_map(s.drop_last()).insert(lk, entry_model(s.last())).remove(k));
    }
}

/// Byte-for-byte equality of two slices.
fn eq_bytes(a: &[u8], b: &[u8]) -> (r: bool)
    ensures
        r == (a@ == b@),
{
    let n = a.len();
    if n != b.len() {
        return false;
    }
    let mut i: usize = 0;
    while i < n
        invariant
            i <= n,
            n == a@.len() == b@.len(),
            forall|j: int| 0 <= j < i ==> a@[j] == b@[j],
        decreases n - i,
    {
        if a[i] != b[i] {
            return false;
        }
        i = i + 1;
    }
    proof {
        assert(a@ =~= b@);
    }
    true
}

fn find_key(entries: &Vec<Entry>, key: &[u8]) -> (r: Option<usize>)
    ensures
        match r {
            Option::Some(i) => i < entries@.len() && entries@[i as int].key@ == key@,
            Option::None => forall|j: int|
                0 <= j < entries@.len() ==> (#[trigger] entries@[j]).key@ != key@,
        },
{
    let n = entries.len();
    let mut i: usize = 0;
    while i < n
        invariant
            i <= n,
            n == entries@.len(),
            forall|j: int| 0 <= j < i ==> (#[trigger] entries@[j]).key@ != key@,
        decreases n - i,
    {
        if eq_bytes(entries[i].key.as_slice(), key) {
            return Option::Some(i);
        }
        i = i + 1;
    }
    Option::None
}

impl View for Store {
    type V = StoreModel;

    closed spec fn view(&self) -> StoreModel {
        entries_map(self.entries@)
    }
}

impl Store {
    #[verifier::type_invariant]
    spec fn wf(&self) -> bool {
        unique_keys(self.entries@)
    }

    /// A fresh, empty store.
    pub fn new() -> (s: Store)
        ensures
            s@ == Map::<Seq<u8>, EntryModel>::empty(),
    {
        Store { entries: Vec::new() }
    }

    /// Unconditional upsert: stores `value` under `key`, replacing any prior
    /// value and expiry in one step.
    pub fn put(&mut self, key: Vec<u8>, value: Vec<u8>, expiry: Option<u64>)
        ensures
            final(self)@ == old(self)@.insert(key@, EntryModel { value: value@, expiry }),
    {
        proof {
            use_type_invariant(&*self);
        }
        let ghost m0 = self@;
        let mut entries: Vec<Entry> = Vec::new();
        core::mem::swap(&mut entries, &mut self.entries);
        let ghost s0 = entries@;
        match find_key(&entries, key.as_slice()) {
            Option::Some(i) => {
                entries.remove(i);
                proof {
                    lemma_map_remove(s0, i as int);
                    assert(entries_map(entries@) =~= m0.remove(key@));
                }
            },
            Option::None => {
                proof {
                    lemma_map_absent(s0, key@);
                    assert(m0.remove(key@) =~= m0);
                }
            },
        }
        let ghost s1 = entries@;
        let ghost km = key@;
        let ghost vm = EntryModel { value: value@, expiry };
        entries.push(Entry { key, value, expiry });
        proof {
            assert(entries@.drop_last() =~= s1);
            assert(entries@.last().key@ == km);
            assert(entry_model(entries@.last()) == vm);
            assert(entries_map(entries@) == entries_map(s1).insert(km, vm));
            assert(entries_map(entries@) =~= m0.insert(km, vm));
            assert(forall|j: int| 0 <= j < s1.len() ==> (#[trigger] s1[j]).key@ != km);
            assert(forall|j: int| 0 <= j < entries@.len() - 1 ==> #[trigger] entries@[j] == s1[j]);
            assert(unique_keys(entries@));
        }
        self.entries = entries;
    }

    /// Read with lazy expiry: yields the live value under `key`, or nothing;
    /// a dead entry found under `key` is removed as part of the read.
    pub fn get_and_expire(&mut self, key: &[u8], now: u64) -> (r: Option<Vec<u8>>)
        ensures
            final(self)@ == after_get(old(self)@, key@, now),
            match r {
                Option::Some(v) => live_lookup(old(self)@, key@, now) == Option::Some(v@),
                Option::None => live_lookup(old(self)@, key@, now) is None,
            },
    {
        proof {
            use_type_invariant(&*self);
        }
        let ghost m0 = self@;
        match find_key(&self.entries, key) {
            Option::None => {
                proof {
                    lemma_map_absent(self.entries@, key@);
                }
                Option::None
            },
            Option::Some(i) => {
                proof {
                    lemma_map_present(self.entries@, i as int);
                }
                let expired: bool = match self.entries[i].expiry {
                    Option::Some(t) => t <= now,
                    Option::None => false,
                };
                if expired {
                    let mut entries: Vec<Entry> = Vec::new();
                    core::mem::swap(&mut entries, &mut self.entries);
                    let ghost s0 = entries@;
                    entries.remove(i);
                    proof {
                        lemma_map_remove(s0, i as int);
                    }
                    self.entries = entries;
                    Option::None
                } else {
                    let v = slice_to_vec(self.entries[i].value.as_slice());
                    Option::Some(v)
                }
            },
        }
    }
}

} // verus!
